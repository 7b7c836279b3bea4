use vstd::prelude::*;

verus! {

/// The tokens of the language. The pair of `usize` fields in a token are the
/// line number and the position of the token's first character within the line.
pub enum Token {
    // Arithmetic
    Add(usize, usize),
    Sub(usize, usize),
    Mul(usize, usize),
    Div(usize, usize),
    Increment(usize, usize),
    Decrement(usize, usize),
    // Logic
    Not(usize, usize),
    LogOr(usize, usize),
    LogAnd(usize, usize),
    BitOr(usize, usize),
    BitXor(usize, usize),
    BitAnd(usize, usize),
    // Relation
    LessThan(usize, usize),
    GreaterThan(usize, usize),
    LessOrEq(usize, usize),
    GreaterOrEq(usize, usize),
    Equal(usize, usize),
    // Primitive
    Int(String, usize, usize),
    Double(String, usize, usize),
    Str(String, Vec<Vec<Token>>, usize, usize),
    Bool(bool, usize, usize),
    Name(String, usize, usize),
    // Structure
    Class(usize, usize),
    If(usize, usize),
    Else(usize, usize),
    While(usize, usize),
    Do(usize, usize),
    For(usize, usize),
    In(usize, usize),
    This(usize, usize),
    Super(usize, usize),
    Const(usize, usize),
    Extends(usize, usize),
    Get(usize, usize),
    Colon(usize, usize),
    Paren1(usize, usize),
    Paren2(usize, usize),
    Block1(usize, usize),
    Block2(usize, usize),
    Brack1(usize, usize),
    Brack2(usize, usize),
    Comma(usize, usize),
    // Other
    Assign(usize, usize),
    Access(usize, usize),
    Return(usize, usize),
    Import(usize, usize),
    EndSt(usize, usize),
    End,
}

/// Which variant a token is, without its payload.
#[derive(PartialEq, Eq, Structural, Clone, Copy, Debug)]
pub enum TokKind {
    Add, Sub, Mul, Div, Increment, Decrement,
    Not, LogOr, LogAnd, BitOr, BitXor, BitAnd,
    LessThan, GreaterThan, LessOrEq, GreaterOrEq, Equal,
    Int, Double, Str, Bool, Name,
    Class, If, Else, While, Do, For, In, This, Super, Const, Extends, Get, Colon,
    Paren1, Paren2, Block1, Block2, Brack1, Brack2, Comma,
    Assign, Access, Return, Import, EndSt, End,
}

/// The mathematical value of a token: its kind, its text payload (for `Int`,
/// `Double`, `Str` and `Name`), its boolean payload (for `Bool`), the token
/// sequences of a string's interpolations, and its position.
pub struct TokenV {
    pub kind: TokKind,
    pub text: Seq<char>,
    pub flag: bool,
    pub subs: Seq<Seq<TokenV>>,
    pub line: nat,
    pub col: nat,
}

pub open spec fn simple_tok(kind: TokKind, line: usize, col: usize) -> TokenV {
    TokenV { kind, text: seq![], flag: false, subs: seq![], line: line as nat, col: col as nat }
}

pub open spec fn text_tok(kind: TokKind, text: Seq<char>, line: usize, col: usize) -> TokenV {
    TokenV { kind, text, flag: false, subs: seq![], line: line as nat, col: col as nat }
}

/// The values of a sequence of tokens.
pub open spec fn toks_view(v: Seq<Token>) -> Seq<TokenV>
    decreases v,
{
    Seq::new(v.len(), |i: int| if 0 <= i < v.len() { v[i].view() } else { simple_tok(TokKind::End, 0, 0) })
}

impl Token {
    pub open spec fn view(self) -> TokenV
        decreases self,
    {
        match self {
            Token::Add(l, c) => simple_tok(TokKind::Add, l, c),
            Token::Sub(l, c) => simple_tok(TokKind::Sub, l, c),
            Token::Mul(l, c) => simple_tok(TokKind::Mul, l, c),
            Token::Div(l, c) => simple_tok(TokKind::Div, l, c),
            Token::Increment(l, c) => simple_tok(TokKind::Increment, l, c),
            Token::Decrement(l, c) => simple_tok(TokKind::Decrement, l, c),
            Token::Not(l, c) => simple_tok(TokKind::Not, l, c),
            Token::LogOr(l, c) => simple_tok(TokKind::LogOr, l, c),
            Token::LogAnd(l, c) => simple_tok(TokKind::LogAnd, l, c),
            Token::BitOr(l, c) => simple_tok(TokKind::BitOr, l, c),
            Token::BitXor(l, c) => simple_tok(TokKind::BitXor, l, c),
            Token::BitAnd(l, c) => simple_tok(TokKind::BitAnd, l, c),
            Token::LessThan(l, c) => simple_tok(TokKind::LessThan, l, c),
            Token::GreaterThan(l, c) => simple_tok(TokKind::GreaterThan, l, c),
            Token::LessOrEq(l, c) => simple_tok(TokKind::LessOrEq, l, c),
            Token::GreaterOrEq(l, c) => simple_tok(TokKind::GreaterOrEq, l, c),
            Token::Equal(l, c) => simple_tok(TokKind::Equal, l, c),
            Token::Int(s, l, c) => text_tok(TokKind::Int, s@, l, c),
            Token::Double(s, l, c) => text_tok(TokKind::Double, s@, l, c),
            Token::Str(s, subs, l, c) => TokenV {
                kind: TokKind::Str,
                text: s@,
                flag: false,
                subs: Seq::new(subs.len() as nat, |i: int|
                    if 0 <= i < subs.len() {
                        Seq::new(subs[i].len() as nat, |j: int|
                            if 0 <= j < subs[i].len() { subs[i][j].view() } else { simple_tok(TokKind::End, 0, 0) })
                    } else {
                        seq![]
                    }),
                line: l as nat,
                col: c as nat,
            },
            Token::Bool(b, l, c) => TokenV { kind: TokKind::Bool, text: seq![], flag: b, subs: seq![], line: l as nat, col: c as nat },
            Token::Name(s, l, c) => text_tok(TokKind::Name, s@, l, c),
            Token::Class(l, c) => simple_tok(TokKind::Class, l, c),
            Token::If(l, c) => simple_tok(TokKind::If, l, c),
            Token::Else(l, c) => simple_tok(TokKind::Else, l, c),
            Token::While(l, c) => simple_tok(TokKind::While, l, c),
            Token::Do(l, c) => simple_tok(TokKind::Do, l, c),
            Token::For(l, c) => simple_tok(TokKind::For, l, c),
            Token::In(l, c) => simple_tok(TokKind::In, l, c),
            Token::This(l, c) => simple_tok(TokKind::This, l, c),
            Token::Super(l, c) => simple_tok(TokKind::Super, l, c),
            Token::Const(l, c) => simple_tok(TokKind::Const, l, c),
            Token::Extends(l, c) => simple_tok(TokKind::Extends, l, c),
            Token::Get(l, c) => simple_tok(TokKind::Get, l, c),
            Token::Colon(l, c) => simple_tok(TokKind::Colon, l, c),
            Token::Paren1(l, c) => simple_tok(TokKind::Paren1, l, c),
            Token::Paren2(l, c) => simple_tok(TokKind::Paren2, l, c),
            Token::Block1(l, c) => simple_tok(TokKind::Block1, l, c),
            Token::Block2(l, c) => simple_tok(TokKind::Block2, l, c),
            Token::Brack1(l, c) => simple_tok(TokKind::Brack1, l, c),
            Token::Brack2(l, c) => simple_tok(TokKind::Brack2, l, c),
            Token::Comma(l, c) => simple_tok(TokKind::Comma, l, c),
            Token::Assign(l, c) => simple_tok(TokKind::Assign, l, c),
            Token::Access(l, c) => simple_tok(TokKind::Access, l, c),
            Token::Return(l, c) => simple_tok(TokKind::Return, l, c),
            Token::Import(l, c) => simple_tok(TokKind::Import, l, c),
            Token::EndSt(l, c) => simple_tok(TokKind::EndSt, l, c),
            Token::End => simple_tok(TokKind::End, 0, 0),
        }
    }

    /// The token's kind.
    pub fn kind(&self) -> (k: TokKind)
        ensures
            k == self.view().kind,
    {
        match self {
            Token::Add(..) => TokKind::Add,
            Token::Sub(..) => TokKind::Sub,
            Token::Mul(..) => TokKind::Mul,
            Token::Div(..) => TokKind::Div,
            Token::Increment(..) => TokKind::Increment,
            Token::Decrement(..) => TokKind::Decrement,
            Token::Not(..) => TokKind::Not,
            Token::LogOr(..) => TokKind::LogOr,
            Token::LogAnd(..) => TokKind::LogAnd,
            Token::BitOr(..) => TokKind::BitOr,
            Token::BitXor(..) => TokKind::BitXor,
            Token::BitAnd(..) => TokKind::BitAnd,
            Token::LessThan(..) => TokKind::LessThan,
            Token::GreaterThan(..) => TokKind::GreaterThan,
            Token::LessOrEq(..) => TokKind::LessOrEq,
            Token::GreaterOrEq(..) => TokKind::GreaterOrEq,
            Token::Equal(..) => TokKind::Equal,
            Token::Int(..) => TokKind::Int,
            Token::Double(..) => TokKind::Double,
            Token::Str(..) => TokKind::Str,
            Token::Bool(..) => TokKind::Bool,
            Token::Name(..) => TokKind::Name,
            Token::Class(..) => TokKind::Class,
            Token::If(..) => TokKind::If,
            Token::Else(..) => TokKind::Else,
            Token::While(..) => TokKind::While,
            Token::Do(..) => TokKind::Do,
            Token::For(..) => TokKind::For,
            Token::In(..) => TokKind::In,
            Token::This(..) => TokKind::This,
            Token::Super(..) => TokKind::Super,
            Token::Const(..) => TokKind::Const,
            Token::Extends(..) => TokKind::Extends,
            Token::Get(..) => TokKind::Get,
            Token::Colon(..) => TokKind::Colon,
            Token::Paren1(..) => TokKind::Paren1,
            Token::Paren2(..) => TokKind::Paren2,
            Token::Block1(..) => TokKind::Block1,
            Token::Block2(..) => TokKind::Block2,
            Token::Brack1(..) => TokKind::Brack1,
            Token::Brack2(..) => TokKind::Brack2,
            Token::Comma(..) => TokKind::Comma,
            Token::Assign(..) => TokKind::Assign,
            Token::Access(..) => TokKind::Access,
            Token::Return(..) => TokKind::Return,
            Token::Import(..) => TokKind::Import,
            Token::EndSt(..) => TokKind::EndSt,
            Token::End => TokKind::End,
        }
    }

    /// The line and column where the token starts; `(0, 0)` for the end marker.
    pub fn find_token_position(&self) -> (p: (usize, usize))
        ensures
            p.0 as nat == self.view().line,
            p.1 as nat == self.view().col,
    {
        match self {
            Token::Add(l, c) | Token::Sub(l, c) | Token::Mul(l, c) | Token::Div(l, c)
            | Token::Increment(l, c) | Token::Decrement(l, c) | Token::Not(l, c)
            | Token::LogOr(l, c) | Token::LogAnd(l, c) | Token::BitOr(l, c)
            | Token::BitXor(l, c) | Token::BitAnd(l, c) | Token::LessThan(l, c)
            | Token::GreaterThan(l, c) | Token::LessOrEq(l, c) | Token::GreaterOrEq(l, c)
            | Token::Equal(l, c) | Token::Int(_, l, c) | Token::Double(_, l, c)
            | Token::Str(_, _, l, c) | Token::Bool(_, l, c) | Token::Name(_, l, c)
            | Token::Class(l, c) | Token::If(l, c) | Token::Else(l, c) | Token::While(l, c)
            | Token::Do(l, c) | Token::For(l, c) | Token::In(l, c) | Token::This(l, c)
            | Token::Super(l, c) | Token::Const(l, c) | Token::Extends(l, c) | Token::Get(l, c)
            | Token::Colon(l, c) | Token::Paren1(l, c) | Token::Paren2(l, c)
            | Token::Block1(l, c) | Token::Block2(l, c) | Token::Brack1(l, c)
            | Token::Brack2(l, c) | Token::Comma(l, c) | Token::Assign(l, c)
            | Token::Access(l, c) | Token::Return(l, c) | Token::Import(l, c)
            | Token::EndSt(l, c) => (*l, *c),
            Token::End => (0, 0),
        }
    }
}


/// The text that names a token of a payload-free kind.
pub open spec fn kind_text(k: TokKind) -> Seq<char> {
    match k {
        TokKind::Add => "+"@,
        TokKind::Sub => "-"@,
        TokKind::Mul => "*"@,
        TokKind::Div => "/"@,
        TokKind::Increment => "++"@,
        TokKind::Decrement => "--"@,
        TokKind::Not => "!"@,
        TokKind::LogOr => "||"@,
        TokKind::LogAnd => "&&"@,
        TokKind::BitOr => "|"@,
        TokKind::BitXor => "^"@,
        TokKind::BitAnd => "&"@,
        TokKind::LessThan => "<"@,
        TokKind::GreaterThan => ">"@,
        TokKind::LessOrEq => "<="@,
        TokKind::GreaterOrEq => ">="@,
        TokKind::Equal => "=="@,
        TokKind::Class => "class"@,
        TokKind::If => "if"@,
        TokKind::Else => "else"@,
        TokKind::While => "while"@,
        TokKind::Do => "do"@,
        TokKind::For => "for"@,
        TokKind::In => "in"@,
        TokKind::This => "this"@,
        TokKind::Super => "super"@,
        TokKind::Const => "const"@,
        TokKind::Extends => "extends"@,
        TokKind::Get => "get"@,
        TokKind::Colon => ":"@,
        TokKind::Paren1 => "("@,
        TokKind::Paren2 => ")"@,
        TokKind::Block1 => "{"@,
        TokKind::Block2 => "}"@,
        TokKind::Brack1 => "["@,
        TokKind::Brack2 => "]"@,
        TokKind::Comma => ","@,
        TokKind::Assign => "="@,
        TokKind::Access => "."@,
        TokKind::Return => "return"@,
        TokKind::Import => "import"@,
        TokKind::EndSt => "ENDST"@,
        TokKind::End => "END"@,
        _ => ""@,
    }
}

/// How a token is written out: operators and keywords by their symbol, numbers
/// and names by their text, booleans as `true` or `false`, and a string in
/// double quotes, followed, where it has interpolations, by `( `, the text of
/// every interpolated token each followed by a space, and `)`.
pub open spec fn token_text(t: TokenV) -> Seq<char>
    decreases t,
{
    match t.kind {
        TokKind::Int | TokKind::Double | TokKind::Name => t.text,
        TokKind::Bool => if t.flag { "true"@ } else { "false"@ },
        TokKind::Str => if t.subs.len() > 0 {
            "\""@ + t.text + "\""@ + "( "@ + interpolations_text(t.subs) + ")"@
        } else {
            "\""@ + t.text + "\""@
        },
        _ => kind_text(t.kind),
    }
}

/// The texts of the tokens of every interpolation, each followed by a space.
pub open spec fn interpolations_text(ss: Seq<Seq<TokenV>>) -> Seq<char>
    decreases ss,
{
    if ss.len() == 0 {
        seq![]
    } else {
        interpolations_text(ss.drop_last()) + tokens_text(ss.last())
    }
}

/// The texts of the tokens of `s`, each followed by a space.
pub open spec fn tokens_text(s: Seq<TokenV>) -> Seq<char>
    decreases s,
{
    if s.len() == 0 {
        seq![]
    } else {
        tokens_text(s.drop_last()) + token_text(s.last()) + " "@
    }
}

pub fn kind_to_text(k: TokKind) -> (r: String)
    ensures
        r@ == kind_text(k),
{
    let s = match k {
        TokKind::Add => "+",
        TokKind::Sub => "-",
        TokKind::Mul => "*",
        TokKind::Div => "/",
        TokKind::Increment => "++",
        TokKind::Decrement => "--",
        TokKind::Not => "!",
        TokKind::LogOr => "||",
        TokKind::LogAnd => "&&",
        TokKind::BitOr => "|",
        TokKind::BitXor => "^",
        TokKind::BitAnd => "&",
        TokKind::LessThan => "<",
        TokKind::GreaterThan => ">",
        TokKind::LessOrEq => "<=",
        TokKind::GreaterOrEq => ">=",
        TokKind::Equal => "==",
        TokKind::Class => "class",
        TokKind::If => "if",
        TokKind::Else => "else",
        TokKind::While => "while",
        TokKind::Do => "do",
        TokKind::For => "for",
        TokKind::In => "in",
        TokKind::This => "this",
        TokKind::Super => "super",
        TokKind::Const => "const",
        TokKind::Extends => "extends",
        TokKind::Get => "get",
        TokKind::Colon => ":",
        TokKind::Paren1 => "(",
        TokKind::Paren2 => ")",
        TokKind::Block1 => "{",
        TokKind::Block2 => "}",
        TokKind::Brack1 => "[",
        TokKind::Brack2 => "]",
        TokKind::Comma => ",",
        TokKind::Assign => "=",
        TokKind::Access => ".",
        TokKind::Return => "return",
        TokKind::Import => "import",
        TokKind::EndSt => "ENDST",
        TokKind::End => "END",
        _ => "",
    };
    String::from_str(s)
}

impl Token {
    /// The token written out as `token_text` says.
    pub fn to_text(&self) -> (r: String)
        ensures
            r@ == token_text(self.view()),
        decreases self,
    {
        match self {
            Token::Int(s, _, _) | Token::Double(s, _, _) | Token::Name(s, _, _) => s.clone(),
            Token::Bool(b, _, _) => if *b { String::from_str("true") } else { String::from_str("false") },
            Token::Str(s, subs, _, _) => {
                let ghost v = self.view();
                let mut r = String::from_str("\"");
                r.append(s.as_str());
                r.append("\"");
                if subs.len() > 0 {
                    r.append("( ");
                    let ghost head = r@;
                    let mut i: usize = 0;
                    while i < subs.len()
                        invariant
                            0 <= i <= subs.len(),
                            v == self.view(),
                            r@ == head + interpolations_text(v.subs.take(i as int)),
                            self matches Token::Str(_, ss, _, _) && ss == subs,
                        decreases subs.len() - i,
                    {
                        let itp = &subs[i];
                        let ghost before = r@;
                        let mut j: usize = 0;
                        while j < itp.len()
                            invariant
                                0 <= j <= itp.len(),
                                i < subs.len(),
                                itp == subs[i as int],
                                v == self.view(),
                                self matches Token::Str(_, ss, _, _) && ss == subs,
                                r@ == before + tokens_text(v.subs[i as int].take(j as int)),
                            decreases itp.len() - j,
                        {
                            proof {
                                assert(decreases_to!(self => subs));
                                assert(decreases_to!(subs => subs[i as int]));
                                assert(decreases_to!(itp => itp[j as int]));
                            }
                            let t = itp[j].to_text();
                            r.append(t.as_str());
                            r.append(" ");
                            proof {
                                let sq = v.subs[i as int];
                                assert(sq.take(j + 1).drop_last() =~= sq.take(j as int));
                            }
                            j = j + 1;
                        }
                        proof {
                            assert(v.subs[i as int].take(itp.len() as int) =~= v.subs[i as int]);
                            assert(v.subs.take(i + 1).drop_last() =~= v.subs.take(i as int));
                        }
                        i = i + 1;
                    }
                    assert(v.subs.take(subs.len() as int) =~= v.subs);
                    r.append(")");
                }
                r
            }
            _ => {
                let r = kind_to_text(self.kind());
                r
            }
        }
    }
}


pub proof fn lemma_toks_push(v: Seq<Token>, t: Token)
    ensures
        toks_view(v.push(t)) == toks_view(v).push(t.view()),
{
    assert(toks_view(v.push(t)) =~= toks_view(v).push(t.view()));
}

/// A copy of a sequence of tokens.
pub fn duplicate_tokens(v: &Vec<Token>) -> (r: Vec<Token>)
    ensures
        toks_view(r@) == toks_view(v@),
    decreases v, 0int,
{
    let mut r: Vec<Token> = Vec::new();
    let mut j: usize = 0;
    while j < v.len()
        invariant
            0 <= j <= v.len(),
            toks_view(r@) == toks_view(v@.take(j as int)),
        decreases v.len() - j,
    {
        proof { assert(decreases_to!(v => v[j as int])); }
        let t = v[j].duplicate();
        proof { lemma_toks_push(r@, t); }
        r.push(t);
        proof {
            lemma_toks_push(v@.take(j as int), v[j as int]);
            assert(v@.take(j + 1) =~= v@.take(j as int).push(v[j as int]));
            assert(toks_view(r@) =~= toks_view(v@.take(j + 1)));
        }
        j = j + 1;
    }
    assert(v@.take(v.len() as int) =~= v@);
    r
}

impl Token {
    /// A copy of the token, with the same value.
    pub fn duplicate(&self) -> (r: Token)
        ensures
            r.view() == self.view(),
        decreases self, 1int,
    {
        match self {
            Token::Add(l, c) => Token::Add(*l, *c),
            Token::Sub(l, c) => Token::Sub(*l, *c),
            Token::Mul(l, c) => Token::Mul(*l, *c),
            Token::Div(l, c) => Token::Div(*l, *c),
            Token::Increment(l, c) => Token::Increment(*l, *c),
            Token::Decrement(l, c) => Token::Decrement(*l, *c),
            Token::Not(l, c) => Token::Not(*l, *c),
            Token::LogOr(l, c) => Token::LogOr(*l, *c),
            Token::LogAnd(l, c) => Token::LogAnd(*l, *c),
            Token::BitOr(l, c) => Token::BitOr(*l, *c),
            Token::BitXor(l, c) => Token::BitXor(*l, *c),
            Token::BitAnd(l, c) => Token::BitAnd(*l, *c),
            Token::LessThan(l, c) => Token::LessThan(*l, *c),
            Token::GreaterThan(l, c) => Token::GreaterThan(*l, *c),
            Token::LessOrEq(l, c) => Token::LessOrEq(*l, *c),
            Token::GreaterOrEq(l, c) => Token::GreaterOrEq(*l, *c),
            Token::Equal(l, c) => Token::Equal(*l, *c),
            Token::Class(l, c) => Token::Class(*l, *c),
            Token::If(l, c) => Token::If(*l, *c),
            Token::Else(l, c) => Token::Else(*l, *c),
            Token::While(l, c) => Token::While(*l, *c),
            Token::Do(l, c) => Token::Do(*l, *c),
            Token::For(l, c) => Token::For(*l, *c),
            Token::In(l, c) => Token::In(*l, *c),
            Token::This(l, c) => Token::This(*l, *c),
            Token::Super(l, c) => Token::Super(*l, *c),
            Token::Const(l, c) => Token::Const(*l, *c),
            Token::Extends(l, c) => Token::Extends(*l, *c),
            Token::Get(l, c) => Token::Get(*l, *c),
            Token::Colon(l, c) => Token::Colon(*l, *c),
            Token::Paren1(l, c) => Token::Paren1(*l, *c),
            Token::Paren2(l, c) => Token::Paren2(*l, *c),
            Token::Block1(l, c) => Token::Block1(*l, *c),
            Token::Block2(l, c) => Token::Block2(*l, *c),
            Token::Brack1(l, c) => Token::Brack1(*l, *c),
            Token::Brack2(l, c) => Token::Brack2(*l, *c),
            Token::Comma(l, c) => Token::Comma(*l, *c),
            Token::Assign(l, c) => Token::Assign(*l, *c),
            Token::Access(l, c) => Token::Access(*l, *c),
            Token::Return(l, c) => Token::Return(*l, *c),
            Token::Import(l, c) => Token::Import(*l, *c),
            Token::EndSt(l, c) => Token::EndSt(*l, *c),
            Token::Int(s, l, c) => Token::Int(s.clone(), *l, *c),
            Token::Double(s, l, c) => Token::Double(s.clone(), *l, *c),
            Token::Name(s, l, c) => Token::Name(s.clone(), *l, *c),
            Token::Bool(b, l, c) => Token::Bool(*b, *l, *c),
            Token::End => Token::End,
            Token::Str(s, subs, l, c) => {
                let mut out: Vec<Vec<Token>> = Vec::new();
                let mut i: usize = 0;
                while i < subs.len()
                    invariant
                        0 <= i <= subs.len(),
                        self matches Token::Str(_, ss, _, _) && ss == subs,
                        out.len() == i,
                        forall|k: int| 0 <= k < i ==> #[trigger] toks_view(out@[k]@) == toks_view(subs@[k]@),
                    decreases subs.len() - i,
                {
                    proof {
                        assert(decreases_to!(self => subs));
                        assert(decreases_to!(subs => subs[i as int]));
                    }
                    let d = duplicate_tokens(&subs[i]);
                    out.push(d);
                    i = i + 1;
                }
                let r = Token::Str(s.clone(), out, *l, *c);
                proof {
                    let a = r.view();
                    let b = self.view();
                    assert forall|k: int| 0 <= k < subs.len() implies a.subs[k] =~= b.subs[k] by {
                        assert(toks_view(out@[k]@) == toks_view(subs@[k]@));
                        assert forall|m: int| 0 <= m < subs@[k].len() implies a.subs[k][m] == b.subs[k][m] by {
                            assert(toks_view(out@[k]@)[m] == toks_view(subs@[k]@)[m]);
                        }
                    }
                    assert(a.subs =~= b.subs);
                }
                r
            }
        }
    }
}


/// The token values of a string's interpolations.
pub open spec fn subs_view(v: Seq<Vec<Token>>) -> Seq<Seq<TokenV>> {
    Seq::new(v.len(), |i: int| toks_view(v[i]@))
}

/// The interpolations of a string token, as values, are those of its
/// token vectors.
pub proof fn lemma_str_subs(s: String, subs: Vec<Vec<Token>>, l: usize, c: usize)
    ensures
        Token::Str(s, subs, l, c).view().subs == subs_view(subs@),
{
    let t = Token::Str(s, subs, l, c).view();
    assert forall|i: int| 0 <= i < subs@.len() implies #[trigger] t.subs[i] =~= subs_view(subs@)[i] by {}
    assert(t.subs =~= subs_view(subs@));
}


/// The size of a token: one, plus the sizes of its interpolations.
pub open spec fn tok_size(t: TokenV) -> nat
    decreases t, 0int,
{
    1 + subs_size(t.subs, 0)
}

/// The sizes of the interpolations `ss` from the `j`-th on, each plus one.
pub open spec fn subs_size(ss: Seq<Seq<TokenV>>, j: int) -> nat
    decreases ss, ss.len() - j,
{
    if 0 <= j < ss.len() {
        1 + seq_size(ss[j], 0) + subs_size(ss, j + 1)
    } else {
        0
    }
}

/// The sizes of the tokens of `s` from the `i`-th on.
pub open spec fn seq_size(s: Seq<TokenV>, i: int) -> nat
    decreases s, s.len() - i,
{
    if 0 <= i < s.len() {
        tok_size(s[i]) + seq_size(s, i + 1)
    } else {
        0
    }
}

/// A token's interpolations are smaller than the tokens around it.
pub proof fn lemma_size_at(s: Seq<TokenV>, p: int)
    requires
        0 <= p < s.len(),
    ensures
        subs_size(s[p].subs, 0) < seq_size(s, 0),
{
    lemma_size_from(s, 0, p);
}

proof fn lemma_size_from(s: Seq<TokenV>, i: int, p: int)
    requires
        0 <= i <= p < s.len(),
    ensures
        tok_size(s[p]) <= seq_size(s, i),
    decreases p - i,
{
    if i < p {
        lemma_size_from(s, i + 1, p);
    }
}

/// Each interpolation is smaller than those from it on.
pub proof fn lemma_subs_size(ss: Seq<Seq<TokenV>>, j: int)
    requires
        0 <= j < ss.len(),
    ensures
        seq_size(ss[j], 0) < subs_size(ss, j),
        subs_size(ss, j + 1) < subs_size(ss, j),
{
}


impl Token {
    /// The text of an `Int`, `Double`, `Str` or `Name` token; empty for the
    /// others.
    pub fn text(&self) -> (r: String)
        ensures
            r@ == self.view().text,
    {
        match self {
            Token::Int(s, _, _) | Token::Double(s, _, _) | Token::Name(s, _, _) | Token::Str(s, _, _, _) => s.clone(),
            _ => String::new(),
        }
    }

    /// The value of a `Bool` token; false for the others.
    pub fn flag(&self) -> (r: bool)
        ensures
            r == self.view().flag,
    {
        match self {
            Token::Bool(b, _, _) => *b,
            _ => false,
        }
    }

    /// A copy of the interpolations of a `Str` token; none for the others.
    pub fn subs(&self) -> (r: Vec<Vec<Token>>)
        ensures
            subs_view(r@) == self.view().subs,
    {
        match self {
            Token::Str(s, subs, l, c) => {
                proof {
                    lemma_str_subs(*s, *subs, *l, *c);
                }
                let mut r: Vec<Vec<Token>> = Vec::new();
                let mut i: usize = 0;
                while i < subs.len()
                    invariant
                        i <= subs@.len(),
                        r@.len() == i,
                        forall|j: int| 0 <= j < i ==> toks_view((#[trigger] r@[j])@) == toks_view(subs@[j]@),
                    decreases subs@.len() - i,
                {
                    r.push(duplicate_tokens(&subs[i]));
                    i = i + 1;
                }
                assert(subs_view(r@) =~= subs_view(subs@));
                r
            },
            _ => {
                let r: Vec<Vec<Token>> = Vec::new();
                assert(subs_view(r@) =~= Seq::<Seq<TokenV>>::empty());
                r
            },
        }
    }
}

} // verus!
