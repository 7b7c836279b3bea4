use vstd::prelude::*;
use crate::text::{char_is_alphabetic, char_is_digit, chars_of, is_decimal_digit, string_push, unicode_alphabetic};
use crate::token::{Token, TokKind, TokenV, simple_tok, text_tok, toks_view, lemma_toks_push};
use crate::reader::Reader;

verus! {

broadcast use vstd::std_specs::vec::group_vec_axioms;

/// Why lexing stops short.
#[derive(PartialEq, Eq, Structural, Clone, Copy, Debug)]
pub enum LexError {
    /// A newline inside a string interpolation.
    NewlineInInterpolation,
    /// A string whose closing quote never comes.
    UnclosedQuote,
    /// A `/` as the last character of the input.
    SlashAtEnd,
    /// A character that needs a successor (`$`, `=`, `+`, `-`, `<`, `>`, `|`, `&`)
    /// as the last character of the input.
    MissingSuccessor,
    /// Two dots in a row inside a number.
    DoubleDot,
    /// A character that starts no token.
    Unrecognized(char),
}

/// Not applicable for the first char in a name, where only letters are allowed.
pub open spec fn legal_namechar(c: char) -> bool {
    unicode_alphabetic(c) || is_decimal_digit(c) || c == '_'
}

/// The number of name characters in `cs` from index `i` on, up to the first
/// character that is not one.
pub open spec fn word_len(cs: Seq<char>, i: int) -> nat
    decreases cs.len() - i,
{
    if 0 <= i < cs.len() && legal_namechar(cs[i]) {
        1 + word_len(cs, i + 1)
    } else {
        0
    }
}

/// The token that a word read at `(line, col)` becomes: a keyword, a boolean
/// literal, or a name.
pub open spec fn word_token(w: Seq<char>, line: int, col: int) -> TokenV {
    let l = line as usize;
    let c = col as usize;
    if w == "import"@ {
        simple_tok(TokKind::Import, l, c)
    } else if w == "true"@ {
        TokenV { kind: TokKind::Bool, text: seq![], flag: true, subs: seq![], line: line as nat, col: col as nat }
    } else if w == "false"@ {
        TokenV { kind: TokKind::Bool, text: seq![], flag: false, subs: seq![], line: line as nat, col: col as nat }
    } else if w == "if"@ {
        simple_tok(TokKind::If, l, c)
    } else if w == "else"@ {
        simple_tok(TokKind::Else, l, c)
    } else if w == "while"@ {
        simple_tok(TokKind::While, l, c)
    } else if w == "do"@ {
        simple_tok(TokKind::Do, l, c)
    } else if w == "return"@ {
        simple_tok(TokKind::Return, l, c)
    } else if w == "class"@ {
        simple_tok(TokKind::Class, l, c)
    } else {
        text_tok(TokKind::Name, w, l, c)
    }
}

/// Where a `//` comment whose text starts at `j` ends: just past the newline
/// that ends it, or at the end of the input. Gives the next index, line and column.
pub open spec fn comment_end(cs: Seq<char>, j: int, line: int, col: int) -> (int, int, int)
    decreases cs.len() - j,
{
    if j >= cs.len() || j < 0 {
        (j, line, col)
    } else if cs[j] == '\n' {
        (j + 1, line + 1, 1)
    } else {
        comment_end(cs, j + 1, line, col + 1)
    }
}

/// Scans the rest of a number literal whose first `nl` characters start at `i`.
/// Gives the literal's length, whether it holds no dot, and the column after
/// counting its extra characters; or the error when two dots meet.
pub open spec fn number_scan(cs: Seq<char>, i: int, nl: int, is_int: bool, col: int) -> Result<(int, bool, int), LexError>
    decreases cs.len() - (i + nl),
{
    if i + nl >= cs.len() || nl < 1 || i < 0 {
        Ok((nl, is_int, col))
    } else if is_decimal_digit(cs[i + nl]) {
        number_scan(cs, i, nl + 1, is_int, col + 1)
    } else if cs[i + nl] == '.' {
        if cs[i + nl - 1] == '.' {
            Err(LexError::DoubleDot)
        } else {
            number_scan(cs, i, nl + 1, false, col + 1)
        }
    } else {
        Ok((nl, is_int, col))
    }
}

/// The outcome of lexing `cs` from index `i`, with `interpol` levels of string
/// interpolation open, at `(line, col)`, after the tokens `acc`: the tokens and
/// the index where lexing stopped, or the error.
///
/// At the end of the input an end marker is added. Inside an interpolation a
/// `}` ends the lexing just past itself, without an end marker.
pub open spec fn lex_from(cs: Seq<char>, i: int, interpol: nat, line: int, col: int, acc: Seq<TokenV>) -> Result<(Seq<TokenV>, int), LexError>
    decreases cs.len() - i, 1int,
{
    if i < 0 || i >= cs.len() {
        Ok((acc.push(simple_tok(TokKind::End, 0, 0)), i))
    } else {
        let c = cs[i];
        let l = line as usize;
        let k = col as usize;
        if c == ' ' {
            lex_from(cs, i + 1, interpol, line, col + 1, acc)
        } else if c == '\n' {
            if interpol != 0 {
                Err(LexError::NewlineInInterpolation)
            } else {
                lex_from(cs, i + 1, interpol, line + 1, 1, acc)
            }
        } else if c == '"' || c == '\'' {
            match string_from(cs, i + 1, interpol, line, col + 1, c, seq![], seq![]) {
                Err(e) => Err(e),
                Ok((j, col2, s, subs, closed)) => {
                    if !closed {
                        Err(LexError::UnclosedQuote)
                    } else if i < j <= cs.len() {
                        let t = TokenV { kind: TokKind::Str, text: s, flag: false, subs, line: line as nat, col: col as nat };
                        lex_from(cs, j, interpol, line, col2, acc.push(t))
                    } else {
                        Err(LexError::UnclosedQuote)
                    }
                },
            }
        } else if c == '/' {
            if i + 1 < cs.len() {
                if cs[i + 1] == '/' {
                    let (j, line2, col2) = comment_end(cs, i + 2, line, col + 2);
                    if i < j <= cs.len() {
                        lex_from(cs, j, interpol, line2, col2, acc)
                    } else {
                        Err(LexError::SlashAtEnd)
                    }
                } else {
                    lex_from(cs, i + 1, interpol, line, col + 1, acc.push(simple_tok(TokKind::Div, l, k)))
                }
            } else {
                Err(LexError::SlashAtEnd)
            }
        } else if c == '}' && interpol > 0 {
            Ok((acc, i + 1))
        } else if single_kind(c) is Some {
            lex_from(cs, i + 1, interpol, line, col + 1, acc.push(simple_tok(single_kind(c)->0, l, k)))
        } else if pair_kinds(c) is Some {
            let (two, one) = pair_kinds(c).unwrap();
            if i + 1 >= cs.len() {
                Err(LexError::MissingSuccessor)
            } else if cs[i + 1] == pair_second(c) {
                lex_from(cs, i + 2, interpol, line, col + 2, acc.push(simple_tok(two, l, k)))
            } else {
                lex_from(cs, i + 1, interpol, line, col + 1, acc.push(simple_tok(one, l, k)))
            }
        } else if is_decimal_digit(c) {
            match number_scan(cs, i, 1, true, col) {
                Err(e) => Err(e),
                Ok((nl, is_int, col2)) => {
                    let text = cs.subrange(i, i + nl);
                    let t = if is_int { text_tok(TokKind::Int, text, l, k) } else { text_tok(TokKind::Double, text, l, k) };
                    if 1 <= nl && i + nl <= cs.len() {
                        lex_from(cs, i + nl, interpol, line, col2 + 1, acc.push(t))
                    } else {
                        Err(LexError::Unrecognized(c))
                    }
                },
            }
        } else if unicode_alphabetic(c) {
            let n = word_len(cs, i);
            if 1 <= n && i + n <= cs.len() {
                lex_from(cs, i + n, interpol, line, col + n, acc.push(word_token(cs.subrange(i, i + n), line, col)))
            } else {
                Err(LexError::Unrecognized(c))
            }
        } else {
            Err(LexError::Unrecognized(c))
        }
    }
}

/// The outcome of scanning the body of a string literal quoted by `q` from
/// index `i` at `(line, col)`, with the characters `s` and the interpolations
/// `subs` read so far: the index and column after it, its characters, its
/// interpolations, and whether the closing quote was found; or the error.
pub open spec fn string_from(
    cs: Seq<char>,
    i: int,
    interpol: nat,
    line: int,
    col: int,
    q: char,
    s: Seq<char>,
    subs: Seq<Seq<TokenV>>,
) -> Result<(int, int, Seq<char>, Seq<Seq<TokenV>>, bool), LexError>
    decreases cs.len() - i, 0int,
{
    if i < 0 || i >= cs.len() {
        Ok((i, col, s, subs, false))
    } else if cs[i] == q {
        Ok((i + 1, col + 1, s, subs, true))
    } else {
        let nc = cs[i];
        let s2 = s.push(nc);
        let i2 = i + 1;
        let col2 = col + 1;
        if nc == '$' {
            if i2 >= cs.len() {
                Err(LexError::MissingSuccessor)
            } else if cs[i2] == '{' {
                match lex_from(cs, i2 + 1, interpol + 1, line, col2, seq![]) {
                    Err(e) => Err(e),
                    Ok((sub, np)) => {
                        if i2 < np <= cs.len() {
                            string_from(cs, np, interpol, line, col2 + (np - i2), q, s2, subs.push(sub))
                        } else {
                            Err(LexError::UnclosedQuote)
                        }
                    },
                }
            } else {
                string_from(cs, i2, interpol, line, col2, q, s2, subs)
            }
        } else {
            string_from(cs, i2, interpol, line, col2, q, s2, subs)
        }
    }
}

/// The kind of a token made of the single character `c`, when `c` is one.
pub open spec fn single_kind(c: char) -> Option<TokKind> {
    if c == '(' { Some(TokKind::Paren1) }
    else if c == ')' { Some(TokKind::Paren2) }
    else if c == '{' { Some(TokKind::Block1) }
    else if c == '}' { Some(TokKind::Block2) }
    else if c == '[' { Some(TokKind::Brack1) }
    else if c == ']' { Some(TokKind::Brack2) }
    else if c == '.' { Some(TokKind::Access) }
    else if c == ',' { Some(TokKind::Comma) }
    else if c == ';' { Some(TokKind::EndSt) }
    else if c == '*' { Some(TokKind::Mul) }
    else if c == '^' { Some(TokKind::BitXor) }
    else if c == '!' { Some(TokKind::Not) }
    else { None }
}

/// For a character that starts a one- or two-character operator: the kind of
/// the two-character token and of the one-character token.
pub open spec fn pair_kinds(c: char) -> Option<(TokKind, TokKind)> {
    if c == '=' { Some((TokKind::Equal, TokKind::Assign)) }
    else if c == '+' { Some((TokKind::Increment, TokKind::Add)) }
    else if c == '-' { Some((TokKind::Decrement, TokKind::Sub)) }
    else if c == '<' { Some((TokKind::LessOrEq, TokKind::LessThan)) }
    else if c == '>' { Some((TokKind::GreaterOrEq, TokKind::GreaterThan)) }
    else if c == '|' { Some((TokKind::LogOr, TokKind::BitOr)) }
    else if c == '&' { Some((TokKind::LogAnd, TokKind::BitAnd)) }
    else { None }
}

/// The second character of the two-character operator that `c` starts.
pub open spec fn pair_second(c: char) -> char {
    if c == '+' { '+' }
    else if c == '-' { '-' }
    else if c == '|' { '|' }
    else if c == '&' { '&' }
    else { '=' }
}

/// The outcome of lexing a whole input: its tokens, ending with the end marker.
pub open spec fn lex_spec(cs: Seq<char>) -> Result<Seq<TokenV>, LexError> {
    match lex_from(cs, 0, 0, 1, 1, seq![]) {
        Ok((toks, _)) => Ok(toks),
        Err(e) => Err(e),
    }
}


/// No token but the end marker has the end marker's kind.
pub open spec fn no_end_marker(ts: Seq<TokenV>) -> bool {
    forall|j: int| 0 <= j < ts.len() ==> (#[trigger] ts[j]).kind != TokKind::End
}

proof fn lemma_lex_from_end(cs: Seq<char>, i: int, line: int, col: int, acc: Seq<TokenV>)
    requires
        no_end_marker(acc),
    ensures
        lex_from(cs, i, 0, line, col, acc) matches Ok((vs, q)) ==> vs.len() > 0 && vs.last().kind == TokKind::End
            && no_end_marker(vs.drop_last()),
    decreases cs.len() - i,
{
    if i < 0 || i >= cs.len() {
        assert(acc.push(simple_tok(TokKind::End, 0, 0)).drop_last() =~= acc);
    } else {
        let c = cs[i];
        let l = line as usize;
        let k = col as usize;
        if c == ' ' {
            lemma_lex_from_end(cs, i + 1, line, col + 1, acc);
        } else if c == '\n' {
            lemma_lex_from_end(cs, i + 1, line + 1, 1, acc);
        } else if c == '"' || c == '\'' {
            match string_from(cs, i + 1, 0, line, col + 1, c, seq![], seq![]) {
                Err(e) => {},
                Ok((j, col2, s, subs, closed)) => {
                    let t = TokenV { kind: TokKind::Str, text: s, flag: false, subs, line: line as nat, col: col as nat };
                    if closed && i < j <= cs.len() {
                        assert(no_end_marker(acc.push(t)));
                        lemma_lex_from_end(cs, j, line, col2, acc.push(t));
                    }
                },
            }
        } else if c == '/' {
            if i + 1 < cs.len() {
                if cs[i + 1] == '/' {
                    let (j, line2, col2) = comment_end(cs, i + 2, line, col + 2);
                    if i < j <= cs.len() {
                        lemma_lex_from_end(cs, j, line2, col2, acc);
                    }
                } else {
                    assert(no_end_marker(acc.push(simple_tok(TokKind::Div, l, k))));
                    lemma_lex_from_end(cs, i + 1, line, col + 1, acc.push(simple_tok(TokKind::Div, l, k)));
                }
            }
        } else if single_kind(c) is Some {
            assert(no_end_marker(acc.push(simple_tok(single_kind(c)->0, l, k))));
            lemma_lex_from_end(cs, i + 1, line, col + 1, acc.push(simple_tok(single_kind(c)->0, l, k)));
        } else if pair_kinds(c) is Some {
            let (two, one) = pair_kinds(c).unwrap();
            if i + 1 < cs.len() {
                if cs[i + 1] == pair_second(c) {
                    assert(no_end_marker(acc.push(simple_tok(two, l, k))));
                    lemma_lex_from_end(cs, i + 2, line, col + 2, acc.push(simple_tok(two, l, k)));
                } else {
                    assert(no_end_marker(acc.push(simple_tok(one, l, k))));
                    lemma_lex_from_end(cs, i + 1, line, col + 1, acc.push(simple_tok(one, l, k)));
                }
            }
        } else if is_decimal_digit(c) {
            match number_scan(cs, i, 1, true, col) {
                Err(e) => {},
                Ok((nl, is_int, col2)) => {
                    let text = cs.subrange(i, i + nl);
                    let t = if is_int { text_tok(TokKind::Int, text, l, k) } else { text_tok(TokKind::Double, text, l, k) };
                    if 1 <= nl && i + nl <= cs.len() {
                        assert(no_end_marker(acc.push(t)));
                        lemma_lex_from_end(cs, i + nl, line, col2 + 1, acc.push(t));
                    }
                },
            }
        } else if unicode_alphabetic(c) {
            let n = word_len(cs, i);
            if 1 <= n && i + n <= cs.len() {
                let t = word_token(cs.subrange(i, i + n), line, col);
                assert(no_end_marker(acc.push(t)));
                lemma_lex_from_end(cs, i + n, line, col + n, acc.push(t));
            }
        }
    }
}

/// Lexing an input that lexes gives tokens that end with the end marker,
/// and the end marker nowhere else.
pub proof fn lemma_lex_end_marker(cs: Seq<char>)
    ensures
        lex_spec(cs) matches Ok(vs) ==> vs.len() > 0 && vs.last().kind == TokKind::End
            && forall|j: int| 0 <= j < vs.len() - 1 ==> (#[trigger] vs[j]).kind != TokKind::End,
{
    lemma_lex_from_end(cs, 0, 1, 1, seq![]);
    if lex_spec(cs) is Ok {
        let vs = lex_spec(cs)->Ok_0;
        assert forall|j: int| 0 <= j < vs.len() - 1 implies (#[trigger] vs[j]).kind != TokKind::End by {
            assert(vs.drop_last()[j] == vs[j]);
        }
    }
}

/// Whether a token kind carries no payload besides its position.
pub open spec fn is_simple_kind(k: TokKind) -> bool {
    !(k is Int || k is Double || k is Str || k is Bool || k is Name || k is End)
}

/// A payload-free token of kind `k` at `(l, c)`.
pub fn simple_token(k: TokKind, l: usize, c: usize) -> (t: Token)
    requires
        is_simple_kind(k),
    ensures
        t.view() == simple_tok(k, l, c),
{
    match k {
        TokKind::Add => Token::Add(l, c),
        TokKind::Sub => Token::Sub(l, c),
        TokKind::Mul => Token::Mul(l, c),
        TokKind::Div => Token::Div(l, c),
        TokKind::Increment => Token::Increment(l, c),
        TokKind::Decrement => Token::Decrement(l, c),
        TokKind::Not => Token::Not(l, c),
        TokKind::LogOr => Token::LogOr(l, c),
        TokKind::LogAnd => Token::LogAnd(l, c),
        TokKind::BitOr => Token::BitOr(l, c),
        TokKind::BitXor => Token::BitXor(l, c),
        TokKind::BitAnd => Token::BitAnd(l, c),
        TokKind::LessThan => Token::LessThan(l, c),
        TokKind::GreaterThan => Token::GreaterThan(l, c),
        TokKind::LessOrEq => Token::LessOrEq(l, c),
        TokKind::GreaterOrEq => Token::GreaterOrEq(l, c),
        TokKind::Equal => Token::Equal(l, c),
        TokKind::Class => Token::Class(l, c),
        TokKind::If => Token::If(l, c),
        TokKind::Else => Token::Else(l, c),
        TokKind::While => Token::While(l, c),
        TokKind::Do => Token::Do(l, c),
        TokKind::For => Token::For(l, c),
        TokKind::In => Token::In(l, c),
        TokKind::This => Token::This(l, c),
        TokKind::Super => Token::Super(l, c),
        TokKind::Const => Token::Const(l, c),
        TokKind::Extends => Token::Extends(l, c),
        TokKind::Get => Token::Get(l, c),
        TokKind::Colon => Token::Colon(l, c),
        TokKind::Paren1 => Token::Paren1(l, c),
        TokKind::Paren2 => Token::Paren2(l, c),
        TokKind::Block1 => Token::Block1(l, c),
        TokKind::Block2 => Token::Block2(l, c),
        TokKind::Brack1 => Token::Brack1(l, c),
        TokKind::Brack2 => Token::Brack2(l, c),
        TokKind::Comma => Token::Comma(l, c),
        TokKind::Assign => Token::Assign(l, c),
        TokKind::Access => Token::Access(l, c),
        TokKind::Return => Token::Return(l, c),
        TokKind::Import => Token::Import(l, c),
        TokKind::EndSt => Token::EndSt(l, c),
        _ => Token::End,
    }
}

/// The values of the interpolations of a string token.
pub open spec fn subs_view(v: Seq<Vec<Token>>) -> Seq<Seq<TokenV>> {
    Seq::new(v.len(), |i: int| toks_view(v[i]@))
}


proof fn lemma_subs_push(v: Seq<Vec<Token>>, t: Vec<Token>)
    ensures
        subs_view(v.push(t)) == subs_view(v).push(toks_view(t@)),
{
    assert(subs_view(v.push(t)) =~= subs_view(v).push(toks_view(t@)));
}

proof fn lemma_str_view(s: String, subs: Vec<Vec<Token>>, l: usize, c: usize)
    ensures
        Token::Str(s, subs, l, c).view() == (TokenV {
            kind: TokKind::Str,
            text: s@,
            flag: false,
            subs: subs_view(subs@),
            line: l as nat,
            col: c as nat,
        }),
{
    let v = Token::Str(s, subs, l, c).view();
    assert forall|i: int| 0 <= i < subs.len() implies v.subs[i] =~= subs_view(subs@)[i] by {}
    assert(v.subs =~= subs_view(subs@));
}

/// Whether `c` can stand in a name after its first character.
pub fn is_legal_namechar(c: char) -> (r: bool)
    ensures
        r == legal_namechar(c),
{
    char_is_alphabetic(c) || char_is_digit(c) || (c == '_')
}

/// The characters `chars[a..b]` as a string.
fn string_of_range(chars: &Vec<char>, a: usize, b: usize) -> (r: String)
    requires
        a <= b <= chars.len(),
    ensures
        r@ == chars@.subrange(a as int, b as int),
{
    let mut r = String::new();
    let mut k = a;
    while k < b
        invariant
            a <= k <= b <= chars.len(),
            r@ == chars@.subrange(a as int, k as int),
        decreases b - k,
    {
        string_push(&mut r, chars[k]);
        assert(chars@.subrange(a as int, k + 1) =~= chars@.subrange(a as int, k as int).push(chars@[k as int]));
        k = k + 1;
    }
    r
}

proof fn lemma_word_len_bound(cs: Seq<char>, i: int)
    requires
        0 <= i <= cs.len(),
    ensures
        i + word_len(cs, i) <= cs.len(),
    decreases cs.len() - i,
{
    if i < cs.len() && legal_namechar(cs[i]) {
        lemma_word_len_bound(cs, i + 1);
    }
}

/// Reads the name or keyword that starts at `start`, adds its token at
/// `(linenum, symnum)` to `tokens`, and gives its length.
fn read_word(tokens: &mut Vec<Token>, chars: &Vec<char>, start: usize, linenum: usize, symnum: usize) -> (len: usize)
    requires
        start <= chars.len(),
    ensures
        len == word_len(chars@, start as int),
        start + len <= chars.len(),
        toks_view(final(tokens)@) == toks_view(old(tokens)@).push(
            word_token(chars@.subrange(start as int, start + len), linenum as int, symnum as int)),
{
    let mut len: usize = 0;
    let mut sym = String::new();
    proof { lemma_word_len_bound(chars@, start as int); }
    while start + len < chars.len() && is_legal_namechar(chars[start + len])
        invariant
            start + len <= chars.len(),
            word_len(chars@, start as int) == len + word_len(chars@, start + len),
            sym@ == chars@.subrange(start as int, start + len),
        decreases chars.len() - (start + len),
    {
        let nc: char = chars[start + len];
        string_push(&mut sym, nc);
        assert(chars@.subrange(start as int, start + len + 1) =~= chars@.subrange(start as int, start + len).push(nc));
        len += 1;
    }
    let ghost w = sym@;
    let t = if sym == String::from_str("import") {
        simple_token(TokKind::Import, linenum, symnum)
    } else if sym == String::from_str("true") {
        Token::Bool(true, linenum, symnum)
    } else if sym == String::from_str("false") {
        Token::Bool(false, linenum, symnum)
    } else if sym == String::from_str("if") {
        simple_token(TokKind::If, linenum, symnum)
    } else if sym == String::from_str("else") {
        simple_token(TokKind::Else, linenum, symnum)
    } else if sym == String::from_str("while") {
        simple_token(TokKind::While, linenum, symnum)
    } else if sym == String::from_str("do") {
        simple_token(TokKind::Do, linenum, symnum)
    } else if sym == String::from_str("return") {
        simple_token(TokKind::Return, linenum, symnum)
    } else if sym == String::from_str("class") {
        simple_token(TokKind::Class, linenum, symnum)
    } else {
        Token::Name(sym, linenum, symnum)
    };
    assert(t.view() == word_token(w, linenum as int, symnum as int));
    proof { lemma_toks_push(tokens@, t); }
    tokens.push(t);
    len
}

#[verifier::loop_isolation(false)]
/// Lexes `chars` from `startpos`, with `interpol` levels of string
/// interpolation open, at `(linenum, symnum)`, as `lex_from` says.
fn lex_real(chars: &Vec<char>, startpos: usize, interpol: usize, linenum: usize, symnum: usize) -> (r: Result<(Vec<Token>, usize), LexError>)
    requires
        startpos <= chars.len(),
        interpol < usize::MAX,
        linenum + (chars.len() - startpos) <= usize::MAX,
        symnum + (chars.len() - startpos) <= usize::MAX,
        interpol + (chars.len() - startpos) <= usize::MAX,
    ensures
        match (r, lex_from(chars@, startpos as int, interpol as nat, linenum as int, symnum as int, seq![])) {
            (Ok((toks, p)), Ok((vs, q))) => toks_view(toks@) == vs && p == q && startpos <= p <= chars.len(),
            (Err(e1), Err(e2)) => e1 == e2,
            _ => false,
        },
    decreases chars.len() - startpos, 1int,
{
    let ghost cs = chars@;
    let len = chars.len();
    let mut tokens: Vec<Token> = Vec::new();
    let mut i: usize = startpos;
    let mut line: usize = linenum;
    let mut sym: usize = symnum;
    assert(toks_view(tokens@) =~= seq![]);
    while i < len
        invariant
            cs == chars@,
            len == chars.len(),
            startpos <= i <= len,
            interpol < usize::MAX,
            interpol + (len - startpos) <= usize::MAX,
            line + (len - i) <= linenum + (len - startpos),
            linenum + (len - startpos) <= usize::MAX,
            sym + (len - i) <= symnum + (len - startpos),
            symnum + (len - startpos) <= usize::MAX,
            lex_from(cs, startpos as int, interpol as nat, linenum as int, symnum as int, seq![])
                == lex_from(cs, i as int, interpol as nat, line as int, sym as int, toks_view(tokens@)),
        decreases len - i,
    {
        let c = chars[i];
        let ghost acc = toks_view(tokens@);
        let l = line;
        let k = sym;
        if c == ' ' {
            i += 1;
            sym += 1;
        } else if c == '\n' {
            if interpol != 0 {
                return Err(LexError::NewlineInInterpolation);
            }
            line += 1;
            sym = 1;
            i += 1;
        } else if c == '"' || c == '\'' {
            match lex_string(chars, i + 1, interpol, line, sym + 1, c) {
                Err(e) => {
                    return Err(e);
                },
                Ok((j, col2, s, subs, closed)) => {
                    if !closed {
                        return Err(LexError::UnclosedQuote);
                    }
                    if j <= i || j > len {
                        return Err(LexError::UnclosedQuote);
                    }
                    let t = Token::Str(s, subs, line, sym);
                    proof {
                        lemma_str_view(s, subs, line, sym);
                        lemma_toks_push(tokens@, t);
                    }
                    tokens.push(t);
                    i = j;
                    sym = col2;
                },
            }
        } else if c == '/' {
            if i + 1 < len {
                if chars[i + 1] == '/' {
                    let mut j = i + 2;
                    let mut col = sym + 2;
                    let ghost line0 = line;
                    while j < len && chars[j] != '\n'
                        invariant
                            cs == chars@,
                            len == chars.len(),
                            i + 2 <= j <= len,
                            line == line0,
                            col + (len - j) <= symnum + (len - startpos),
                            comment_end(cs, i + 2, line as int, sym + 2) == comment_end(cs, j as int, line as int, col as int),
                        decreases len - j,
                    {
                        j += 1;
                        col += 1;
                    }
                    if j < len {
                        j += 1;
                        line += 1;
                        col = 1;
                    }
                    i = j;
                    sym = col;
                } else {
                    let t = simple_token(TokKind::Div, line, sym);
                    proof { lemma_toks_push(tokens@, t); }
                    tokens.push(t);
                    i += 1;
                    sym += 1;
                }
            } else {
                return Err(LexError::SlashAtEnd);
            }
        } else if c == '}' && interpol > 0 {
            return Ok((tokens, i + 1));
        } else if let Some(kind) = single_kind_of(c) {
            let t = simple_token(kind, line, sym);
            proof { lemma_toks_push(tokens@, t); }
            tokens.push(t);
            i += 1;
            sym += 1;
        } else if let Some((two, one)) = pair_kinds_of(c) {
            if i + 1 >= len {
                return Err(LexError::MissingSuccessor);
            }
            if chars[i + 1] == pair_second_of(c) {
                let t = simple_token(two, line, sym);
                proof { lemma_toks_push(tokens@, t); }
                tokens.push(t);
                i += 2;
                sym += 2;
            } else {
                let t = simple_token(one, line, sym);
                proof { lemma_toks_push(tokens@, t); }
                tokens.push(t);
                i += 1;
                sym += 1;
            }
        } else if char_is_digit(c) {
            let mut nl: usize = 1;
            let mut is_int: bool = true;
            let mut col = sym;
            while i + nl < len && continues_number(chars[i + nl])
                invariant
                    cs == chars@,
                    len == chars.len(),
                    startpos <= i < len,
                    1 <= nl,
                    i + nl <= len,
                    col == sym + nl - 1,
                    sym + (len - i) <= symnum + (len - startpos),
                    symnum + (len - startpos) <= usize::MAX,
                    number_scan(cs, i as int, 1, true, sym as int) == number_scan(cs, i as int, nl as int, is_int, col as int),
                decreases len - (i + nl),
            {
                let nc = chars[i + nl];
                if nc == '.' {
                    if chars[i + nl - 1] == '.' {
                        return Err(LexError::DoubleDot);
                    }
                    is_int = false;
                }
                nl += 1;
                col += 1;
            }
            let text = string_of_range(chars, i, i + nl);
            let t = if is_int { Token::Int(text, line, sym) } else { Token::Double(text, line, sym) };
            proof { lemma_toks_push(tokens@, t); }
            tokens.push(t);
            i += nl;
            sym = col + 1;
        } else if char_is_alphabetic(c) {
            let word_len = read_word(&mut tokens, chars, i, line, sym);
            if word_len > 0 {
                i += word_len;
                sym += word_len;
            } else {
                return Err(LexError::Unrecognized(c));
            }
        } else {
            return Err(LexError::Unrecognized(c));
        }
    }
    let ghost before = tokens@;
    let t = Token::End;
    proof { lemma_toks_push(tokens@, t); }
    tokens.push(t);
    Ok((tokens, i))
}

#[verifier::loop_isolation(false)]
/// Scans a string literal quoted by `q` from `start` at `(line, col0)`, as
/// `string_from` says.
fn lex_string(chars: &Vec<char>, start: usize, interpol: usize, line: usize, col0: usize, q: char) -> (r: Result<(usize, usize, String, Vec<Vec<Token>>, bool), LexError>)
    requires
        1 <= start <= chars.len(),
        interpol < usize::MAX,
        interpol + (chars.len() - start) < usize::MAX,
        line + (chars.len() - start) <= usize::MAX,
        col0 + (chars.len() - start) <= usize::MAX,
    ensures
        match (r, string_from(chars@, start as int, interpol as nat, line as int, col0 as int, q, seq![], seq![])) {
            (Ok((j, c, s, subs, closed)), Ok((j2, c2, s2, subs2, closed2))) =>
                j == j2 && c == c2 && s@ == s2 && subs_view(subs@) == subs2 && closed == closed2
                && start <= j <= chars.len() && c + (chars.len() - j) <= col0 + (chars.len() - start),
            (Err(e1), Err(e2)) => e1 == e2,
            _ => false,
        },
    decreases chars.len() - start, 0int,
{
    let ghost cs = chars@;
    let len = chars.len();
    let mut s = String::new();
    let mut subs: Vec<Vec<Token>> = Vec::new();
    let mut i = start;
    let mut col = col0;
    assert(subs_view(subs@) =~= seq![]);
    while i < len
        invariant
            cs == chars@,
            len == chars.len(),
            start <= i <= len,
            interpol < usize::MAX,
            interpol + (len - start) < usize::MAX,
            line + (len - start) <= usize::MAX,
            col + (len - i) <= col0 + (len - start),
            col0 + (len - start) <= usize::MAX,
            string_from(cs, start as int, interpol as nat, line as int, col0 as int, q, seq![], seq![])
                == string_from(cs, i as int, interpol as nat, line as int, col as int, q, s@, subs_view(subs@)),
        decreases len - i,
    {
        let nc = chars[i];
        if nc == q {
            return Ok((i + 1, col + 1, s, subs, true));
        }
        string_push(&mut s, nc);
        i += 1;
        col += 1;
        if nc == '$' {
            if i >= len {
                return Err(LexError::MissingSuccessor);
            }
            if chars[i] == '{' {
                match lex_real(chars, i + 1, interpol + 1, line, col) {
                    Err(e) => {
                        return Err(e);
                    },
                    Ok((sub, np)) => {
                        if np <= i || np > len {
                            return Err(LexError::UnclosedQuote);
                        }
                        proof { lemma_subs_push(subs@, sub); }
                        subs.push(sub);
                        col = col + (np - i);
                        i = np;
                    },
                }
            }
        }
    }
    Ok((i, col, s, subs, false))
}

fn single_kind_of(c: char) -> (r: Option<TokKind>)
    ensures
        r == single_kind(c),
        r matches Some(k) ==> is_simple_kind(k),
{
    if c == '(' { Some(TokKind::Paren1) }
    else if c == ')' { Some(TokKind::Paren2) }
    else if c == '{' { Some(TokKind::Block1) }
    else if c == '}' { Some(TokKind::Block2) }
    else if c == '[' { Some(TokKind::Brack1) }
    else if c == ']' { Some(TokKind::Brack2) }
    else if c == '.' { Some(TokKind::Access) }
    else if c == ',' { Some(TokKind::Comma) }
    else if c == ';' { Some(TokKind::EndSt) }
    else if c == '*' { Some(TokKind::Mul) }
    else if c == '^' { Some(TokKind::BitXor) }
    else if c == '!' { Some(TokKind::Not) }
    else { None }
}

fn pair_kinds_of(c: char) -> (r: Option<(TokKind, TokKind)>)
    ensures
        r == pair_kinds(c),
        r matches Some((a, b)) ==> is_simple_kind(a) && is_simple_kind(b),
{
    if c == '=' { Some((TokKind::Equal, TokKind::Assign)) }
    else if c == '+' { Some((TokKind::Increment, TokKind::Add)) }
    else if c == '-' { Some((TokKind::Decrement, TokKind::Sub)) }
    else if c == '<' { Some((TokKind::LessOrEq, TokKind::LessThan)) }
    else if c == '>' { Some((TokKind::GreaterOrEq, TokKind::GreaterThan)) }
    else if c == '|' { Some((TokKind::LogOr, TokKind::BitOr)) }
    else if c == '&' { Some((TokKind::LogAnd, TokKind::BitAnd)) }
    else { None }
}

fn pair_second_of(c: char) -> (r: char)
    ensures
        r == pair_second(c),
{
    if c == '+' { '+' }
    else if c == '-' { '-' }
    else if c == '|' { '|' }
    else if c == '&' { '&' }
    else { '=' }
}

/// Whether a number literal goes on over `c`: a digit or a dot.
fn continues_number(c: char) -> (r: bool)
    ensures
        r == (is_decimal_digit(c) || c == '.'),
{
    char_is_digit(c) || c == '.'
}

/// Lexes a whole input into a reader over its tokens, which end with the end
/// marker, as `lex_spec` says. An input that `lex_spec` refuses is left out:
/// lexing stops there with a fatal error, which `lex_error` names.
pub fn lex(input: &str) -> (r: Reader)
    requires
        input@.len() < usize::MAX,
        lex_spec(input@) is Ok,
    ensures
        r.toks() == lex_spec(input@)->Ok_0 && r.pos_spec() == 0,
{
    let chars = chars_of(input);
    match lex_real(&chars, 0, 0, 1, 1) {
        Ok((tokens, _pos)) => Reader::new(tokens),
        Err(_) => Reader::new(Vec::new()),
    }
}

/// The error that stops lexing `input`, if any, as `lex_spec` says.
pub fn lex_error(input: &str) -> (r: Option<LexError>)
    requires
        input@.len() < usize::MAX,
    ensures
        match lex_spec(input@) {
            Ok(_) => r is None,
            Err(e) => r == Some(e),
        },
{
    let chars = chars_of(input);
    match lex_real(&chars, 0, 0, 1, 1) {
        Ok(_) => None,
        Err(e) => Some(e),
    }
}

} // verus!
