use vstd::prelude::*;
use crate::token::{Token, TokenV, TokKind, token_text, toks_view};
use crate::node::{Node, NodeV};

verus! {

broadcast use vstd::std_specs::vec::group_vec_axioms;

/// How the interpreter reacts to a failure: `Reported` failures are
/// printed with their file, line and column before the program exits;
/// `Panicked` failures abort with their message.
#[derive(PartialEq, Eq, Structural, Clone, Copy, Debug)]
pub enum FailKind {
    Reported,
    Panicked,
}

/// A failure while reading tokens: how it is reported, its message, the
/// node it is about, if any (its printed form follows the message), and the
/// line and column of the token where it happened.
pub struct ParseError {
    pub kind: FailKind,
    pub msg: String,
    pub culprit: Option<Node>,
    pub line: usize,
    pub col: usize,
}

/// The value of a parse failure.
pub struct PErr {
    pub kind: FailKind,
    pub msg: Seq<char>,
    pub culprit: Option<NodeV>,
    pub line: nat,
    pub col: nat,
}

impl ParseError {
    pub open spec fn view(self) -> PErr {
        PErr {
            kind: self.kind,
            msg: self.msg@,
            culprit: match self.culprit {
                Some(n) => Some(n.view()),
                None => None,
            },
            line: self.line as nat,
            col: self.col as nat,
        }
    }
}

/// A failure of kind `kind` with message `msg`, at token `t`.
pub open spec fn fail_at(kind: FailKind, msg: Seq<char>, t: TokenV) -> PErr {
    PErr { kind, msg, culprit: None, line: t.line, col: t.col }
}

/// Whether a token follows position `p`.
pub open spec fn more_at(ts: Seq<TokenV>, p: int) -> bool {
    ts.len() > p + 1
}

/// Running past the last token.
pub open spec fn end_fail(ts: Seq<TokenV>, p: int) -> PErr {
    fail_at(FailKind::Panicked, "Unexpected end of input."@, ts[p])
}

/// Moving from position `p` to the next token.
pub open spec fn step(ts: Seq<TokenV>, p: int) -> Result<int, PErr> {
    if more_at(ts, p) {
        Ok(p + 1)
    } else {
        Err(end_fail(ts, p))
    }
}

/// What "Expected: '<sym>'. Got: '<token>'." reports at token `t`.
pub open spec fn expected_fail(sym: Seq<char>, t: TokenV) -> PErr {
    fail_at(FailKind::Reported, "Expected: '"@ + sym + "'. Got: '"@ + token_text(t) + "'."@, t)
}

/// How a token stands in the source: as `token_text` writes it, except the
/// end of a statement, which `token_text` writes as `ENDST` and the source as
/// `;`.
pub open spec fn token_symbol(t: TokenV) -> Seq<char> {
    if t.kind == TokKind::EndSt { ";"@ } else { token_text(t) }
}

/// Moving past the token at `p`, which must be written as `sym`.
pub open spec fn skip_spec(ts: Seq<TokenV>, p: int, sym: Seq<char>) -> Result<int, PErr> {
    if token_symbol(ts[p]) != sym {
        Err(expected_fail(sym, ts[p]))
    } else {
        step(ts, p)
    }
}

/// Builds a failure of kind `kind` with message `msg` at token `t`.
pub fn fail(kind: FailKind, msg: String, t: &Token) -> (e: ParseError)
    ensures
        e@ == fail_at(kind, msg@, t.view()),
{
    let (line, col) = t.find_token_position();
    ParseError { kind, msg, culprit: None, line, col }
}

/// Builds a failure of kind `kind` with message `msg` at line `line`,
/// column `col`.
pub fn fail_pos(kind: FailKind, msg: String, line: usize, col: usize) -> (e: ParseError)
    ensures
        e@ == (PErr { kind, msg: msg@, culprit: None, line: line as nat, col: col as nat }),
{
    ParseError { kind, msg, culprit: None, line, col }
}

/// Builds a failure whose message is `prefix` followed by the text of `t`,
/// at token `at`.
pub fn fail_with_token(kind: FailKind, prefix: &str, t: &Token, at: &Token) -> (e: ParseError)
    ensures
        e@ == fail_at(kind, prefix@ + token_text(t.view()), at.view()),
{
    let mut msg = String::from_str(prefix);
    let text = t.to_text();
    msg.append(text.as_str());
    fail(kind, msg, at)
}

/// A cursor over a sequence of tokens.
pub struct Reader {
    pos: usize,
    tokens: Vec<Token>,
}

impl Reader {
    /// The tokens the reader walks over.
    pub closed spec fn tokens_seq(&self) -> Seq<Token> {
        self.tokens@
    }

    /// The index of the current token.
    pub closed spec fn pos_spec(&self) -> nat {
        self.pos as nat
    }

    /// The values of the tokens.
    pub closed spec fn toks(&self) -> Seq<TokenV> {
        toks_view(self.tokens_seq())
    }

    /// The value of the current token.
    pub open spec fn current(&self) -> TokenV {
        self.toks()[self.pos_spec() as int]
    }

    pub fn new(tokens: Vec<Token>) -> (r: Reader)
        ensures
            r.toks() == toks_view(tokens@),
            r.pos_spec() == 0,
    {
        Reader { pos: 0, tokens }
    }

    /// Succeeds when the current token stands for `sym` in the source; otherwise reports
    /// "Expected: '<sym>'. Got: '<token>'." at the current token.
    pub fn expect(&self, sym: &str) -> (r: Result<(), ParseError>)
        requires
            self.pos_spec() < self.toks().len(),
        ensures
            r is Ok <==> token_symbol(self.current()) == sym@,
            r matches Err(e) ==> e@ == expected_fail(sym@, self.current()),
    {
        let t = &self.tokens[self.pos];
        let text = t.to_text();
        let want = String::from_str(sym);
        let written = if t.kind() == TokKind::EndSt { String::from_str(";") } else { t.to_text() };
        if written != want {
            let mut msg = String::from_str("Expected: '");
            msg.append(sym);
            msg.append("'. Got: '");
            msg.append(text.as_str());
            msg.append("'.");
            return Err(fail(FailKind::Reported, msg, t));
        }
        Ok(())
    }

    /// Like `expect`, and moves past the token when it matches.
    pub fn skip(&mut self, sym: &str) -> (r: Result<(), ParseError>)
        requires
            old(self).pos_spec() < old(self).toks().len(),
        ensures
            final(self).toks() == old(self).toks(),
            final(self).pos_spec() < final(self).toks().len(),
            match skip_spec(old(self).toks(), old(self).pos_spec() as int, sym@) {
                Ok(q) => r is Ok && final(self).pos_spec() == q,
                Err(e) => r matches Err(x) && x@ == e && final(self).pos_spec() == old(self).pos_spec(),
            },
    {
        match self.expect(sym) {
            Ok(()) => self.advance(),
            Err(e) => Err(e),
        }
    }

    /// Moves to the next token; fails when the current one is the last.
    pub fn advance(&mut self) -> (r: Result<(), ParseError>)
        requires
            old(self).pos_spec() < old(self).toks().len(),
        ensures
            final(self).toks() == old(self).toks(),
            final(self).pos_spec() < final(self).toks().len(),
            match step(old(self).toks(), old(self).pos_spec() as int) {
                Ok(q) => r is Ok && final(self).pos_spec() == q,
                Err(e) => r matches Err(x) && x@ == e && final(self).pos_spec() == old(self).pos_spec(),
            },
    {
        let n = self.tokens.len();
        if self.more() {
            assert(self.pos + 1 < n);
            self.pos = self.pos + 1;
            Ok(())
        } else {
            let e = fail(FailKind::Panicked, String::from_str("Unexpected end of input."), &self.tokens[self.pos]);
            Err(e)
        }
    }

    /// The kind of the current token.
    pub fn kind(&self) -> (k: TokKind)
        requires
            self.pos_spec() < self.toks().len(),
        ensures
            k == self.current().kind,
    {
        self.tokens[self.pos].kind()
    }

    /// A copy of the current token.
    pub fn tok(&self) -> (t: Token)
        requires
            self.pos_spec() < self.toks().len(),
        ensures
            t.view() == self.current(),
    {
        self.tokens[self.pos].duplicate()
    }

    /// Moves to the next token and gives a copy of it.
    pub fn next(&mut self) -> (t: Token)
        requires
            old(self).pos_spec() + 1 < old(self).toks().len(),
        ensures
            final(self).toks() == old(self).toks(),
            final(self).pos_spec() == old(self).pos_spec() + 1,
            t.view() == final(self).current(),
    {
        let n = self.tokens.len();
        assert(self.pos + 1 < n);
        self.pos = self.pos + 1;
        self.tokens[self.pos].duplicate()
    }

    /// A copy of the token after the current one.
    pub fn peek(&self) -> (t: Token)
        requires
            self.pos_spec() + 1 < self.toks().len(),
        ensures
            t.view() == self.toks()[self.pos_spec() + 1int],
    {
        let n = self.tokens.len();
        assert(self.pos + 1 < n);
        self.tokens[self.pos + 1].duplicate()
    }

    pub fn tokens(&self) -> (r: &Vec<Token>)
        ensures
            toks_view(r@) == self.toks(),
    {
        &self.tokens
    }

    pub fn pos(&self) -> (r: usize)
        ensures
            r == self.pos_spec(),
    {
        self.pos
    }

    /// The line of the current token.
    pub fn linenum(&self) -> (r: usize)
        requires
            self.pos_spec() < self.toks().len(),
        ensures
            r as nat == self.current().line,
    {
        self.tokens[self.pos].find_token_position().0
    }

    /// The column of the current token.
    pub fn symnum(&self) -> (r: usize)
        requires
            self.pos_spec() < self.toks().len(),
        ensures
            r as nat == self.current().col,
    {
        self.tokens[self.pos].find_token_position().1
    }

    pub fn len(&self) -> (r: usize)
        ensures
            r == self.toks().len(),
    {
        self.tokens.len()
    }

    /// Whether a token follows the current one.
    pub fn more(&self) -> (r: bool)
        ensures
            r == (self.toks().len() > self.pos_spec() + 1),
    {
        self.pos < self.tokens.len() && self.tokens.len() - self.pos > 1
    }
}

} // verus!
