//! A cursor over the tokens of a file that skips whitespace and records
//! what it expected but did not find.
use vstd::prelude::*;

use crate::diagnostic::{Diagnostic, DiagnosticView, LabelView, Severity, Span};
use crate::lex::token::token_text;
use crate::lex::tokens::diags_view;
use crate::lex::{Token, TokenView, Tokens};

verus! {

/// A parser's state as plain values.
pub struct ParserView {
    pub tokens: Seq<(TokenView, Span)>,
    pub eof: Span,
    pub index: int,
    pub diagnostics: Seq<DiagnosticView>,
}

/// The token at `i`, or the end of file past the last token.
pub open spec fn token_at(ts: Seq<(TokenView, Span)>, i: int) -> TokenView {
    if 0 <= i < ts.len() {
        ts[i].0
    } else {
        TokenView::Other(Token::Eof)
    }
}

/// The span of the token at `i`, or `eof` past the last token.
pub open spec fn span_at(ts: Seq<(TokenView, Span)>, eof: Span, i: int) -> Span {
    if 0 <= i < ts.len() {
        ts[i].1
    } else {
        eof
    }
}

/// The first index at or after `i` that does not hold whitespace.
pub open spec fn skip_ws(ts: Seq<(TokenView, Span)>, i: int) -> int
    decreases ts.len() - i,
{
    if 0 <= i < ts.len() && ts[i].0 == TokenView::Other(Token::Whitespace) {
        skip_ws(ts, i + 1)
    } else {
        i
    }
}

/// The index of the `n`-th token at or after `i` that is not whitespace.
pub open spec fn nth_index(ts: Seq<(TokenView, Span)>, i: int, n: nat) -> int
    decreases n,
{
    if n == 0 {
        skip_ws(ts, i)
    } else {
        nth_index(ts, skip_ws(ts, i) + 1, (n - 1) as nat)
    }
}

/// The `n`-th token ahead of the parser, whitespace skipped, with its span.
pub open spec fn nth(p: ParserView, n: nat) -> (TokenView, Span) {
    let i = nth_index(p.tokens, p.index, n);
    (token_at(p.tokens, i), span_at(p.tokens, p.eof, i))
}

/// The index after consuming the next token from `i`: past the whitespace
/// before it and past the token itself, unless that is the end of file.
pub open spec fn consumed(ts: Seq<(TokenView, Span)>, i: int) -> int {
    let j = skip_ws(ts, i);
    if token_at(ts, j) == TokenView::Other(Token::Eof) {
        j
    } else {
        j + 1
    }
}

/// The index after consuming every next token equal to `t` from `i`.
pub open spec fn skip_all(ts: Seq<(TokenView, Span)>, i: int, t: TokenView) -> int
    decreases ts.len() - i,
{
    let j = skip_ws(ts, i);
    if 0 <= i && j < ts.len() && token_at(ts, j) == t {
        proof {
            lemma_skip_ws_ge(ts, i);
        }
        skip_all(ts, j + 1, t)
    } else {
        i
    }
}

/// The parser moved to `index`, all else unchanged.
pub open spec fn moved(p: ParserView, index: int) -> ParserView {
    ParserView { index, ..p }
}

/// The parser moved past the next token.
pub open spec fn advanced(p: ParserView) -> ParserView {
    moved(p, consumed(p.tokens, p.index))
}

/// The diagnostic for finding `actual` where `expected` was expected.
pub open spec fn expected_diagnostic(expected: Seq<char>, actual: TokenView, span: Span) -> DiagnosticView {
    DiagnosticView {
        severity: Severity::Error,
        message: "expected `"@ + expected + "` but found `"@ + token_text(actual) + "`"@,
        labels: seq![LabelView { message: "here"@, span }],
    }
}

/// `q` is `p` read further: over the same tokens, with every diagnostic of
/// `p` kept first, in order, and perhaps more after them.
pub open spec fn keeps(p: ParserView, q: ParserView) -> bool {
    &&& q.tokens == p.tokens
    &&& q.eof == p.eof
    &&& p.diagnostics.len() <= q.diagnostics.len()
    &&& forall|i: int| 0 <= i < p.diagnostics.len() ==> #[trigger] q.diagnostics[i] == p.diagnostics[i]
}

/// A parser whose position lies within its tokens (or at their end).
pub open spec fn wf(p: ParserView) -> bool {
    0 <= p.index <= p.tokens.len()
}

/// The tokens left ahead of a parser.
pub open spec fn left(p: ParserView) -> nat {
    if 0 <= p.index <= p.tokens.len() {
        (p.tokens.len() - p.index) as nat
    } else {
        0
    }
}

/// The parser after reporting that the next token is not `what` and moving
/// past it.
pub open spec fn expected_at(p: ParserView, what: Seq<char>) -> ParserView {
    ParserView {
        diagnostics: p.diagnostics.push(expected_diagnostic(what, nth(p, 0).0, nth(p, 0).1)),
        ..advanced(p)
    }
}

/// The parser after moving past the next token, which is reported unless
/// it is `t`.
pub open spec fn expect_at(p: ParserView, t: TokenView) -> ParserView {
    if nth(p, 0).0 == t {
        advanced(p)
    } else {
        expected_at(p, token_text(t))
    }
}

/// The name of the next token if it is an identifier, and the parser after
/// moving past it (and reporting it if it is not one).
pub open spec fn ident_at(p: ParserView) -> (Option<Seq<char>>, ParserView) {
    match nth(p, 0).0 {
        TokenView::Ident(name) => (Some(name), advanced(p)),
        _ => (None, expected_at(p, "identifier"@)),
    }
}

/// The text of the next token if it is a string, and the parser after
/// moving past it (and reporting it if it is not one).
pub open spec fn string_at(p: ParserView) -> (Option<Seq<char>>, ParserView) {
    match nth(p, 0).0 {
        TokenView::String(text) => (Some(text), advanced(p)),
        _ => (None, expected_at(p, "string"@)),
    }
}

/// Moving past a token never moves back nor past the end, and moves
/// forward unless the token is the end of file.
pub proof fn lemma_advance(p: ParserView)
    requires
        wf(p),
    ensures
        wf(advanced(p)),
        left(advanced(p)) <= left(p),
        nth(p, 0).0 != TokenView::Other(Token::Eof) ==> left(advanced(p)) < left(p),
        p.index <= advanced(p).index,
{
    lemma_skip_ws_ge(p.tokens, p.index);
}

/// At the end of file, moving on stays at the end of file.
pub proof fn lemma_advance_at_eof(p: ParserView)
    requires
        wf(p),
        nth(p, 0).0 == TokenView::Other(Token::Eof),
    ensures
        nth(advanced(p), 0).0 == TokenView::Other(Token::Eof),
{
    lemma_skip_ws_ge(p.tokens, p.index);
}

/// A parser over the tokens of one file.
pub struct Parser<'a> {
    tokens: &'a Tokens,
    index: usize,
    diagnostics: Vec<Diagnostic>,
}

impl<'a> View for Parser<'a> {
    type V = ParserView;

    closed spec fn view(&self) -> ParserView {
        ParserView {
            tokens: self.tokens.spec_tokens(),
            eof: self.tokens.spec_eof_span(),
            index: self.index as int,
            diagnostics: diags_view(self.diagnostics@),
        }
    }
}

pub proof fn lemma_skip_ws_ge(ts: Seq<(TokenView, Span)>, i: int)
    ensures
        i <= skip_ws(ts, i),
        0 <= i <= ts.len() ==> skip_ws(ts, i) <= ts.len(),
    decreases ts.len() - i,
{
    if 0 <= i < ts.len() && ts[i].0 == TokenView::Other(Token::Whitespace) {
        lemma_skip_ws_ge(ts, i + 1);
    }
}

proof fn lemma_nth_past_end(ts: Seq<(TokenView, Span)>, i: int, n: nat)
    requires
        i >= ts.len(),
    ensures
        nth_index(ts, i, n) >= ts.len(),
    decreases n,
{
    if n > 0 {
        lemma_nth_past_end(ts, i + 1, (n - 1) as nat);
    }
}

impl<'a> Parser<'a> {
    /// A parser at the first token of `tokens`, with nothing reported yet.
    pub fn new(tokens: &'a Tokens) -> (r: Self)
        ensures
            r@.tokens == tokens.spec_tokens(),
            r@.eof == tokens.spec_eof_span(),
            r@.index == 0,
            r@.diagnostics == Seq::<DiagnosticView>::empty(),
    {
        let r = Parser { tokens, index: 0, diagnostics: Vec::new() };
        assert(r@.diagnostics =~= Seq::<DiagnosticView>::empty());
        r
    }

    /// The diagnostics reported while parsing, in order.
    pub fn diagnostics(self) -> (r: Vec<Diagnostic>)
        ensures
            diags_view(r@) == self@.diagnostics,
    {
        self.diagnostics
    }

    fn get_nth(&self, count: usize) -> (r: (Token, Span))
        ensures
            (r.0@, r.1) == nth(self@, count as nat),
    {
        let ghost ts = self@.tokens;
        let mut n = count;
        let mut index = self.index;
        let ghost target = nth_index(ts, self@.index, count as nat);
        loop
            invariant
                ts == self@.tokens,
                ts == self.tokens.spec_tokens(),
                target == nth_index(ts, self@.index, count as nat),
                nth_index(ts, index as int, n as nat) == target,
            decreases ts.len() - index,
        {
            if index >= self.tokens.len() {
                proof {
                    lemma_nth_past_end(ts, index as int, n as nat);
                }
                return self.tokens.get(index);
            }
            let (token, span) = self.tokens.get(index);
            index = index + 1;
            if token == Token::Whitespace {
                assert(skip_ws(ts, index - 1) == skip_ws(ts, index as int));
            } else if n == 0 {
                assert(skip_ws(ts, index - 1) == index - 1);
                return (token, span);
            } else {
                assert(skip_ws(ts, index - 1) == index - 1);
                n = n - 1;
            }
        }
    }

    /// The `n`-th token ahead, whitespace skipped.
    pub fn peek_nth(&self, n: usize) -> (r: Token)
        ensures
            r@ == nth(self@, n as nat).0,
    {
        let (token, _span) = self.get_nth(n);
        token
    }

    /// The next token, whitespace skipped.
    pub fn peek(&self) -> (r: Token)
        ensures
            r@ == nth(self@, 0).0,
    {
        self.peek_nth(0)
    }

    /// Whether the next token is `token`.
    pub fn is(&self, token: Token) -> (r: bool)
        ensures
            r == (nth(self@, 0).0 == token@),
    {
        self.peek() == token
    }

    /// How many tokens the parser reads, whitespace included.
    pub fn token_count(&self) -> (r: usize)
        ensures
            r == self@.tokens.len(),
    {
        self.tokens.len()
    }

    /// Whether the `n`-th token ahead is `token`.
    pub fn is_nth(&self, n: usize, token: Token) -> (r: bool)
        ensures
            r == (nth(self@, n as nat).0 == token@),
    {
        self.peek_nth(n) == token
    }

    /// The span of the `n`-th token ahead.
    pub fn span_nth(&self, n: usize) -> (r: Span)
        ensures
            r == nth(self@, n as nat).1,
    {
        let (_token, span) = self.get_nth(n);
        span
    }

    /// The span of the next token.
    pub fn span(&self) -> (r: Span)
        ensures
            r == nth(self@, 0).1,
    {
        self.span_nth(0)
    }

    /// Moves past the next token, unless it is the end of file, and gives
    /// its span.
    pub fn consume(&mut self) -> (r: Span)
        ensures
            keeps(old(self)@, final(self)@),
            r == nth(old(self)@, 0).1,
            final(self)@ == advanced(old(self)@),
    {
        let ghost p = self@;
        let span = self.span();
        while self.index < self.tokens.len() && self.tokens.get(self.index).0 == Token::Whitespace
            invariant
                self@ == moved(p, self@.index),
                p.tokens == self.tokens.spec_tokens(),
                skip_ws(p.tokens, self.index as int) == skip_ws(p.tokens, p.index),
            decreases p.tokens.len() - self.index,
        {
            self.index = self.index + 1;
        }
        if !(self.tokens.get(self.index).0 == Token::Eof) {
            self.index = self.index + 1;
        }
        span
    }

    /// Moves past every next token equal to `token`.
    pub fn take_all(&mut self, token: Token)
        requires
            token@ != TokenView::Other(Token::Eof),
        ensures
            keeps(old(self)@, final(self)@),
            final(self)@ == moved(old(self)@, skip_all(old(self)@.tokens, old(self)@.index, token@)),
    {
        let ghost p = self@;
        while self.is(token)
            invariant
                self@ == moved(p, self@.index),
                token@ != TokenView::Other(Token::Eof),
                skip_all(p.tokens, self@.index, token@) == skip_all(p.tokens, p.index, token@),
            decreases p.tokens.len() - self@.index,
        {
            proof {
                lemma_skip_ws_ge(p.tokens, self@.index);
            }
            self.consume();
        }
    }

    /// Moves past the next token if it is `expected`, and says whether it
    /// was.
    pub fn take(&mut self, expected: Token) -> (r: bool)
        ensures
            keeps(old(self)@, final(self)@),
            r == (nth(old(self)@, 0).0 == expected@),
            final(self)@ == if r {
                advanced(old(self)@)
            } else {
                old(self)@
            },
    {
        if self.is(expected) {
            self.consume();
            true
        } else {
            false
        }
    }

    /// Moves past the next token, reporting it unless it is `expected`, and
    /// gives its span.
    pub fn expect(&mut self, expected: Token) -> (r: Span)
        ensures
            keeps(old(self)@, final(self)@),
            r == nth(old(self)@, 0).1,
            final(self)@ == expect_at(old(self)@, expected@),
    {
        if self.is(expected) {
            self.consume()
        } else {
            let text = expected.to_string();
            self.expected(text.as_str())
        }
    }

    /// Moves past the next token and gives its name if it is an
    /// identifier; reports it otherwise.
    pub fn expect_ident(&mut self) -> (r: Option<&'static str>)
        ensures
            keeps(old(self)@, final(self)@),
            (match r {
                Some(name) => Some(name@),
                None => None,
            }, final(self)@) == ident_at(old(self)@),
    {
        match self.peek() {
            Token::Ident(ident) => {
                self.consume();
                Some(ident)
            },
            _ => {
                self.expected("identifier");
                None
            },
        }
    }

    /// Moves past the next token and gives its text if it is a string;
    /// reports it otherwise.
    pub fn expect_string(&mut self) -> (r: Option<&'static str>)
        ensures
            keeps(old(self)@, final(self)@),
            (match r {
                Some(text) => Some(text@),
                None => None,
            }, final(self)@) == string_at(old(self)@),
    {
        match self.peek() {
            Token::String(text) => {
                self.consume();
                Some(text)
            },
            _ => {
                self.expected("string");
                None
            },
        }
    }

    /// Reports that the next token is not `expected`, moves past it, and
    /// gives its span.
    pub fn expected(&mut self, expected: &str) -> (r: Span)
        ensures
            keeps(old(self)@, final(self)@),
            r == nth(old(self)@, 0).1,
            final(self)@ == expected_at(old(self)@, expected@),
    {
        let actual = self.peek();
        let span = self.consume();
        let found = actual.to_string();
        let message = String::from_str("expected `").concat(expected).concat("` but found `").concat(
            found.as_str(),
        ).concat("`");
        let diagnostic = Diagnostic::error(message.as_str()).with_label(span, "here");
        let ghost before = self.diagnostics@;
        self.diagnostics.push(diagnostic);
        assert(diags_view(self.diagnostics@) =~= diags_view(before).push(diagnostic@));
        span
    }
}

} // verus!
