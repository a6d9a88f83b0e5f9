//! What holds of every token stream the lexer produces.
use vstd::prelude::*;

use crate::diagnostic::{FileId, Span};
use crate::lex::tokens::unescape;
use crate::text::replace_all;
use crate::lex::token::{Token, TokenView};
use crate::lex::tokens::{
    initial_state, lemma_lex_indents_pos, lemma_lex_newlines_pos, lemma_match_indents, lemma_scan,
    lex, lex_indents, lex_loop, lex_newlines, match_indents, repeat_token, scan, span_at,
    IndentMatch, LexState, error_at, unexpected_message,
};

verus! {

/// How a token changes the block depth: `Indent` opens a block, `Dedent`
/// closes one.
pub open spec fn depth_step(t: TokenView) -> int {
    if t == TokenView::Other(Token::Indent) {
        1
    } else if t == TokenView::Other(Token::Dedent) {
        -1
    } else {
        0
    }
}

/// The number of blocks open after `tokens`.
pub open spec fn depth(tokens: Seq<(TokenView, Span)>) -> int
    decreases tokens.len(),
{
    if tokens.len() == 0 {
        0
    } else {
        depth(tokens.drop_last()) + depth_step(tokens.last().0)
    }
}

/// No prefix of `tokens` closes more blocks than it opens.
pub open spec fn never_below_zero(tokens: Seq<(TokenView, Span)>) -> bool {
    forall|i: int| 0 <= i <= tokens.len() ==> depth(#[trigger] tokens.take(i)) >= 0
}

/// The lexer's block bookkeeping matches the tokens it has produced.
pub open spec fn layout_ok(s: LexState) -> bool {
    &&& depth(s.tokens) == s.indents.len()
    &&& never_below_zero(s.tokens)
}

proof fn lemma_push(tokens: Seq<(TokenView, Span)>, x: (TokenView, Span))
    requires
        never_below_zero(tokens),
        depth(tokens) + depth_step(x.0) >= 0,
    ensures
        depth(tokens.push(x)) == depth(tokens) + depth_step(x.0),
        never_below_zero(tokens.push(x)),
{
    assert(tokens.push(x).drop_last() =~= tokens);
    assert forall|i: int| 0 <= i <= tokens.push(x).len() implies depth(
        #[trigger] tokens.push(x).take(i),
    ) >= 0 by {
        if i <= tokens.len() {
            assert(tokens.push(x).take(i) =~= tokens.take(i));
        } else {
            assert(tokens.push(x).take(i) =~= tokens.push(x));
        }
    }
}

proof fn lemma_dedents(tokens: Seq<(TokenView, Span)>, span: Span, n: nat)
    requires
        never_below_zero(tokens),
        depth(tokens) >= n,
    ensures
        depth(tokens + repeat_token(TokenView::Other(Token::Dedent), span, n)) == depth(tokens)
            - n,
        never_below_zero(tokens + repeat_token(TokenView::Other(Token::Dedent), span, n)),
    decreases n,
{
    if n == 0 {
        assert(tokens + repeat_token(TokenView::Other(Token::Dedent), span, n) =~= tokens);
    } else {
        lemma_dedents(tokens, span, (n - 1) as nat);
        let prev = tokens + repeat_token(TokenView::Other(Token::Dedent), span, (n - 1) as nat);
        assert(tokens + repeat_token(TokenView::Other(Token::Dedent), span, n) =~= prev.push(
            (TokenView::Other(Token::Dedent), span),
        ));
        lemma_push(prev, (TokenView::Other(Token::Dedent), span));
    }
}

proof fn lemma_plain_step(s: LexState, x: (TokenView, Span), s1: LexState)
    requires
        layout_ok(s),
        depth_step(x.0) == 0,
        s1.tokens == s.tokens.push(x),
        s1.indents == s.indents,
    ensures
        layout_ok(s1),
{
    lemma_push(s.tokens, x);
}

proof fn lemma_indents_layout(input: Seq<char>, file: FileId, s: LexState)
    requires
        layout_ok(s),
    ensures
        layout_ok(lex_indents(input, file, s)),
{
    let r = lex_indents(input, file, s);
    lemma_match_indents(s.indents, 0, input.subrange(s.pos as int, r.pos as int));
    let e = r.pos;
    if e < input.len() && input[e as int] == '\n' {
    } else {
        match match_indents(s.indents, 0, input.subrange(s.pos as int, e as int)) {
            IndentMatch::Dedent(n) => {
                lemma_dedents(s.tokens, span_at(input, file, s.pos, e), n);
            },
            IndentMatch::Rest(rest) => {
                lemma_push(s.tokens, (TokenView::Other(Token::Indent), span_at(input, file, s.pos, e)));
            },
            IndentMatch::Invalid => {},
        }
    }
}

proof fn lemma_newlines_layout(input: Seq<char>, file: FileId, s: LexState)
    requires
        layout_ok(s),
    ensures
        layout_ok(lex_newlines(input, file, s)),
    decreases input.len() - s.pos,
{
    if s.pos < input.len() && input[s.pos as int] == '\n' {
        let x = (TokenView::Other(Token::Newline), span_at(input, file, s.pos, s.pos + 1));
        let s1 = LexState { pos: s.pos + 1, tokens: s.tokens.push(x), ..s };
        lemma_push(s.tokens, x);
        lemma_indents_layout(input, file, s1);
        lemma_lex_indents_pos(input, file, s1);
        lemma_newlines_layout(input, file, lex_indents(input, file, s1));
    }
}

proof fn lemma_loop_layout(input: Seq<char>, file: FileId, s: LexState)
    requires
        layout_ok(s),
    ensures
        depth(lex_loop(input, file, s).tokens) == 0,
        never_below_zero(lex_loop(input, file, s).tokens),
    decreases input.len() - s.pos,
{
    if s.pos >= input.len() {
        lemma_dedents(s.tokens, span_at(input, file, input.len(), input.len()), s.indents.len());
    } else {
        lemma_scan(input, s.pos);
        let c = input[s.pos as int];
        match scan(input, s.pos) {
            Some((t, e)) => {
                let x = (t, span_at(input, file, s.pos, e));
                let s1 = LexState { pos: e, tokens: s.tokens.push(x), ..s };
                assert(t != TokenView::Other(Token::Indent) && t != TokenView::Other(Token::Dedent));
                lemma_push(s.tokens, x);
                lemma_newlines_layout(input, file, s1);
                lemma_lex_newlines_pos(input, file, s1);
                lemma_loop_layout(input, file, lex_newlines(input, file, s1));
            },
            None => {
                let span = span_at(input, file, s.pos, s.pos + 1);
                let x = (TokenView::Other(Token::Invalid(c)), span);
                let s1 = LexState {
                    pos: s.pos + 1,
                    indents: s.indents,
                    tokens: s.tokens.push(x),
                    diags: s.diags.push(error_at(unexpected_message(c), span)),
                };
                lemma_plain_step(s, x, s1);
                lemma_loop_layout(input, file, s1);
            },
        }
    }
}

/// Every `Dedent` closes a block that an `Indent` opened: no prefix of the
/// token stream has more `Dedent`s than `Indent`s, and the whole stream has
/// as many of each.
pub proof fn law_layout_balanced(input: Seq<char>, file: FileId)
    ensures
        depth(lex(input, file).tokens) == 0,
        never_below_zero(lex(input, file).tokens),
{
    let s0 = initial_state();
    assert(never_below_zero(s0.tokens)) by {
        assert forall|i: int| 0 <= i <= s0.tokens.len() implies depth(
            #[trigger] s0.tokens.take(i),
        ) >= 0 by {
            assert(s0.tokens.take(i) =~= Seq::<(TokenView, Span)>::empty());
        }
    }
    lemma_newlines_layout(input, file, s0);
    lemma_loop_layout(input, file, lex_newlines(input, file, s0));
}

/// Text without a backslash.
pub open spec fn plain(s: Seq<char>) -> bool {
    !s.contains('\\')
}

/// The character an escape letter names: `n` a line feed, `r` a carriage
/// return, `t` a tab, `0` the NUL character.
pub open spec fn escape_meaning(e: char) -> char {
    if e == 'n' {
        '\u{A}'
    } else if e == 'r' {
        '\u{D}'
    } else if e == 't' {
        '\u{9}'
    } else {
        '\u{0}'
    }
}

proof fn lemma_replace_absent(s: Seq<char>, pat: Seq<char>, rep: Seq<char>)
    requires
        pat.len() > 0,
        !s.contains(pat[0]),
    ensures
        replace_all(s, pat, rep) == s,
    decreases s.len(),
{
    if s.len() > 0 {
        assert(s[0] != pat[0]);
        if pat.len() <= s.len() {
            assert(s.take(pat.len() as int)[0] == s[0]);
        }
        assert forall|i: int| 0 <= i < s.drop_first().len() implies s.drop_first()[i] != pat[0] by {
            assert(s.drop_first()[i] == s[i + 1]);
        }
        lemma_replace_absent(s.drop_first(), pat, rep);
        assert(seq![s[0]] + s.drop_first() =~= s);
    }
}

proof fn lemma_replace_prefix(a: Seq<char>, t: Seq<char>, pat: Seq<char>, rep: Seq<char>)
    requires
        pat.len() > 0,
        !a.contains(pat[0]),
    ensures
        replace_all(a + t, pat, rep) == a + replace_all(t, pat, rep),
    decreases a.len(),
{
    if a.len() == 0 {
        assert(a + t =~= t);
        assert(a + replace_all(t, pat, rep) =~= replace_all(t, pat, rep));
    } else {
        let s = a + t;
        assert(s[0] == a[0]);
        assert(a[0] != pat[0]);
        if pat.len() <= s.len() {
            assert(s.take(pat.len() as int)[0] == s[0]);
        }
        assert(s.drop_first() =~= a.drop_first() + t);
        assert forall|i: int| 0 <= i < a.drop_first().len() implies a.drop_first()[i] != pat[0] by {
            assert(a.drop_first()[i] == a[i + 1]);
        }
        lemma_replace_prefix(a.drop_first(), t, pat, rep);
        assert(seq![a[0]] + (a.drop_first() + replace_all(t, pat, rep)) =~= a + replace_all(
            t,
            pat,
            rep,
        ));
    }
}

/// One replacement of the chain that decodes escapes, on text that holds a
/// single escape `\e`: the escape is replaced when the replacement is the
/// one for `e`, and the text is kept otherwise.
proof fn lemma_escape_stage(a: Seq<char>, e: char, b: Seq<char>, y: char, c: char)
    requires
        plain(a),
        plain(b),
        e != '\\',
    ensures
        replace_all(a + seq!['\\', e] + b, seq!['\\', y], seq![c]) == if e == y {
            a + seq![c] + b
        } else {
            a + seq!['\\', e] + b
        },
{
    let pat = seq!['\\', y];
    let rep = seq![c];
    let t = seq!['\\', e] + b;
    assert(a + seq!['\\', e] + b =~= a + t);
    lemma_replace_prefix(a, t, pat, rep);
    assert(t.take(2) =~= seq!['\\', e]);
    if e == y {
        assert(t.skip(2) =~= b);
        lemma_replace_absent(b, pat, rep);
        assert(a + (rep + b) =~= a + seq![c] + b);
    } else {
        assert(t.take(2)[1] != pat[1]);
        let rest = seq![e] + b;
        assert(t.drop_first() =~= rest);
        assert forall|i: int| 0 <= i < rest.len() implies rest[i] != '\\' by {
            if i > 0 {
                assert(rest[i] == b[i - 1]);
            }
        }
        lemma_replace_absent(rest, pat, rep);
        assert(seq![t[0]] + rest =~= t);
    }
}

/// A string literal's escapes `\n`, `\r`, `\t` and `\0` stand for the line
/// feed, carriage return, tab and NUL characters: in text that holds one
/// such escape and no other backslash, the escape is replaced by the
/// character it names and the rest is kept.
pub proof fn law_unescape_names_each_character(a: Seq<char>, e: char, b: Seq<char>)
    requires
        plain(a),
        plain(b),
        e == 'n' || e == 'r' || e == 't' || e == '0',
    ensures
        unescape(a + seq!['\\', e] + b) == a + seq![escape_meaning(e)] + b,
{
    let s0 = a + seq!['\\', e] + b;
    let m = a + seq![escape_meaning(e)] + b;
    assert forall|i: int| 0 <= i < m.len() implies m[i] != '\\' by {
        if i < a.len() {
            assert(m[i] == a[i]);
        } else if i > a.len() {
            assert(m[i] == b[i - a.len() - 1]);
        }
    }
    let p1 = seq!['\\', 'n'];
    let p2 = seq!['\\', 'r'];
    let p3 = seq!['\\', 't'];
    let p4 = seq!['\\', '0'];
    let p5 = seq!['\\', '\\'];
    let p6 = seq!['\\', '"'];
    lemma_escape_stage(a, e, b, 'n', '\n');
    let s1 = replace_all(s0, p1, seq!['\n']);
    if e == 'n' {
        assert(s1 == m);
        lemma_replace_absent(m, p2, seq!['\r']);
    } else {
        lemma_escape_stage(a, e, b, 'r', '\r');
    }
    let s2 = replace_all(s1, p2, seq!['\r']);
    if e == 'n' || e == 'r' {
        assert(s2 == m);
        lemma_replace_absent(m, p3, seq!['\t']);
    } else {
        lemma_escape_stage(a, e, b, 't', '\t');
    }
    let s3 = replace_all(s2, p3, seq!['\t']);
    if e == 'n' || e == 'r' || e == 't' {
        assert(s3 == m);
        lemma_replace_absent(m, p4, seq!['\0']);
    } else {
        lemma_escape_stage(a, e, b, '0', '\0');
    }
    let s4 = replace_all(s3, p4, seq!['\0']);
    assert(s4 == m);
    lemma_replace_absent(m, p5, seq!['\\']);
    lemma_replace_absent(m, p6, seq!['"']);
}

} // verus!
