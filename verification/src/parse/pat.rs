//! Parsing patterns: a tuple of terms separated by commas, each term a
//! binding, a wildcard, a variant with an optional payload term, or a
//! pattern in parentheses.
use vstd::prelude::*;

use crate::ast::pat::{pat_view, pat_view_span, pats_view, PatView};
use crate::ast::{BindPat, ParenPat, Pat, TuplePat, VariantPat, WildPat};
use crate::diagnostic::{join_spans, Span};
use crate::lex::{Token, TokenView};
use crate::parse::parser::{
    advanced, expect_at, expected_at, ident_at, keeps, left, lemma_advance, nth, wf, ParserView,
};
use crate::parse::Parser;

verus! {

/// Whether a pattern can start with token `t`.
pub open spec fn starts_pat(t: TokenView) -> bool {
    ||| t is Ident
    ||| t == TokenView::Other(Token::Colon)
    ||| t == TokenView::Other(Token::Under)
    ||| t == TokenView::Other(Token::OpenParen)
}

/// The spans of `s` joined from the first on.
pub open spec fn join_all(s: Seq<Span>) -> Span
    decreases s.len(),
{
    if s.len() <= 1 {
        s[0]
    } else {
        join_spans(join_all(s.drop_last()), s.last())
    }
}

/// The spans of patterns.
pub open spec fn pat_spans(s: Seq<PatView>) -> Seq<Span> {
    s.map_values(|p: PatView| pat_view_span(p))
}

/// A pattern: terms separated by commas, a tuple when there are several.
pub open spec fn parse_pat(p: ParserView) -> (PatView, ParserView)
    decreases left(p), 3nat,
{
    parse_tuple(p)
}

pub open spec fn parse_tuple(p: ParserView) -> (PatView, ParserView)
    decreases left(p), 2nat,
{
    let (first, p1) = parse_term(p);
    if nth(p1, 0).0 == TokenView::Other(Token::Comma) && left(p1) <= left(p) {
        let (fields, p2) = parse_fields(p1, seq![first]);
        (PatView::Tuple(fields, join_all(pat_spans(fields))), p2)
    } else {
        (first, p1)
    }
}

/// The terms after the first of a tuple, each after a comma, added to `acc`.
pub open spec fn parse_fields(p: ParserView, acc: Seq<PatView>) -> (Seq<PatView>, ParserView)
    decreases left(p), 1nat,
{
    if nth(p, 0).0 == TokenView::Other(Token::Comma) && wf(p) {
        let p1 = advanced(p);
        proof {
            lemma_advance(p);
        }
        let (t, p2) = parse_term(p1);
        if left(p2) <= left(p1) {
            parse_fields(p2, acc.push(t))
        } else {
            (acc.push(t), p2)
        }
    } else {
        (acc, p)
    }
}

/// A term: a binding, a wildcard, a variant, a pattern in parentheses; any
/// other token is reported and skipped.
pub open spec fn parse_term(p: ParserView) -> (PatView, ParserView)
    decreases left(p), 1nat,
{
    let (t, span) = nth(p, 0);
    match t {
        TokenView::Ident(name) => (PatView::Bind(name, span), advanced(p)),
        TokenView::Other(Token::Under) => (PatView::Wild(span), expect_at(p, t)),
        TokenView::Other(Token::Colon) => parse_variant(p),
        TokenView::Other(Token::OpenParen) => parse_paren(p),
        _ => (PatView::Error(span), expected_at(p, "pattern"@)),
    }
}

/// A pattern in parentheses.
pub open spec fn parse_paren(p: ParserView) -> (PatView, ParserView)
    decreases left(p), 0nat,
{
    let start = nth(p, 0).1;
    let p1 = expect_at(p, TokenView::Other(Token::OpenParen));
    if left(p1) < left(p) {
        let (inner, p2) = parse_pat(p1);
        let end = nth(p2, 0).1;
        let p3 = expect_at(p2, TokenView::Other(Token::CloseParen));
        (PatView::Paren(Box::new(inner), join_spans(start, end)), p3)
    } else {
        (PatView::Error(start), p1)
    }
}

/// A variant: a colon, a name, and a payload term if one follows.
pub open spec fn parse_variant(p: ParserView) -> (PatView, ParserView)
    decreases left(p), 0nat,
{
    let start = nth(p, 0).1;
    let p1 = expect_at(p, TokenView::Other(Token::Colon));
    let span = join_spans(start, nth(p1, 0).1);
    let (name, p2) = ident_at(p1);
    if starts_pat(nth(p2, 0).0) && left(p2) < left(p) {
        let (payload, p3) = parse_term(p2);
        (PatView::Variant(name, Some(Box::new(payload)), join_spans(span, pat_view_span(payload))), p3)
    } else {
        (PatView::Variant(name, None, span), p2)
    }
}

/// Patterns one after another, as long as one can start, added to `acc`.
pub open spec fn parse_pats(p: ParserView, acc: Seq<PatView>) -> (Seq<PatView>, ParserView)
    decreases left(p),
{
    if starts_pat(nth(p, 0).0) {
        let (x, p1) = parse_pat(p);
        if left(p1) < left(p) {
            parse_pats(p1, acc.push(x))
        } else {
            (acc.push(x), p1)
        }
    } else {
        (acc, p)
    }
}

/// Whether a pattern can start with `token`.
pub fn is_pat(token: Token) -> (r: bool)
    ensures
        r == starts_pat(token@),
{
    match token {
        Token::Ident(..) | Token::Colon | Token::Under | Token::OpenParen => true,
        _ => false,
    }
}

/// Patterns one after another, as long as one can start.
pub fn pats(parser: &mut Parser) -> (r: Vec<Pat>)
    requires
        wf(old(parser)@),
    ensures
        keeps(old(parser)@, final(parser)@),
        (pats_view(r@), final(parser)@) == parse_pats(old(parser)@, Seq::empty()),
        wf(final(parser)@),
        left(final(parser)@) <= left(old(parser)@),
{
    let mut args: Vec<Pat> = Vec::new();
    let ghost start = parser@;
    assert(pats_view(args@) =~= Seq::<PatView>::empty());
    while is_pat(parser.peek())
        invariant
            wf(parser@),
            keeps(old(parser)@, parser@),
            left(parser@) <= left(start),
            parse_pats(parser@, pats_view(args@)) == parse_pats(start, Seq::empty()),
        decreases left(parser@),
    {
        let ghost before = parser@;
        let ghost acc = pats_view(args@);
        let x = pat(parser);
        let ghost xv = pat_view(x);
        args.push(x);
        assert(pats_view(args@) =~= acc.push(xv));
    }
    args
}

/// A pattern: terms separated by commas, a tuple when there are several.
pub fn pat(parser: &mut Parser) -> (r: Pat)
    requires
        wf(old(parser)@),
    ensures
        keeps(old(parser)@, final(parser)@),
        (pat_view(r), final(parser)@) == parse_pat(old(parser)@),
        wf(final(parser)@),
        left(final(parser)@) <= left(old(parser)@),
        nth(old(parser)@, 0).0 != TokenView::Other(Token::Eof) ==> left(final(parser)@) < left(
            old(parser)@,
        ),
    decreases left(old(parser)@), 3nat,
{
    tuple(parser)
}

fn tuple(parser: &mut Parser) -> (r: Pat)
    requires
        wf(old(parser)@),
    ensures
        keeps(old(parser)@, final(parser)@),
        (pat_view(r), final(parser)@) == parse_tuple(old(parser)@),
        wf(final(parser)@),
        left(final(parser)@) <= left(old(parser)@),
        nth(old(parser)@, 0).0 != TokenView::Other(Token::Eof) ==> left(final(parser)@) < left(
            old(parser)@,
        ),
    decreases left(old(parser)@), 2nat,
{
    let ghost p = parser@;
    let first = term(parser);
    if !parser.is(Token::Comma) {
        return first;
    }
    let ghost p1 = parser@;
    let mut fields: Vec<Pat> = Vec::new();
    fields.push(first);
    assert(pats_view(fields@) =~= seq![pat_view(first)]);
    while parser.is(Token::Comma)
        invariant
            wf(parser@),
            keeps(old(parser)@, parser@),
            left(parser@) <= left(p1),
            left(p1) <= left(p),
            p == old(parser)@,
            fields@.len() > 0,
            parse_fields(parser@, pats_view(fields@)) == parse_fields(p1, seq![pat_view(first)]),
        decreases left(parser@),
    {
        let ghost before = parser@;
        proof {
            lemma_advance(before);
        }
        parser.consume();
        let ghost acc = pats_view(fields@);
        let t = term(parser);
        let ghost tv = pat_view(t);
        fields.push(t);
        assert(pats_view(fields@) =~= acc.push(tv));
    }
    let ghost fv = pats_view(fields@);
    let mut span = fields[0].span();
    let mut i: usize = 1;
    assert(fv.take(1) =~= seq![fv[0]]);
    while i < fields.len()
        invariant
            fv == pats_view(fields@),
            1 <= i <= fields@.len(),
            span == join_all(pat_spans(fv.take(i as int))),
        decreases fields@.len() - i,
    {
        assert(pat_spans(fv.take(i + 1)).drop_last() =~= pat_spans(fv.take(i as int)));
        span = span.join(fields[i].span());
        i = i + 1;
    }
    assert(fv.take(fields@.len() as int) =~= fv);
    Pat::Tuple(TuplePat { fields, span })
}

fn term(parser: &mut Parser) -> (r: Pat)
    requires
        wf(old(parser)@),
    ensures
        keeps(old(parser)@, final(parser)@),
        (pat_view(r), final(parser)@) == parse_term(old(parser)@),
        wf(final(parser)@),
        left(final(parser)@) <= left(old(parser)@),
        nth(old(parser)@, 0).0 != TokenView::Other(Token::Eof) ==> left(final(parser)@) < left(
            old(parser)@,
        ),
    decreases left(old(parser)@), 1nat,
{
    proof {
        lemma_advance(parser@);
    }
    match parser.peek() {
        Token::Ident(name) => bind(parser, name),
        Token::Under => wild(parser),
        Token::Colon => variant(parser),
        Token::OpenParen => paren(parser),
        _ => {
            let span = parser.expected("pattern");
            Pat::Error(span)
        },
    }
}

fn paren(parser: &mut Parser) -> (r: Pat)
    requires
        wf(old(parser)@),
        nth(old(parser)@, 0).0 == TokenView::Other(Token::OpenParen),
    ensures
        keeps(old(parser)@, final(parser)@),
        (pat_view(r), final(parser)@) == parse_paren(old(parser)@),
        wf(final(parser)@),
        left(final(parser)@) < left(old(parser)@),
    decreases left(old(parser)@), 0nat,
{
    let ghost p = parser@;
    proof {
        lemma_advance(p);
    }
    let start = parser.expect(Token::OpenParen);
    let inner = pat(parser);
    proof {
        lemma_advance(parser@);
    }
    let end = parser.expect(Token::CloseParen);
    let span = start.join(end);
    Pat::Paren(ParenPat { pat: Box::new(inner), span })
}

fn wild(parser: &mut Parser) -> (r: Pat)
    requires
        wf(old(parser)@),
    ensures
        keeps(old(parser)@, final(parser)@),
        pat_view(r) == PatView::Wild(nth(old(parser)@, 0).1),
        final(parser)@ == expect_at(old(parser)@, TokenView::Other(Token::Under)),
{
    let span = parser.expect(Token::Under);
    Pat::Wild(WildPat { span })
}

fn bind(parser: &mut Parser, name: &'static str) -> (r: Pat)
    requires
        wf(old(parser)@),
    ensures
        keeps(old(parser)@, final(parser)@),
        pat_view(r) == PatView::Bind(name@, nth(old(parser)@, 0).1),
        final(parser)@ == advanced(old(parser)@),
{
    let span = parser.consume();
    Pat::Bind(BindPat { name, span })
}

fn variant(parser: &mut Parser) -> (r: Pat)
    requires
        wf(old(parser)@),
        nth(old(parser)@, 0).0 == TokenView::Other(Token::Colon),
    ensures
        keeps(old(parser)@, final(parser)@),
        (pat_view(r), final(parser)@) == parse_variant(old(parser)@),
        wf(final(parser)@),
        left(final(parser)@) < left(old(parser)@),
    decreases left(old(parser)@), 0nat,
{
    let ghost p = parser@;
    proof {
        lemma_advance(p);
    }
    let start = parser.expect(Token::Colon);
    let mut span = start.join(parser.span());
    proof {
        lemma_advance(parser@);
    }
    let name = parser.expect_ident();
    let pat = if is_pat(parser.peek()) {
        Some(Box::new(term(parser)))
    } else {
        None
    };
    match &pat {
        Some(pat) => {
            span = span.join(pat.span());
        },
        None => {},
    }
    Pat::Variant(VariantPat { name, pat, span })
}

} // verus!
