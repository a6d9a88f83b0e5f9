//! Parsing types: tuples of lambdas, lambdas of unions, unions of variants
//! or aliases with arguments, and the terms below them; a type that starts
//! on a new line is a union written one variant per line.
use vstd::prelude::*;

use crate::ast::ty::{
    name_view, ty_field_view, ty_fields_view, ty_view, tys_view, variant_view, variants_view,
    TyFieldView, TyView, VariantView,
};
use crate::ast::{
    AliasTy, GenericTy, LambdaTy, MonadTy, ParenTy, RecordTy, TupleTy, Ty, TyField, UnionTy, Variant,
};
use crate::diagnostic::{join_spans, Span};
use crate::lex::{Token, TokenView};
use crate::parse::parser::{
    advanced, expect_at, expected_at, ident_at, keeps, left, lemma_advance, lemma_advance_at_eof,
    lemma_skip_ws_ge, moved, nth, skip_all, wf, ParserView,
};
use crate::parse::Parser;

verus! {

/// Whether a type can start with token `t`.
pub open spec fn starts_ty(t: TokenView) -> bool {
    ||| t is Ident
    ||| t == TokenView::Other(Token::Nat)
    ||| t == TokenView::Other(Token::Int)
    ||| t == TokenView::Other(Token::Num)
    ||| t == TokenView::Other(Token::Str)
    ||| t == TokenView::Other(Token::Quote)
    ||| t == TokenView::Other(Token::Colon)
    ||| t == TokenView::Other(Token::Bang)
    ||| t == TokenView::Other(Token::OpenParen)
    ||| t == TokenView::Other(Token::OpenBrace)
}

/// The parser after moving past every next token equal to `t`.
pub open spec fn take_all_at(p: ParserView, t: TokenView) -> ParserView {
    moved(p, skip_all(p.tokens, p.index, t))
}

pub proof fn lemma_take_all(p: ParserView, t: TokenView)
    requires
        wf(p),
    ensures
        wf(take_all_at(p, t)),
        left(take_all_at(p, t)) <= left(p),
    decreases p.tokens.len() - p.index,
{
    let ts = p.tokens;
    let j = crate::parse::parser::skip_ws(ts, p.index);
    lemma_skip_ws_ge(ts, p.index);
    if j < ts.len() && crate::parse::parser::token_at(ts, j) == t {
        let q = moved(p, j + 1);
        lemma_take_all(q, t);
    }
}

/// A type: a union written one variant per line when it starts on a new
/// line, a tuple otherwise.
pub open spec fn parse_ty(p: ParserView) -> (TyView, ParserView)
    decreases left(p), 12nat,
{
    if nth(p, 0).0 == TokenView::Other(Token::Newline) {
        parse_block_union(p)
    } else {
        parse_tuple(p)
    }
}

pub open spec fn parse_block_union(p: ParserView) -> (TyView, ParserView)
    decreases left(p), 11nat,
{
    let p1 = take_all_at(p, TokenView::Other(Token::Newline));
    let p2 = expect_at(p1, TokenView::Other(Token::Indent));
    let p3 = take_all_at(p2, TokenView::Other(Token::Newline));
    if left(p3) <= left(p) {
        let (vs, p4) = parse_block_variants(p3, Seq::empty());
        (TyView::Union(vs), expect_at(p4, TokenView::Other(Token::Dedent)))
    } else {
        (TyView::Union(Seq::empty()), p3)
    }
}

/// Variants one per line, each after a `|`, until a dedent or the end.
pub open spec fn parse_block_variants(p: ParserView, acc: Seq<VariantView>) -> (
    Seq<VariantView>,
    ParserView,
)
    decreases left(p), 10nat,
{
    let t = nth(p, 0).0;
    if t != TokenView::Other(Token::Dedent) && t != TokenView::Other(Token::Eof) && wf(p) {
        let p1 = expect_at(p, TokenView::Other(Token::Pipe));
        proof {
            lemma_advance(p);
        }
        let (v, p2) = parse_variant(p1);
        let p3 = take_all_at(p2, TokenView::Other(Token::Newline));
        if left(p3) < left(p) {
            parse_block_variants(p3, acc.push(v))
        } else {
            (acc.push(v), p3)
        }
    } else {
        (acc, p)
    }
}

pub open spec fn parse_tuple(p: ParserView) -> (TyView, ParserView)
    decreases left(p), 11nat,
{
    let (first, p1) = parse_lambda(p);
    if nth(p1, 0).0 == TokenView::Other(Token::Comma) && left(p1) <= left(p) {
        let (fields, p2) = parse_tuple_fields(p1, seq![first]);
        (TyView::Tuple(fields), p2)
    } else {
        (first, p1)
    }
}

/// The fields after the first of a tuple type, each after a comma.
pub open spec fn parse_tuple_fields(p: ParserView, acc: Seq<TyView>) -> (Seq<TyView>, ParserView)
    decreases left(p), 10nat,
{
    if nth(p, 0).0 == TokenView::Other(Token::Comma) && wf(p) {
        let p1 = advanced(p);
        proof {
            lemma_advance(p);
        }
        let (t, p2) = parse_lambda(p1);
        if left(p2) <= left(p1) {
            parse_tuple_fields(p2, acc.push(t))
        } else {
            (acc.push(t), p2)
        }
    } else {
        (acc, p)
    }
}

/// A union, and if an arrow follows, a lambda from it to the type after.
pub open spec fn parse_lambda(p: ParserView) -> (TyView, ParserView)
    decreases left(p), 10nat,
{
    let (input, p1) = parse_union(p);
    if nth(p1, 0).0 == TokenView::Other(Token::RightArrow) && wf(p1) && left(p1) <= left(p) {
        let p2 = advanced(p1);
        proof {
            lemma_advance(p1);
        }
        let (output, p3) = parse_lambda(p2);
        (TyView::Lambda(Box::new(input), Box::new(output)), p3)
    } else {
        (input, p1)
    }
}

/// Variants separated by `|` when a colon starts, an alias otherwise.
pub open spec fn parse_union(p: ParserView) -> (TyView, ParserView)
    decreases left(p), 9nat,
{
    if nth(p, 0).0 != TokenView::Other(Token::Colon) {
        parse_alias(p)
    } else {
        let (vs, p1) = parse_variants(p, Seq::empty());
        (TyView::Union(vs), p1)
    }
}

pub open spec fn parse_variants(p: ParserView, acc: Seq<VariantView>) -> (
    Seq<VariantView>,
    ParserView,
)
    decreases left(p), 8nat,
{
    if nth(p, 0).0 == TokenView::Other(Token::Colon) {
        let (v, p1) = parse_variant(p);
        if nth(p1, 0).0 == TokenView::Other(Token::Pipe) && wf(p1) {
            let p2 = advanced(p1);
            if left(p2) < left(p) {
                parse_variants(p2, acc.push(v))
            } else {
                (acc.push(v), p2)
            }
        } else {
            (acc.push(v), p1)
        }
    } else {
        (acc, p)
    }
}

/// A variant: a colon, a name, and a payload union if a type follows. Its
/// span runs from the colon to the name.
pub open spec fn parse_variant(p: ParserView) -> (VariantView, ParserView)
    decreases left(p), 7nat,
{
    let start = nth(p, 0).1;
    let p1 = expect_at(p, TokenView::Other(Token::Colon));
    let span = join_spans(start, nth(p1, 0).1);
    let (name, p2) = ident_at(p1);
    if starts_ty(nth(p2, 0).0) && left(p2) < left(p) {
        let (payload, p3) = parse_union(p2);
        (VariantView { name, payload: Some(payload), span }, p3)
    } else {
        (VariantView { name, payload: None, span }, p2)
    }
}

/// A name, possibly behind an import and `::`, with its span; `None` when
/// no identifier comes first or none follows the `::`.
pub open spec fn parse_name(p: ParserView) -> (
    Option<(Option<Seq<char>>, Seq<char>, Span)>,
    ParserView,
) {
    match nth(p, 0).0 {
        TokenView::Ident(name) => {
            let span = nth(p, 0).1;
            let p1 = advanced(p);
            if nth(p1, 0).0 == TokenView::Other(Token::ColonColon) {
                let p2 = advanced(p1);
                let span2 = join_spans(span, nth(p2, 0).1);
                let (second, p3) = ident_at(p2);
                match second {
                    Some(n) => (Some((Some(name), n, span2)), p3),
                    None => (None, p3),
                }
            } else {
                (Some((None, name, span)), p1)
            }
        },
        _ => (None, p),
    }
}

/// An alias with its arguments, or a term when no name comes first.
pub open spec fn parse_alias(p: ParserView) -> (TyView, ParserView)
    decreases left(p), 8nat,
{
    let (n, p1) = parse_name(p);
    if left(p1) <= left(p) {
        match n {
            None => parse_term(p1),
            Some((import, name, span)) => {
                let (args, p2) = parse_alias_args(p1, Seq::empty());
                (TyView::Alias(import, name, args, span), p2)
            },
        }
    } else {
        (TyView::Error(nth(p, 0).1), p1)
    }
}

/// Arguments of an alias, as long as a type can start: a bare name or a
/// term each.
pub open spec fn parse_alias_args(p: ParserView, acc: Seq<TyView>) -> (Seq<TyView>, ParserView)
    decreases left(p), 6nat,
{
    if starts_ty(nth(p, 0).0) {
        let (n, p1) = parse_name(p);
        let (arg, p2) = match n {
            Some((import, name, span)) => (TyView::Alias(import, name, Seq::empty(), span), p1),
            None => if left(p1) <= left(p) {
                parse_term(p1)
            } else {
                (TyView::Error(nth(p, 0).1), p1)
            },
        };
        if left(p2) < left(p) {
            parse_alias_args(p2, acc.push(arg))
        } else {
            (acc.push(arg), p2)
        }
    } else {
        (acc, p)
    }
}

/// A term: a primitive type, a generic, a monad, a type in parentheses or
/// a record; any other token is reported and skipped.
pub open spec fn parse_term(p: ParserView) -> (TyView, ParserView)
    decreases left(p), 1nat,
{
    let (t, span) = nth(p, 0);
    match t {
        TokenView::Other(Token::Nat) => (TyView::Nat, expect_at(p, t)),
        TokenView::Other(Token::Int) => (TyView::Int, expect_at(p, t)),
        TokenView::Other(Token::Num) => (TyView::Real, expect_at(p, t)),
        TokenView::Other(Token::Str) => (TyView::Str, expect_at(p, t)),
        TokenView::Other(Token::Quote) => parse_generic(p),
        TokenView::Other(Token::Bang) => parse_monad(p),
        TokenView::Other(Token::OpenParen) => parse_paren(p),
        TokenView::Other(Token::OpenBrace) => parse_record(p),
        _ => (TyView::Error(span), expected_at(p, "type"@)),
    }
}

/// A generic: a quote and a name.
pub open spec fn parse_generic(p: ParserView) -> (TyView, ParserView) {
    let p1 = expect_at(p, TokenView::Other(Token::Quote));
    let span = nth(p1, 0).1;
    let (name, p2) = ident_at(p1);
    match name {
        Some(n) => (TyView::Generic(n, span), p2),
        None => (TyView::Error(span), p2),
    }
}

/// A monad: a bang and a union.
pub open spec fn parse_monad(p: ParserView) -> (TyView, ParserView)
    decreases left(p), 0nat,
{
    let p1 = expect_at(p, TokenView::Other(Token::Bang));
    if left(p1) < left(p) {
        let (t, p2) = parse_union(p1);
        (TyView::Monad(Box::new(t)), p2)
    } else {
        (TyView::Error(nth(p, 0).1), p1)
    }
}

/// A type in parentheses.
pub open spec fn parse_paren(p: ParserView) -> (TyView, ParserView)
    decreases left(p), 0nat,
{
    let p1 = expect_at(p, TokenView::Other(Token::OpenParen));
    if left(p1) < left(p) {
        let (t, p2) = parse_ty(p1);
        (TyView::Paren(Box::new(t)), expect_at(p2, TokenView::Other(Token::CloseParen)))
    } else {
        (TyView::Error(nth(p, 0).1), p1)
    }
}

/// A record: fields in braces, one per line when a new line follows the
/// brace, separated by semicolons otherwise.
pub open spec fn parse_record(p: ParserView) -> (TyView, ParserView)
    decreases left(p), 0nat,
{
    let p1 = expect_at(p, TokenView::Other(Token::OpenBrace));
    if left(p1) < left(p) {
        if nth(p1, 0).0 == TokenView::Other(Token::Newline) {
            let q1 = take_all_at(p1, TokenView::Other(Token::Newline));
            let q2 = expect_at(q1, TokenView::Other(Token::Indent));
            let q3 = take_all_at(q2, TokenView::Other(Token::Newline));
            if left(q3) <= left(p1) {
                let (fs, q4) = parse_block_fields(q3, Seq::empty());
                let q5 = expect_at(q4, TokenView::Other(Token::Dedent));
                (TyView::Record(fs), expect_at(q5, TokenView::Other(Token::CloseBrace)))
            } else {
                (TyView::Error(nth(p, 0).1), q3)
            }
        } else {
            let (fs, q1) = parse_line_fields(p1, Seq::empty());
            (TyView::Record(fs), expect_at(q1, TokenView::Other(Token::CloseBrace)))
        }
    } else {
        (TyView::Error(nth(p, 0).1), p1)
    }
}

/// Fields one per line until a dedent or the end.
pub open spec fn parse_block_fields(p: ParserView, acc: Seq<TyFieldView>) -> (
    Seq<TyFieldView>,
    ParserView,
)
    decreases left(p), 14nat,
{
    let t = nth(p, 0).0;
    if t != TokenView::Other(Token::Dedent) && t != TokenView::Other(Token::Eof) && wf(p) {
        let (f, p1) = parse_field(p);
        let p2 = take_all_at(p1, TokenView::Other(Token::Newline));
        if left(p2) < left(p) {
            parse_block_fields(p2, acc.push(f))
        } else {
            (acc.push(f), p2)
        }
    } else {
        (acc, p)
    }
}

/// Fields separated by semicolons until a closing brace or the end.
pub open spec fn parse_line_fields(p: ParserView, acc: Seq<TyFieldView>) -> (
    Seq<TyFieldView>,
    ParserView,
)
    decreases left(p), 14nat,
{
    let t = nth(p, 0).0;
    if t != TokenView::Other(Token::CloseBrace) && t != TokenView::Other(Token::Eof) && wf(p) {
        let (f, p1) = parse_field(p);
        if nth(p1, 0).0 == TokenView::Other(Token::Semi) && wf(p1) {
            let p2 = advanced(p1);
            if left(p2) < left(p) {
                parse_line_fields(p2, acc.push(f))
            } else {
                (acc.push(f), p2)
            }
        } else {
            (acc.push(f), p1)
        }
    } else {
        (acc, p)
    }
}

/// A field: a name, a colon and a type; its span is the name's.
pub open spec fn parse_field(p: ParserView) -> (TyFieldView, ParserView)
    decreases left(p), 13nat,
{
    let span = nth(p, 0).1;
    let (name, p1) = ident_at(p);
    let p2 = expect_at(p1, TokenView::Other(Token::Colon));
    if left(p2) <= left(p) {
        let (t, p3) = parse_ty(p2);
        (TyFieldView { name, ty: t, span }, p3)
    } else {
        (TyFieldView { name, ty: TyView::Error(span), span }, p2)
    }
}

/// Whether a type can start with `token`.
pub fn is_ty(token: Token) -> (r: bool)
    ensures
        r == starts_ty(token@),
{
    match token {
        Token::Ident(..) | Token::Nat | Token::Int | Token::Num | Token::Str | Token::Quote
        | Token::Colon | Token::Bang | Token::OpenParen | Token::OpenBrace => true,
        _ => false,
    }
}

/// A type: a union written one variant per line when it starts on a new
/// line, a tuple otherwise.
pub fn ty(parser: &mut Parser) -> (r: Ty)
    requires
        wf(old(parser)@),
    ensures
        keeps(old(parser)@, final(parser)@),
        (ty_view(r), final(parser)@) == parse_ty(old(parser)@),
        wf(final(parser)@),
        left(final(parser)@) <= left(old(parser)@),
    decreases left(old(parser)@), 12nat,
{
    if parser.is(Token::Newline) {
        block_union(parser)
    } else {
        tuple(parser)
    }
}

fn block_union(parser: &mut Parser) -> (r: Ty)
    requires
        wf(old(parser)@),
    ensures
        keeps(old(parser)@, final(parser)@),
        (ty_view(r), final(parser)@) == parse_block_union(old(parser)@),
        wf(final(parser)@),
        left(final(parser)@) <= left(old(parser)@),
    decreases left(old(parser)@), 11nat,
{
    let ghost p = parser@;
    proof {
        lemma_take_all(p, TokenView::Other(Token::Newline));
    }
    parser.take_all(Token::Newline);
    proof {
        lemma_advance(parser@);
    }
    parser.expect(Token::Indent);
    let ghost p2 = parser@;
    proof {
        lemma_take_all(p2, TokenView::Other(Token::Newline));
    }
    parser.take_all(Token::Newline);
    let ghost p3 = parser@;
    let mut variants: Vec<Variant> = Vec::new();
    assert(variants_view(variants@) =~= Seq::<VariantView>::empty());
    while !parser.is(Token::Dedent) && !parser.is(Token::Eof)
        invariant
            wf(parser@),
            keeps(old(parser)@, parser@),
            left(parser@) <= left(p3),
            left(p3) <= left(p),
            p == old(parser)@,
            parse_block_variants(parser@, variants_view(variants@)) == parse_block_variants(
                p3,
                Seq::empty(),
            ),
        decreases left(parser@),
    {
        let ghost q = parser@;
        let ghost acc = variants_view(variants@);
        proof {
            lemma_advance(q);
        }
        parser.expect(Token::Pipe);
        let v = variant(parser);
        let ghost q2 = parser@;
        proof {
            lemma_take_all(q2, TokenView::Other(Token::Newline));
        }
        parser.take_all(Token::Newline);
        let ghost vv = variant_view(v);
        variants.push(v);
        assert(variants_view(variants@) =~= acc.push(vv));
    }
    proof {
        lemma_advance(parser@);
    }
    parser.expect(Token::Dedent);
    Ty::Union(UnionTy { variants })
}

fn tuple(parser: &mut Parser) -> (r: Ty)
    requires
        wf(old(parser)@),
    ensures
        keeps(old(parser)@, final(parser)@),
        (ty_view(r), final(parser)@) == parse_tuple(old(parser)@),
        wf(final(parser)@),
        left(final(parser)@) <= left(old(parser)@),
    decreases left(old(parser)@), 11nat,
{
    let ghost p = parser@;
    let first = lambda(parser);
    if !parser.is(Token::Comma) {
        return first;
    }
    let ghost p1 = parser@;
    let ghost fv = ty_view(first);
    let mut fields: Vec<Ty> = Vec::new();
    fields.push(first);
    assert(tys_view(fields@) =~= seq![fv]);
    while parser.is(Token::Comma)
        invariant
            wf(parser@),
            keeps(old(parser)@, parser@),
            left(parser@) <= left(p1),
            left(p1) <= left(p),
            p == old(parser)@,
            parse_tuple_fields(parser@, tys_view(fields@)) == parse_tuple_fields(p1, seq![fv]),
        decreases left(parser@),
    {
        let ghost before = parser@;
        let ghost acc = tys_view(fields@);
        proof {
            lemma_advance(before);
        }
        parser.consume();
        let t = lambda(parser);
        let ghost tv = ty_view(t);
        fields.push(t);
        assert(tys_view(fields@) =~= acc.push(tv));
    }
    Ty::Tuple(TupleTy { fields })
}

fn lambda(parser: &mut Parser) -> (r: Ty)
    requires
        wf(old(parser)@),
    ensures
        keeps(old(parser)@, final(parser)@),
        (ty_view(r), final(parser)@) == parse_lambda(old(parser)@),
        wf(final(parser)@),
        left(final(parser)@) <= left(old(parser)@),
    decreases left(old(parser)@), 10nat,
{
    let input = union(parser);
    if !parser.is(Token::RightArrow) {
        return input;
    }
    proof {
        lemma_advance(parser@);
    }
    parser.consume();
    let output = lambda(parser);
    Ty::Lambda(LambdaTy { input: Box::new(input), output: Box::new(output) })
}

fn union(parser: &mut Parser) -> (r: Ty)
    requires
        wf(old(parser)@),
    ensures
        keeps(old(parser)@, final(parser)@),
        (ty_view(r), final(parser)@) == parse_union(old(parser)@),
        wf(final(parser)@),
        left(final(parser)@) <= left(old(parser)@),
    decreases left(old(parser)@), 9nat,
{
    if !parser.is(Token::Colon) {
        return alias(parser);
    }
    let variants = variants(parser);
    Ty::Union(UnionTy { variants })
}

fn variants(parser: &mut Parser) -> (r: Vec<Variant>)
    requires
        wf(old(parser)@),
        nth(old(parser)@, 0).0 == TokenView::Other(Token::Colon),
    ensures
        keeps(old(parser)@, final(parser)@),
        (variants_view(r@), final(parser)@) == parse_variants(old(parser)@, Seq::empty()),
        wf(final(parser)@),
        left(final(parser)@) < left(old(parser)@),
    decreases left(old(parser)@), 8nat,
{
    let ghost p = parser@;
    let mut variants: Vec<Variant> = Vec::new();
    assert(variants_view(variants@) =~= Seq::<VariantView>::empty());
    while parser.is(Token::Colon)
        invariant_except_break
            parse_variants(parser@, variants_view(variants@)) == parse_variants(p, Seq::empty()),
        invariant
            wf(parser@),
            keeps(old(parser)@, parser@),
            p == old(parser)@,
            nth(p, 0).0 == TokenView::Other(Token::Colon),
            left(parser@) <= left(p),
            variants@.len() > 0 ==> left(parser@) < left(p),
            variants@.len() == 0 ==> parser@ == p,
        ensures
            (variants_view(variants@), parser@) == parse_variants(p, Seq::empty()),
            variants@.len() > 0,
        decreases left(parser@),
    {
        let ghost acc = variants_view(variants@);
        let v = variant(parser);
        let ghost vv = variant_view(v);
        variants.push(v);
        assert(variants_view(variants@) =~= acc.push(vv));
        proof {
            lemma_advance(parser@);
        }
        if !parser.take(Token::Pipe) {
            break;
        }
    }
    variants
}

fn variant(parser: &mut Parser) -> (r: Variant)
    requires
        wf(old(parser)@),
    ensures
        keeps(old(parser)@, final(parser)@),
        (variant_view(r), final(parser)@) == parse_variant(old(parser)@),
        wf(final(parser)@),
        left(final(parser)@) <= left(old(parser)@),
        nth(old(parser)@, 0).0 != TokenView::Other(Token::Eof) ==> left(final(parser)@) < left(
            old(parser)@,
        ),
    decreases left(old(parser)@), 7nat,
{
    let ghost p = parser@;
    proof {
        lemma_advance(p);
        if nth(p, 0).0 == TokenView::Other(Token::Eof) {
            lemma_advance_at_eof(p);
            lemma_advance_at_eof(advanced(p));
        }
    }
    let start = parser.expect(Token::Colon);
    let span = start.join(parser.span());
    proof {
        lemma_advance(parser@);
    }
    let name = parser.expect_ident();
    let payload = if is_ty(parser.peek()) {
        Some(union(parser))
    } else {
        None
    };
    Variant { name, payload, span }
}

/// A name, possibly behind an import, as plain values.
pub open spec fn name_result_view(r: Option<(Option<&'static str>, &'static str, Span)>) -> Option<
    (Option<Seq<char>>, Seq<char>, Span),
> {
    match r {
        Some((import, name, span)) => Some((name_view(import), name@, span)),
        None => None,
    }
}

fn name(parser: &mut Parser) -> (r: Option<(Option<&'static str>, &'static str, Span)>)
    requires
        wf(old(parser)@),
    ensures
        keeps(old(parser)@, final(parser)@),
        (name_result_view(r), final(parser)@) == parse_name(old(parser)@),
        wf(final(parser)@),
        left(final(parser)@) <= left(old(parser)@),
        nth(old(parser)@, 0).0 is Ident ==> left(final(parser)@) < left(old(parser)@),
        !(nth(old(parser)@, 0).0 is Ident) ==> final(parser)@ == old(parser)@,
{
    let name = match parser.peek() {
        Token::Ident(name) => name,
        _ => {
            return None;
        },
    };
    proof {
        lemma_advance(parser@);
    }
    let span = parser.consume();
    proof {
        lemma_advance(parser@);
    }
    if parser.take(Token::ColonColon) {
        let import = Some(name);
        let span = span.join(parser.span());
        proof {
            lemma_advance(parser@);
        }
        let name = match parser.expect_ident() {
            Some(name) => name,
            None => {
                return None;
            },
        };
        Some((import, name, span))
    } else {
        Some((None, name, span))
    }
}

fn alias(parser: &mut Parser) -> (r: Ty)
    requires
        wf(old(parser)@),
    ensures
        keeps(old(parser)@, final(parser)@),
        (ty_view(r), final(parser)@) == parse_alias(old(parser)@),
        wf(final(parser)@),
        left(final(parser)@) <= left(old(parser)@),
    decreases left(old(parser)@), 8nat,
{
    match name(parser) {
        None => term(parser),
        Some((import, name, span)) => {
            let args = alias_args(parser);
            Ty::Alias(AliasTy { import, name, args, span })
        },
    }
}

fn alias_args(parser: &mut Parser) -> (r: Vec<Ty>)
    requires
        wf(old(parser)@),
    ensures
        keeps(old(parser)@, final(parser)@),
        (tys_view(r@), final(parser)@) == parse_alias_args(old(parser)@, Seq::empty()),
        wf(final(parser)@),
        left(final(parser)@) <= left(old(parser)@),
    decreases left(old(parser)@), 6nat,
{
    let ghost p = parser@;
    let mut args: Vec<Ty> = Vec::new();
    assert(tys_view(args@) =~= Seq::<TyView>::empty());
    while is_ty(parser.peek())
        invariant
            wf(parser@),
            keeps(old(parser)@, parser@),
            p == old(parser)@,
            left(parser@) <= left(p),
            parse_alias_args(parser@, tys_view(args@)) == parse_alias_args(p, Seq::empty()),
        decreases left(parser@),
    {
        let ghost acc = tys_view(args@);
        let arg = match name(parser) {
            Some((import, name, span)) => {
                let empty: Vec<Ty> = Vec::new();
                assert(tys_view(empty@) =~= Seq::<TyView>::empty());
                Ty::Alias(AliasTy { import, name, args: empty, span })
            },
            None => term(parser),
        };
        let ghost av = ty_view(arg);
        args.push(arg);
        assert(tys_view(args@) =~= acc.push(av));
    }
    args
}

fn term(parser: &mut Parser) -> (r: Ty)
    requires
        wf(old(parser)@),
    ensures
        keeps(old(parser)@, final(parser)@),
        (ty_view(r), final(parser)@) == parse_term(old(parser)@),
        wf(final(parser)@),
        left(final(parser)@) <= left(old(parser)@),
        nth(old(parser)@, 0).0 != TokenView::Other(Token::Eof) ==> left(final(parser)@) < left(
            old(parser)@,
        ),
    decreases left(old(parser)@), 1nat,
{
    proof {
        lemma_advance(parser@);
    }
    match parser.peek() {
        Token::Nat => nat_ty(parser),
        Token::Int => int_ty(parser),
        Token::Num => real_ty(parser),
        Token::Str => str_ty(parser),
        Token::Quote => generic(parser),
        Token::Bang => monad(parser),
        Token::OpenParen => paren(parser),
        Token::OpenBrace => record(parser),
        _ => {
            let span = parser.expected("type");
            Ty::Error(span)
        },
    }
}

fn nat_ty(parser: &mut Parser) -> (r: Ty)
    requires
        wf(old(parser)@),
    ensures
        keeps(old(parser)@, final(parser)@),
        ty_view(r) == TyView::Nat,
        final(parser)@ == expect_at(old(parser)@, TokenView::Other(Token::Nat)),
        wf(final(parser)@),
        left(final(parser)@) < left(old(parser)@) || nth(old(parser)@, 0).0 == TokenView::Other(Token::Eof),
        left(final(parser)@) <= left(old(parser)@),
{
    proof {
        lemma_advance(parser@);
    }
    parser.expect(Token::Nat);
    Ty::Nat
}

fn int_ty(parser: &mut Parser) -> (r: Ty)
    requires
        wf(old(parser)@),
    ensures
        keeps(old(parser)@, final(parser)@),
        ty_view(r) == TyView::Int,
        final(parser)@ == expect_at(old(parser)@, TokenView::Other(Token::Int)),
        wf(final(parser)@),
        left(final(parser)@) < left(old(parser)@) || nth(old(parser)@, 0).0 == TokenView::Other(Token::Eof),
        left(final(parser)@) <= left(old(parser)@),
{
    proof {
        lemma_advance(parser@);
    }
    parser.expect(Token::Int);
    Ty::Int
}

fn real_ty(parser: &mut Parser) -> (r: Ty)
    requires
        wf(old(parser)@),
    ensures
        keeps(old(parser)@, final(parser)@),
        ty_view(r) == TyView::Real,
        final(parser)@ == expect_at(old(parser)@, TokenView::Other(Token::Num)),
        wf(final(parser)@),
        left(final(parser)@) < left(old(parser)@) || nth(old(parser)@, 0).0 == TokenView::Other(Token::Eof),
        left(final(parser)@) <= left(old(parser)@),
{
    proof {
        lemma_advance(parser@);
    }
    parser.expect(Token::Num);
    Ty::Real
}

fn str_ty(parser: &mut Parser) -> (r: Ty)
    requires
        wf(old(parser)@),
    ensures
        keeps(old(parser)@, final(parser)@),
        ty_view(r) == TyView::Str,
        final(parser)@ == expect_at(old(parser)@, TokenView::Other(Token::Str)),
        wf(final(parser)@),
        left(final(parser)@) < left(old(parser)@) || nth(old(parser)@, 0).0 == TokenView::Other(Token::Eof),
        left(final(parser)@) <= left(old(parser)@),
{
    proof {
        lemma_advance(parser@);
    }
    parser.expect(Token::Str);
    Ty::Str
}

fn generic(parser: &mut Parser) -> (r: Ty)
    requires
        wf(old(parser)@),
        nth(old(parser)@, 0).0 == TokenView::Other(Token::Quote),
    ensures
        keeps(old(parser)@, final(parser)@),
        (ty_view(r), final(parser)@) == parse_generic(old(parser)@),
        wf(final(parser)@),
        left(final(parser)@) < left(old(parser)@),
{
    proof {
        lemma_advance(parser@);
    }
    parser.expect(Token::Quote);
    proof {
        lemma_advance(parser@);
    }
    let span = parser.span();
    match parser.expect_ident() {
        Some(name) => Ty::Generic(GenericTy { name, span }),
        None => Ty::Error(span),
    }
}

fn monad(parser: &mut Parser) -> (r: Ty)
    requires
        wf(old(parser)@),
        nth(old(parser)@, 0).0 == TokenView::Other(Token::Bang),
    ensures
        keeps(old(parser)@, final(parser)@),
        (ty_view(r), final(parser)@) == parse_monad(old(parser)@),
        wf(final(parser)@),
        left(final(parser)@) < left(old(parser)@),
    decreases left(old(parser)@), 0nat,
{
    proof {
        lemma_advance(parser@);
    }
    parser.expect(Token::Bang);
    let ty = union(parser);
    Ty::Monad(MonadTy { ty: Box::new(ty) })
}

fn paren(parser: &mut Parser) -> (r: Ty)
    requires
        wf(old(parser)@),
        nth(old(parser)@, 0).0 == TokenView::Other(Token::OpenParen),
    ensures
        keeps(old(parser)@, final(parser)@),
        (ty_view(r), final(parser)@) == parse_paren(old(parser)@),
        wf(final(parser)@),
        left(final(parser)@) < left(old(parser)@),
    decreases left(old(parser)@), 0nat,
{
    proof {
        lemma_advance(parser@);
    }
    parser.expect(Token::OpenParen);
    let ty = ty(parser);
    proof {
        lemma_advance(parser@);
    }
    parser.expect(Token::CloseParen);
    Ty::Paren(ParenTy { ty: Box::new(ty) })
}

fn record(parser: &mut Parser) -> (r: Ty)
    requires
        wf(old(parser)@),
        nth(old(parser)@, 0).0 == TokenView::Other(Token::OpenBrace),
    ensures
        keeps(old(parser)@, final(parser)@),
        (ty_view(r), final(parser)@) == parse_record(old(parser)@),
        wf(final(parser)@),
        left(final(parser)@) < left(old(parser)@),
    decreases left(old(parser)@), 0nat,
{
    let ghost p = parser@;
    proof {
        lemma_advance(p);
    }
    parser.expect(Token::OpenBrace);
    let ghost p1 = parser@;
    let mut fields: Vec<TyField> = Vec::new();
    assert(ty_fields_view(fields@) =~= Seq::<TyFieldView>::empty());
    if parser.is(Token::Newline) {
        proof {
            lemma_take_all(p1, TokenView::Other(Token::Newline));
        }
        parser.take_all(Token::Newline);
        proof {
            lemma_advance(parser@);
        }
        parser.expect(Token::Indent);
        let ghost q2 = parser@;
        proof {
            lemma_take_all(q2, TokenView::Other(Token::Newline));
        }
        parser.take_all(Token::Newline);
        let ghost q3 = parser@;
        while !parser.is(Token::Dedent) && !parser.is(Token::Eof)
            invariant
                wf(parser@),
                keeps(old(parser)@, parser@),
                left(parser@) <= left(q3),
                left(q3) <= left(p1),
                left(p1) < left(p),
                p == old(parser)@,
                parse_block_fields(parser@, ty_fields_view(fields@)) == parse_block_fields(
                    q3,
                    Seq::empty(),
                ),
            decreases left(parser@),
        {
            let ghost acc = ty_fields_view(fields@);
            let f = field(parser);
            let ghost q = parser@;
            proof {
                lemma_take_all(q, TokenView::Other(Token::Newline));
            }
            parser.take_all(Token::Newline);
            let ghost fv = ty_field_view(f);
            fields.push(f);
            assert(ty_fields_view(fields@) =~= acc.push(fv));
        }
        proof {
            lemma_advance(parser@);
        }
        parser.expect(Token::Dedent);
    } else {
        while !parser.is(Token::CloseBrace) && !parser.is(Token::Eof)
            invariant_except_break
                parse_line_fields(parser@, ty_fields_view(fields@)) == parse_line_fields(
                    p1,
                    Seq::empty(),
                ),
            invariant
                wf(parser@),
                keeps(old(parser)@, parser@),
                left(parser@) <= left(p1),
                left(p1) < left(p),
                p == old(parser)@,
            ensures
                (ty_fields_view(fields@), parser@) == parse_line_fields(p1, Seq::empty()),
            decreases left(parser@),
        {
            let ghost acc = ty_fields_view(fields@);
            let f = field(parser);
            let ghost fv = ty_field_view(f);
            fields.push(f);
            assert(ty_fields_view(fields@) =~= acc.push(fv));
            proof {
                lemma_advance(parser@);
            }
            if !parser.take(Token::Semi) {
                break;
            }
        }
    }
    proof {
        lemma_advance(parser@);
    }
    parser.expect(Token::CloseBrace);
    Ty::Record(RecordTy { fields })
}

fn field(parser: &mut Parser) -> (r: TyField)
    requires
        wf(old(parser)@),
    ensures
        keeps(old(parser)@, final(parser)@),
        (ty_field_view(r), final(parser)@) == parse_field(old(parser)@),
        wf(final(parser)@),
        left(final(parser)@) <= left(old(parser)@),
        nth(old(parser)@, 0).0 != TokenView::Other(Token::Eof) ==> left(final(parser)@) < left(
            old(parser)@,
        ),
    decreases left(old(parser)@), 13nat,
{
    proof {
        lemma_advance(parser@);
    }
    let span = parser.span();
    let name = parser.expect_ident();
    proof {
        lemma_advance(parser@);
    }
    parser.expect(Token::Colon);
    let ty = ty(parser);
    TyField { name, ty, span }
}

} // verus!
