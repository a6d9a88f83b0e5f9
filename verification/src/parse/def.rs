//! Parsing definitions: imports, externs and type aliases, and the `is`
//! type annotations that may precede a binding.
use vstd::prelude::*;

use crate::ast::def::{
    def_view, module_def_view, module_defs_view, names_view, DefView, GlobalView, ModuleDefView,
};
use crate::ast::pat::pat_view_span;
use crate::ast::ty::{name_view, ty_view, TyView};
use crate::ast::{AliasDef, Def, ExternDef, GlobalDef, ImportDef, ModuleDef, Ty};
use crate::parse::expr::{at, expr, parse_expr, skip_newlines};
use crate::parse::pat::{is_pat, parse_pat, parse_pats, pat, pats, starts_pat};
use crate::lex::{Token, TokenView};
use crate::parse::parser::{
    advanced, expect_at, expected_at, ident_at, keeps, left, lemma_advance, nth, string_at, wf,
    ParserView,
};
use crate::parse::ty::{parse_ty, take_all_at, ty};
use crate::parse::Parser;

verus! {

/// Whether a definition starts with token `t`.
pub open spec fn starts_def(t: TokenView) -> bool {
    ||| t == TokenView::Other(Token::Type)
    ||| t == TokenView::Other(Token::Extern)
    ||| t == TokenView::Other(Token::Import)
}

/// A definition: an extern, an import or a type alias; any other token is
/// reported and skipped.
pub open spec fn parse_def(p: ParserView) -> (DefView, ParserView) {
    let (t, span) = nth(p, 0);
    match t {
        TokenView::Other(Token::Extern) => parse_extern(p),
        TokenView::Other(Token::Import) => parse_import(p),
        TokenView::Other(Token::Type) => parse_alias(p),
        _ => (DefView::Error(span), expected_at(p, "definition"@)),
    }
}

/// An extern: its id as a string, its name, `is` and its type.
pub open spec fn parse_extern(p: ParserView) -> (DefView, ParserView) {
    let span = nth(p, 0).1;
    let p1 = expect_at(p, TokenView::Other(Token::Extern));
    let (id, p2) = string_at(p1);
    match id {
        None => (DefView::Error(span), p2),
        Some(id) => {
            let (name, p3) = ident_at(p2);
            match name {
                None => (DefView::Error(span), p3),
                Some(name) => {
                    let p4 = expect_at(p3, TokenView::Other(Token::Is));
                    let (t, p5) = parse_ty(p4);
                    (DefView::Extern(id, name, t, span), p5)
                },
            }
        },
    }
}

/// An import: its path as a string and, after `as`, the name it is bound
/// to; its span is the path's.
pub open spec fn parse_import(p: ParserView) -> (DefView, ParserView) {
    let p1 = expect_at(p, TokenView::Other(Token::Import));
    let span = nth(p1, 0).1;
    let (path, p2) = string_at(p1);
    match path {
        None => (DefView::Error(span), p2),
        Some(path) => if nth(p2, 0).0 == TokenView::Other(Token::As) {
            let (name, p3) = ident_at(advanced(p2));
            (DefView::Import(path, name, span), p3)
        } else {
            (DefView::Import(path, None, span), p2)
        },
    }
}

/// A type alias: `type`, its name, its parameters, `=` and its type.
pub open spec fn parse_alias(p: ParserView) -> (DefView, ParserView) {
    let span = nth(p, 0).1;
    let p1 = expect_at(p, TokenView::Other(Token::Type));
    let (name, p2) = ident_at(p1);
    match name {
        None => (DefView::Error(span), p2),
        Some(name) => {
            let (params, p3) = parse_alias_params(p2, Seq::empty());
            let p4 = expect_at(p3, TokenView::Other(Token::Eq));
            let (t, p5) = parse_ty(p4);
            (DefView::Alias(false, name, params, t, span), p5)
        },
    }
}

/// The parameters of an alias, each a quote and a name, added to `acc`.
pub open spec fn parse_alias_params(p: ParserView, acc: Seq<Option<Seq<char>>>) -> (
    Seq<Option<Seq<char>>>,
    ParserView,
)
    decreases left(p),
{
    if nth(p, 0).0 == TokenView::Other(Token::Quote) && wf(p) {
        let p1 = advanced(p);
        let (name, p2) = ident_at(p1);
        proof {
            lemma_advance(p);
            lemma_advance(p1);
        }
        parse_alias_params(p2, acc.push(name))
    } else {
        (acc, p)
    }
}

/// The type after `is`, when `is` comes next, with the new lines after it
/// skipped.
pub open spec fn parse_is(p: ParserView) -> (Option<TyView>, ParserView) {
    if nth(p, 0).0 == TokenView::Other(Token::Is) {
        let (t, p1) = parse_ty(advanced(p));
        (Some(t), take_all_at(p1, TokenView::Other(Token::Newline)))
    } else {
        (None, p)
    }
}

/// Whether a definition starts with `token`.
pub fn is_def(token: Token) -> (r: bool)
    ensures
        r == starts_def(token@),
{
    match token {
        Token::Type | Token::Extern | Token::Import => true,
        _ => false,
    }
}

/// A definition: an extern, an import or a type alias; any other token is
/// reported and skipped.
pub fn def(parser: &mut Parser) -> (r: Def)
    requires
        wf(old(parser)@),
    ensures
        keeps(old(parser)@, final(parser)@),
        (def_view(r), final(parser)@) == parse_def(old(parser)@),
        wf(final(parser)@),
        left(final(parser)@) <= left(old(parser)@),
        nth(old(parser)@, 0).0 != TokenView::Other(Token::Eof) ==> left(final(parser)@) < left(
            old(parser)@,
        ),
{
    proof {
        lemma_advance(parser@);
    }
    match parser.peek() {
        Token::Extern => extern_def(parser),
        Token::Import => import(parser),
        Token::Type => alias(parser),
        _ => {
            let span = parser.expected("definition");
            Def::Error(span)
        },
    }
}

fn extern_def(parser: &mut Parser) -> (r: Def)
    requires
        wf(old(parser)@),
    ensures
        keeps(old(parser)@, final(parser)@),
        (def_view(r), final(parser)@) == parse_extern(old(parser)@),
        wf(final(parser)@),
        left(final(parser)@) <= left(old(parser)@),
        nth(old(parser)@, 0).0 == TokenView::Other(Token::Extern) ==> left(final(parser)@) < left(
            old(parser)@,
        ),
{
    proof {
        lemma_advance(parser@);
    }
    let span = parser.expect(Token::Extern);
    proof {
        lemma_advance(parser@);
    }
    let id = match parser.expect_string() {
        Some(id) => id,
        None => {
            return Def::Error(span);
        },
    };
    proof {
        lemma_advance(parser@);
    }
    let name = match parser.expect_ident() {
        Some(name) => name,
        None => {
            return Def::Error(span);
        },
    };
    proof {
        lemma_advance(parser@);
    }
    parser.expect(Token::Is);
    let ty = ty(parser);
    Def::Extern(ExternDef { id, name, ty, span })
}

fn import(parser: &mut Parser) -> (r: Def)
    requires
        wf(old(parser)@),
    ensures
        keeps(old(parser)@, final(parser)@),
        (def_view(r), final(parser)@) == parse_import(old(parser)@),
        wf(final(parser)@),
        left(final(parser)@) <= left(old(parser)@),
        nth(old(parser)@, 0).0 == TokenView::Other(Token::Import) ==> left(final(parser)@) < left(
            old(parser)@,
        ),
{
    proof {
        lemma_advance(parser@);
    }
    parser.expect(Token::Import);
    let span = parser.span();
    proof {
        lemma_advance(parser@);
    }
    let path = match parser.expect_string() {
        Some(path) => path,
        None => {
            return Def::Error(span);
        },
    };
    proof {
        lemma_advance(parser@);
    }
    let name = if parser.take(Token::As) {
        proof {
            lemma_advance(parser@);
        }
        parser.expect_ident()
    } else {
        None
    };
    Def::Import(ImportDef { path, name, span })
}

fn alias(parser: &mut Parser) -> (r: Def)
    requires
        wf(old(parser)@),
    ensures
        keeps(old(parser)@, final(parser)@),
        (def_view(r), final(parser)@) == parse_alias(old(parser)@),
        wf(final(parser)@),
        left(final(parser)@) <= left(old(parser)@),
        nth(old(parser)@, 0).0 == TokenView::Other(Token::Type) ==> left(final(parser)@) < left(
            old(parser)@,
        ),
{
    proof {
        lemma_advance(parser@);
    }
    let span = parser.expect(Token::Type);
    proof {
        lemma_advance(parser@);
    }
    let name = match parser.expect_ident() {
        Some(name) => name,
        None => {
            return Def::Error(span);
        },
    };
    let params = alias_params(parser);
    proof {
        lemma_advance(parser@);
    }
    parser.expect(Token::Eq);
    let ty = ty(parser);
    Def::Alias(AliasDef { is_local: false, name, params, ty, span })
}

fn alias_params(parser: &mut Parser) -> (r: Vec<Option<&'static str>>)
    requires
        wf(old(parser)@),
    ensures
        keeps(old(parser)@, final(parser)@),
        (names_view(r@), final(parser)@) == parse_alias_params(old(parser)@, Seq::empty()),
        wf(final(parser)@),
        left(final(parser)@) <= left(old(parser)@),
{
    let ghost p = parser@;
    let mut args: Vec<Option<&'static str>> = Vec::new();
    assert(names_view(args@) =~= Seq::<Option<Seq<char>>>::empty());
    while parser.is(Token::Quote)
        invariant
            wf(parser@),
            keeps(old(parser)@, parser@),
            left(parser@) <= left(p),
            parse_alias_params(parser@, names_view(args@)) == parse_alias_params(p, Seq::empty()),
        decreases left(parser@),
    {
        let ghost acc = names_view(args@);
        proof {
            lemma_advance(parser@);
        }
        parser.consume();
        proof {
            lemma_advance(parser@);
        }
        let name = parser.expect_ident();
        args.push(name);
        assert(names_view(args@) =~= acc.push(name_view(name)));
    }
    args
}

/// The type after `is`, when `is` comes next, with the new lines after it
/// skipped.
pub fn is(parser: &mut Parser) -> (r: Option<Ty>)
    requires
        wf(old(parser)@),
    ensures
        keeps(old(parser)@, final(parser)@),
        (match r {
            Some(t) => Some(ty_view(t)),
            None => None,
        }, final(parser)@) == parse_is(old(parser)@),
        wf(final(parser)@),
        left(final(parser)@) <= left(old(parser)@),
        nth(old(parser)@, 0).0 == TokenView::Other(Token::Is) ==> left(final(parser)@) < left(
            old(parser)@,
        ),
{
    if parser.take(Token::Is) {
        proof {
            lemma_advance(old(parser)@);
        }
        let ty = ty(parser);
        proof {
            crate::parse::ty::lemma_take_all(parser@, TokenView::Other(Token::Newline));
        }
        parser.take_all(Token::Newline);
        Some(ty)
    } else {
        None
    }
}

/// A global binding: its type after `is`, a pattern, parameters, `<-` or
/// `=`, and an expression; its span is the pattern's.
pub open spec fn parse_global(p: ParserView) -> (ModuleDefView, ParserView) {
    let (ty, p1) = parse_is(p);
    let (pat, p2) = parse_pat(p1);
    let (params, p3) = parse_pats(p2, Seq::empty());
    let p4 = if at(p3, Token::LeftArrow) {
        advanced(p3)
    } else {
        expect_at(p3, TokenView::Other(Token::Eq))
    };
    let (e, p5) = parse_expr(p4);
    (
        ModuleDefView::Global(
            GlobalView { is_local: false, ty, pat, params, expr: e, span: pat_view_span(pat) },
        ),
        p5,
    )
}

/// A definition at the top of a module: a definition, or a global binding
/// when a pattern or `is` comes first; any other token is reported and
/// skipped.
pub open spec fn parse_module_def(p: ParserView) -> (ModuleDefView, ParserView) {
    let (t, span) = nth(p, 0);
    if starts_def(t) {
        let (d, p1) = parse_def(p);
        (ModuleDefView::Def(d), p1)
    } else if starts_pat(t) || t == TokenView::Other(Token::Is) {
        parse_global(p)
    } else {
        (ModuleDefView::Def(DefView::Error(span)), expected_at(p, "definition"@))
    }
}

/// The definitions of a module, each with the new lines after it, up to
/// the end of file, added to `acc`.
pub open spec fn parse_module_defs(p: ParserView, acc: Seq<ModuleDefView>) -> (
    Seq<ModuleDefView>,
    ParserView,
)
    decreases left(p),
{
    if !at(p, Token::Eof) {
        let (d, p1) = parse_module_def(p);
        let p2 = skip_newlines(p1);
        if left(p2) < left(p) {
            parse_module_defs(p2, acc.push(d))
        } else {
            (acc.push(d), p2)
        }
    } else {
        (acc, p)
    }
}

/// A file: the definitions of a module, after the new lines it starts with.
pub open spec fn parse_file(p: ParserView) -> (Seq<ModuleDefView>, ParserView) {
    parse_module_defs(skip_newlines(p), Seq::empty())
}

/// The definitions of a file. Whatever the tokens, every one of them is
/// read: the parser ends at the end of the file, with each diagnostic it
/// held before still in its place.
pub fn file(parser: &mut Parser) -> (r: Vec<ModuleDef>)
    requires
        wf(old(parser)@),
    ensures
        keeps(old(parser)@, final(parser)@),
        (module_defs_view(r@), final(parser)@) == parse_file(old(parser)@),
        wf(final(parser)@),
        at(final(parser)@, Token::Eof),
{
    let mut defs: Vec<ModuleDef> = Vec::new();
    proof {
        crate::parse::ty::lemma_take_all(parser@, TokenView::Other(Token::Newline));
    }
    parser.take_all(Token::Newline);
    let ghost p = parser@;
    assert(module_defs_view(defs@) =~= Seq::<ModuleDefView>::empty());
    while !parser.is(Token::Eof)
        invariant
            wf(parser@),
            keeps(old(parser)@, parser@),
            parse_module_defs(parser@, module_defs_view(defs@)) == parse_module_defs(
                p,
                Seq::empty(),
            ),
        decreases left(parser@),
    {
        let ghost acc = module_defs_view(defs@);
        let d = module_def(parser);
        proof {
            crate::parse::ty::lemma_take_all(parser@, TokenView::Other(Token::Newline));
        }
        parser.take_all(Token::Newline);
        let ghost v = module_def_view(d);
        defs.push(d);
        assert(module_defs_view(defs@) =~= acc.push(v));
    }
    defs
}

/// A definition at the top of a module: a definition, or a global binding
/// when a pattern or `is` comes first; any other token is reported and
/// skipped.
pub fn module_def(parser: &mut Parser) -> (r: ModuleDef)
    requires
        wf(old(parser)@),
    ensures
        keeps(old(parser)@, final(parser)@),
        (module_def_view(r), final(parser)@) == parse_module_def(old(parser)@),
        wf(final(parser)@),
        left(final(parser)@) <= left(old(parser)@),
        nth(old(parser)@, 0).0 != TokenView::Other(Token::Eof) ==> left(final(parser)@) < left(
            old(parser)@,
        ),
{
    let token = parser.peek();
    if is_def(token) {
        ModuleDef::Def(def(parser))
    } else if is_pat(token) || token == Token::Is {
        global(parser)
    } else {
        proof {
            lemma_advance(parser@);
        }
        let span = parser.expected("definition");
        ModuleDef::Def(Def::Error(span))
    }
}

fn global(parser: &mut Parser) -> (r: ModuleDef)
    requires
        wf(old(parser)@),
        starts_pat(nth(old(parser)@, 0).0) || at(old(parser)@, Token::Is),
    ensures
        keeps(old(parser)@, final(parser)@),
        (module_def_view(r), final(parser)@) == parse_global(old(parser)@),
        wf(final(parser)@),
        left(final(parser)@) < left(old(parser)@),
{
    let ty = is(parser);
    let pat = pat(parser);
    let params = pats(parser);
    proof {
        lemma_advance(parser@);
    }
    let is_bind = parser.take(Token::LeftArrow);
    if !is_bind {
        proof {
            lemma_advance(parser@);
        }
        parser.expect(Token::Eq);
    }
    let e = expr(parser);
    let span = pat.span();
    ModuleDef::Global(GlobalDef { is_local: false, ty, pat, params, expr: e, span })
}

} // verus!
