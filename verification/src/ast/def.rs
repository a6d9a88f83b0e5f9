//! Definitions as written in source.
use vstd::prelude::*;

use crate::ast::expr::{expr_view, opt_ty_view, ExprView};
use crate::ast::pat::{pat_view, pats_view, PatView};
use crate::ast::ty::{name_view, ty_view, TyView};
use crate::ast::{Expr, Pat, Ty};
use crate::diagnostic::Span;

verus! {

#[derive(Debug)]
pub enum ModuleDef {
    Def(Def),
    Global(GlobalDef),
}

impl ModuleDef {
    pub fn as_global(&self) -> (r: Option<&GlobalDef>)
        ensures
            match *self {
                Self::Global(def) => r == Some(&def),
                _ => r is None,
            },
    {
        match self {
            Self::Global(def) => Some(def),
            _ => None,
        }
    }

    pub fn as_def(&self) -> (r: Option<&Def>)
        ensures
            match *self {
                Self::Def(def) => r == Some(&def),
                _ => r is None,
            },
    {
        match self {
            Self::Def(def) => Some(def),
            _ => None,
        }
    }
}

#[derive(Debug)]
pub enum Def {
    Import(ImportDef),
    Extern(ExternDef),
    Alias(AliasDef),
    Error(Span),
}

impl Def {
    pub fn as_import(&self) -> (r: Option<&ImportDef>)
        ensures
            match *self {
                Self::Import(def) => r == Some(&def),
                _ => r is None,
            },
    {
        match self {
            Self::Import(def) => Some(def),
            _ => None,
        }
    }

    pub fn as_extern(&self) -> (r: Option<&ExternDef>)
        ensures
            match *self {
                Self::Extern(def) => r == Some(&def),
                _ => r is None,
            },
    {
        match self {
            Self::Extern(def) => Some(def),
            _ => None,
        }
    }

    pub fn as_alias(&self) -> (r: Option<&AliasDef>)
        ensures
            match *self {
                Self::Alias(def) => r == Some(&def),
                _ => r is None,
            },
    {
        match self {
            Self::Alias(def) => Some(def),
            _ => None,
        }
    }
}

#[derive(Debug)]
pub struct ImportDef {
    pub path: &'static str,
    pub name: Option<&'static str>,
    pub span: Span,
}

#[derive(Debug)]
pub struct ExternDef {
    pub id: &'static str,
    pub name: &'static str,
    pub ty: Ty,
    pub span: Span,
}

#[derive(Debug)]
pub struct AliasDef {
    pub is_local: bool,
    pub name: &'static str,
    pub params: Vec<Option<&'static str>>,
    pub ty: Ty,
    pub span: Span,
}

#[derive(Debug)]
pub struct GlobalDef {
    pub is_local: bool,
    pub ty: Option<Ty>,
    pub pat: Pat,
    pub params: Vec<Pat>,
    pub expr: Expr,
    pub span: Span,
}

/// A definition as plain values.
pub enum DefView {
    Import(Seq<char>, Option<Seq<char>>, Span),
    Extern(Seq<char>, Seq<char>, TyView, Span),
    Alias(bool, Seq<char>, Seq<Option<Seq<char>>>, TyView, Span),
    Error(Span),
}

pub open spec fn names_view(s: Seq<Option<&'static str>>) -> Seq<Option<Seq<char>>> {
    s.map_values(|n: Option<&'static str>| name_view(n))
}

pub open spec fn def_view(d: Def) -> DefView {
    match d {
        Def::Import(x) => DefView::Import(x.path@, name_view(x.name), x.span),
        Def::Extern(x) => DefView::Extern(x.id@, x.name@, ty_view(x.ty), x.span),
        Def::Alias(x) => DefView::Alias(x.is_local, x.name@, names_view(x.params@), ty_view(x.ty), x.span),
        Def::Error(span) => DefView::Error(span),
    }
}

/// A global binding as plain values.
pub struct GlobalView {
    pub is_local: bool,
    pub ty: Option<TyView>,
    pub pat: PatView,
    pub params: Seq<PatView>,
    pub expr: ExprView,
    pub span: Span,
}

/// A definition at the top of a module as plain values.
pub enum ModuleDefView {
    Def(DefView),
    Global(GlobalView),
}

pub open spec fn module_def_view(d: ModuleDef) -> ModuleDefView {
    match d {
        ModuleDef::Def(d) => ModuleDefView::Def(def_view(d)),
        ModuleDef::Global(g) => ModuleDefView::Global(
            GlobalView {
                is_local: g.is_local,
                ty: opt_ty_view(g.ty),
                pat: pat_view(g.pat),
                params: pats_view(g.params@),
                expr: expr_view(g.expr),
                span: g.span,
            },
        ),
    }
}

pub open spec fn module_defs_view(s: Seq<ModuleDef>) -> Seq<ModuleDefView> {
    s.map_values(|d: ModuleDef| module_def_view(d))
}

} // verus!
