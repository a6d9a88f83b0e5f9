//! Types as written in source.
use vstd::prelude::*;

use crate::diagnostic::Span;

verus! {

#[derive(Debug)]
pub enum Ty {
    Nat,
    Int,
    Real,
    Str,
    Paren(ParenTy),
    List(ListTy),
    Lambda(LambdaTy),
    Generic(GenericTy),
    Record(RecordTy),
    Tuple(TupleTy),
    Union(UnionTy),
    Alias(AliasTy),
    Monad(MonadTy),
    Error(Span),
}

#[derive(Debug)]
pub struct ParenTy {
    pub ty: Box<Ty>,
}

#[derive(Debug)]
pub struct ListTy {
    pub item: Box<Ty>,
}

#[derive(Debug)]
pub struct LambdaTy {
    pub input: Box<Ty>,
    pub output: Box<Ty>,
}

#[derive(Debug)]
pub struct GenericTy {
    pub name: &'static str,
    pub span: Span,
}

#[derive(Debug)]
pub struct TupleTy {
    pub fields: Vec<Ty>,
}

#[derive(Debug)]
pub struct UnionTy {
    pub variants: Vec<Variant>,
}

#[derive(Debug)]
pub struct Variant {
    pub name: Option<&'static str>,
    pub payload: Option<Ty>,
    pub span: Span,
}

#[derive(Debug)]
pub struct RecordTy {
    pub fields: Vec<TyField>,
}

#[derive(Debug)]
pub struct TyField {
    pub name: Option<&'static str>,
    pub ty: Ty,
    pub span: Span,
}

#[derive(Debug)]
pub struct AliasTy {
    pub import: Option<&'static str>,
    pub name: &'static str,
    pub args: Vec<Ty>,
    pub span: Span,
}

#[derive(Debug)]
pub struct MonadTy {
    pub ty: Box<Ty>,
}

/// A type as plain values.
pub enum TyView {
    Nat,
    Int,
    Real,
    Str,
    Paren(Box<TyView>),
    List(Box<TyView>),
    Lambda(Box<TyView>, Box<TyView>),
    Generic(Seq<char>, Span),
    Record(Seq<TyFieldView>),
    Tuple(Seq<TyView>),
    Union(Seq<VariantView>),
    Alias(Option<Seq<char>>, Seq<char>, Seq<TyView>, Span),
    Monad(Box<TyView>),
    Error(Span),
}

/// A variant of a union type as plain values.
pub struct VariantView {
    pub name: Option<Seq<char>>,
    pub payload: Option<TyView>,
    pub span: Span,
}

/// A field of a record type as plain values.
pub struct TyFieldView {
    pub name: Option<Seq<char>>,
    pub ty: TyView,
    pub span: Span,
}

pub open spec fn name_view(name: Option<&'static str>) -> Option<Seq<char>> {
    match name {
        Some(n) => Some(n@),
        None => None,
    }
}

pub open spec fn ty_view(t: Ty) -> TyView
    decreases t, 0nat,
{
    match t {
        Ty::Nat => TyView::Nat,
        Ty::Int => TyView::Int,
        Ty::Real => TyView::Real,
        Ty::Str => TyView::Str,
        Ty::Paren(x) => TyView::Paren(Box::new(ty_view(*x.ty))),
        Ty::List(x) => TyView::List(Box::new(ty_view(*x.item))),
        Ty::Lambda(x) => TyView::Lambda(Box::new(ty_view(*x.input)), Box::new(ty_view(*x.output))),
        Ty::Generic(x) => TyView::Generic(x.name@, x.span),
        Ty::Record(x) => TyView::Record(ty_fields_view(x.fields@)),
        Ty::Tuple(x) => TyView::Tuple(tys_view(x.fields@)),
        Ty::Union(x) => TyView::Union(variants_view(x.variants@)),
        Ty::Alias(x) => TyView::Alias(name_view(x.import), x.name@, tys_view(x.args@), x.span),
        Ty::Monad(x) => TyView::Monad(Box::new(ty_view(*x.ty))),
        Ty::Error(span) => TyView::Error(span),
    }
}

pub open spec fn tys_view(s: Seq<Ty>) -> Seq<TyView>
    decreases s, 1nat,
{
    Seq::new(
        s.len(),
        |i: int|
            if 0 <= i < s.len() {
                ty_view(s[i])
            } else {
                TyView::Nat
            },
    )
}

pub open spec fn variant_view(v: Variant) -> VariantView
    decreases v, 0nat,
{
    VariantView {
        name: name_view(v.name),
        payload: match v.payload {
            Some(t) => Some(ty_view(t)),
            None => None,
        },
        span: v.span,
    }
}

pub open spec fn variants_view(s: Seq<Variant>) -> Seq<VariantView>
    decreases s, 1nat,
{
    Seq::new(
        s.len(),
        |i: int|
            if 0 <= i < s.len() {
                variant_view(s[i])
            } else {
                VariantView { name: None, payload: None, span: s[0].span }
            },
    )
}

pub open spec fn ty_field_view(f: TyField) -> TyFieldView
    decreases f, 0nat,
{
    TyFieldView { name: name_view(f.name), ty: ty_view(f.ty), span: f.span }
}

pub open spec fn ty_fields_view(s: Seq<TyField>) -> Seq<TyFieldView>
    decreases s, 1nat,
{
    Seq::new(
        s.len(),
        |i: int|
            if 0 <= i < s.len() {
                ty_field_view(s[i])
            } else {
                TyFieldView { name: None, ty: TyView::Nat, span: s[0].span }
            },
    )
}

} // verus!
