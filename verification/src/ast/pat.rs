//! Patterns as written in source.
use vstd::prelude::*;

use crate::diagnostic::Span;

verus! {

#[derive(Debug)]
pub enum Pat {
    Paren(ParenPat),
    Wild(WildPat),
    Bind(BindPat),
    Str(StrPat),
    Cons(ConsPat),
    List(ListPat),
    Tuple(TuplePat),
    Variant(VariantPat),
    Error(Span),
}

#[derive(Debug)]
pub struct ParenPat {
    pub pat: Box<Pat>,
    pub span: Span,
}

#[derive(Debug)]
pub struct WildPat {
    pub span: Span,
}

#[derive(Debug)]
pub struct BindPat {
    pub name: &'static str,
    pub span: Span,
}

#[derive(Debug)]
pub struct StrPat {
    pub string: &'static str,
    pub span: Span,
}

#[derive(Debug)]
pub struct ConsPat {
    pub first: Box<Pat>,
    pub rest: Box<Pat>,
    pub span: Span,
}

#[derive(Debug)]
pub struct ListPat {
    pub span: Span,
}

#[derive(Debug)]
pub struct TuplePat {
    pub fields: Vec<Pat>,
    pub span: Span,
}

#[derive(Debug)]
pub struct VariantPat {
    pub name: Option<&'static str>,
    pub pat: Option<Box<Pat>>,
    pub span: Span,
}


/// A pattern as plain values.
pub enum PatView {
    Paren(Box<PatView>, Span),
    Wild(Span),
    Bind(Seq<char>, Span),
    Str(Seq<char>, Span),
    Cons(Box<PatView>, Box<PatView>, Span),
    List(Span),
    Tuple(Seq<PatView>, Span),
    Variant(Option<Seq<char>>, Option<Box<PatView>>, Span),
    Error(Span),
}

pub open spec fn pat_view(p: Pat) -> PatView
    decreases p, 0nat,
{
    match p {
        Pat::Paren(x) => PatView::Paren(Box::new(pat_view(*x.pat)), x.span),
        Pat::Wild(x) => PatView::Wild(x.span),
        Pat::Bind(x) => PatView::Bind(x.name@, x.span),
        Pat::Str(x) => PatView::Str(x.string@, x.span),
        Pat::Cons(x) => PatView::Cons(Box::new(pat_view(*x.first)), Box::new(pat_view(*x.rest)), x.span),
        Pat::List(x) => PatView::List(x.span),
        Pat::Tuple(x) => PatView::Tuple(pats_view(x.fields@), x.span),
        Pat::Variant(x) => PatView::Variant(
            match x.name {
                Some(name) => Some(name@),
                None => None,
            },
            match x.pat {
                Some(b) => Some(Box::new(pat_view(*b))),
                None => None,
            },
            x.span,
        ),
        Pat::Error(span) => PatView::Error(span),
    }
}

pub open spec fn pats_view(s: Seq<Pat>) -> Seq<PatView>
    decreases s, 1nat,
{
    Seq::new(
        s.len(),
        |i: int|
            if 0 <= i < s.len() {
                pat_view(s[i])
            } else {
                PatView::Error(Span { file: crate::diagnostic::FileId { index: 0 }, start: 0, end: 0 })
            },
    )
}

/// Where a pattern was written.
pub open spec fn pat_view_span(p: PatView) -> Span {
    match p {
        PatView::Paren(_, span) => span,
        PatView::Wild(span) => span,
        PatView::Bind(_, span) => span,
        PatView::Str(_, span) => span,
        PatView::Cons(_, _, span) => span,
        PatView::List(span) => span,
        PatView::Tuple(_, span) => span,
        PatView::Variant(_, _, span) => span,
        PatView::Error(span) => span,
    }
}

impl Pat {
    /// Where the pattern was written.
    pub open spec fn spec_span(self) -> Span {
        match self {
            Pat::Paren(pat) => pat.span,
            Pat::Wild(pat) => pat.span,
            Pat::Bind(pat) => pat.span,
            Pat::Str(pat) => pat.span,
            Pat::Cons(pat) => pat.span,
            Pat::List(pat) => pat.span,
            Pat::Tuple(pat) => pat.span,
            Pat::Variant(pat) => pat.span,
            Pat::Error(span) => span,
        }
    }

    pub fn span(&self) -> (r: Span)
        ensures
            r == self.spec_span(),
            r == pat_view_span(pat_view(*self)),
    {
        match self {
            Pat::Paren(pat) => pat.span,
            Pat::Wild(pat) => pat.span,
            Pat::Bind(pat) => pat.span,
            Pat::Str(pat) => pat.span,
            Pat::Cons(pat) => pat.span,
            Pat::List(pat) => pat.span,
            Pat::Tuple(pat) => pat.span,
            Pat::Variant(pat) => pat.span,
            Pat::Error(span) => *span,
        }
    }
}

} // verus!
