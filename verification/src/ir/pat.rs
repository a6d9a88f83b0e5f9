//! Patterns of the intermediate representation.
use vstd::prelude::*;

use crate::arena::Id;
use crate::diagnostic::Span;
use crate::ir::ty::{clone_ty, ty_view, TyView};
use crate::ir::{Ty, Var};

verus! {

#[derive(Debug)]
pub enum Pat {
    Wild(WildPat),
    Bind(BindPat),
    Str(StrPat),
    Variant(VariantPat),
    Tuple(TuplePat),
    Error(ErrorPat),
}

#[derive(Debug)]
pub struct WildPat {
    pub ty: Ty,
    pub span: Span,
}

#[derive(Debug)]
pub struct BindPat {
    pub var: Id<Var>,
    pub ty: Ty,
    pub span: Span,
}

#[derive(Debug)]
pub struct StrPat {
    pub string: &'static str,
    pub span: Span,
}

#[derive(Debug)]
pub struct VariantPat {
    pub name: &'static str,
    pub payload: Option<Box<Pat>>,
    pub ty: Ty,
    pub span: Span,
}

#[derive(Debug)]
pub struct TuplePat {
    pub fields: Vec<Pat>,
    pub ty: Ty,
    pub span: Span,
}

#[derive(Debug)]
pub struct ErrorPat {
    pub ty: Ty,
    pub span: Span,
}

/// Whether matching `p` can fail: it holds a string somewhere that a value
/// has to equal.
pub open spec fn refutable(p: Pat) -> bool
    decreases p, 0nat, 0nat,
{
    match p {
        Pat::Str(..) => true,
        Pat::Wild(..) | Pat::Bind(..) | Pat::Error(..) => false,
        Pat::Variant(v) => match v.payload {
            Some(b) => refutable(*b),
            None => false,
        },
        Pat::Tuple(t) => any_refutable(t.fields@, 0),
    }
}

/// Whether one of the patterns from the `i`-th on is refutable.
pub open spec fn any_refutable(s: Seq<Pat>, i: nat) -> bool
    decreases s, 1nat, s.len() - i,
{
    if i < s.len() {
        refutable(s[i as int]) || any_refutable(s, i + 1)
    } else {
        false
    }
}

impl Pat {
    /// The type of the values the pattern matches.
    pub open spec fn spec_ty(self) -> TyView {
        match self {
            Pat::Str(..) => TyView::Str,
            Pat::Wild(pat) => ty_view(pat.ty),
            Pat::Bind(pat) => ty_view(pat.ty),
            Pat::Variant(pat) => ty_view(pat.ty),
            Pat::Tuple(pat) => ty_view(pat.ty),
            Pat::Error(pat) => ty_view(pat.ty),
        }
    }

    /// The type of the values the pattern matches.
    pub fn ty(&self) -> (r: Ty)
        ensures
            ty_view(r) == self.spec_ty(),
    {
        match self {
            Pat::Str(..) => Ty::Str,
            Pat::Wild(pat) => clone_ty(&pat.ty),
            Pat::Bind(pat) => clone_ty(&pat.ty),
            Pat::Variant(pat) => clone_ty(&pat.ty),
            Pat::Tuple(pat) => clone_ty(&pat.ty),
            Pat::Error(pat) => clone_ty(&pat.ty),
        }
    }

    /// Whether the pattern matches anything without looking at it.
    pub fn is_wild(&self) -> (r: bool)
        ensures
            r == (self is Wild || self is Bind || self is Error),
    {
        matches!(self, Pat::Wild(..) | Pat::Bind(..) | Pat::Error(..))
    }

    pub open spec fn spec_span(self) -> Span {
        match self {
            Pat::Wild(pat) => pat.span,
            Pat::Bind(pat) => pat.span,
            Pat::Str(pat) => pat.span,
            Pat::Variant(pat) => pat.span,
            Pat::Tuple(pat) => pat.span,
            Pat::Error(pat) => pat.span,
        }
    }

    pub fn span(&self) -> (r: Span)
        ensures
            r == self.spec_span(),
    {
        match self {
            Pat::Wild(pat) => pat.span,
            Pat::Bind(pat) => pat.span,
            Pat::Str(pat) => pat.span,
            Pat::Variant(pat) => pat.span,
            Pat::Tuple(pat) => pat.span,
            Pat::Error(pat) => pat.span,
        }
    }

    /// Whether matching the pattern can fail.
    pub fn is_refutable(&self) -> (r: bool)
        ensures
            r == refutable(*self),
        decreases self,
    {
        match self {
            Pat::Str(..) => true,
            Pat::Wild(..) | Pat::Bind(..) | Pat::Error(..) => false,
            Pat::Variant(pat) => match &pat.payload {
                Some(payload) => payload.is_refutable(),
                None => false,
            },
            Pat::Tuple(pat) => {
                let mut i: usize = pat.fields.len();
                let mut any = false;
                while i > 0
                    invariant
                        *self == Pat::Tuple(*pat),
                        i <= pat.fields@.len(),
                        any == any_refutable(pat.fields@, i as nat),
                    decreases i,
                {
                    i = i - 1;
                    proof {
                        broadcast use vstd::std_specs::vec::group_vec_axioms;
                        assert(decreases_to!(*self => (*self)->Tuple_0));
                        assert(decreases_to!((*self)->Tuple_0 => pat.fields));
                        assert(decreases_to!(*self => pat.fields@[i as int]));
                    }
                    any = pat.fields[i].is_refutable() || any;
                }
                any
            },
        }
    }
}

} // verus!
