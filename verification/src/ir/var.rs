//! Variables.
use vstd::prelude::*;

use crate::arena::Id;
use crate::diagnostic::Span;
use crate::ir::{Extern, Global, Ty};

verus! {

#[derive(Clone, Copy, Debug)]
pub enum VarKind {
    Global(Id<Global>),
    Extern(Id<Extern>),
    Local,
}

#[derive(Debug)]
pub struct Var {
    pub kind: VarKind,
    pub name: &'static str,
    pub ty: Ty,
    pub span: Span,
}

} // verus!
