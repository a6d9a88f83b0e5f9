//! Constants: values and lambdas bound once at the top level.
use vstd::prelude::*;

use crate::ir::{Expr, Pat};

verus! {

/// Whether a constant binds a plain value or a lambda.
#[derive(Clone, Copy, Debug, PartialEq, Eq, Hash)]
pub enum ConstKind {
    Value,
    Lambda,
}

/// A constant: a pattern bound to an expression.
#[derive(Debug)]
pub struct Const {
    pub kind: ConstKind,
    pub pat: Pat,
    pub expr: Expr,
}

} // verus!
