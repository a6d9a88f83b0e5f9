//! Global definitions.
use vstd::prelude::*;

use crate::ir::{Expr, Pat};

verus! {

#[derive(Debug)]
pub struct Global {
    pub pat: Pat,
    pub expr: Expr,
}

} // verus!
