//! Definitions provided by the host.
use vstd::prelude::*;

use crate::ir::Ty;

verus! {

#[derive(Debug)]
pub struct Extern {
    pub id: &'static str,
    pub name: &'static str,
    pub ty: Ty,
}

} // verus!
