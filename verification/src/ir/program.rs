//! A lowered program: the arenas of everything it defines.
use std::collections::HashMap;

use vstd::prelude::*;

use crate::arena::Arena;
use crate::ir::{Alias, Bound, Extern, Global, Scope, Ty, Var};

verus! {

/// A lowered program.
#[derive(Debug)]
pub struct Program {
    pub externs: Arena<Extern>,
    pub globals: Arena<Global>,
    pub scopes: Arena<Scope>,
    pub vars: Arena<Var>,
    pub aliases: Arena<Alias>,
    pub bounds: Arena<Bound>,
    /// The type each solved bound stands for, keyed by the bound's index.
    pub subst: HashMap<usize, Ty>,
}

} // verus!
