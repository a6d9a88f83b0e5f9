//! Visibility of names in scopes.
use vstd::prelude::*;

use crate::arena::Id;
use crate::ir::{Alias, Global, Var};

verus! {

/// What introduced a scope.
#[derive(Clone, Copy, Debug)]
pub enum ScopeKind {
    Block,
    Bind,
    Lambda,
    Module,
    Global(Id<Global>),
}

/// A module made visible in a scope, under a name or with its names merged in.
#[derive(Debug)]
pub struct Import {
    pub name: Option<&'static str>,
    pub scope: Id<Scope>,
}

/// A scope: what it belongs to, where it is nested, and the names it holds.
#[derive(Debug)]
pub struct Scope {
    pub kind: ScopeKind,
    pub parent: Option<Id<Scope>>,
    pub imports: Vec<Import>,
    pub aliases: Vec<Visible<Alias>>,
    pub vars: Vec<Visible<Var>>,
    pub captures: Vec<Id<Var>>,
}

impl Scope {
    /// An empty scope.
    pub fn new(kind: ScopeKind, parent: Option<Id<Scope>>) -> (r: Self)
        ensures
            r.kind == kind,
            r.parent == parent,
            r.imports@.len() == 0,
            r.aliases@.len() == 0,
            r.vars@.len() == 0,
            r.captures@.len() == 0,
    {
        Scope {
            kind,
            parent,
            imports: Vec::new(),
            aliases: Vec::new(),
            vars: Vec::new(),
            captures: Vec::new(),
        }
    }
}

/// Whether a name is seen only where it is defined or also by importers.
#[derive(Clone, Copy, Debug, PartialEq, Eq, Structural, PartialOrd, Ord, Hash)]
pub enum Visibility {
    Local,
    Global,
}

/// A name in a scope with its visibility.
#[derive(Debug)]
pub struct Visible<T> {
    pub id: Id<T>,
    pub vis: Visibility,
}

impl<T> Clone for Visible<T> {
    fn clone(&self) -> (r: Self)
        ensures
            r == *self,
    {
        Visible { id: self.id, vis: self.vis }
    }
}

impl<T> Copy for Visible<T> {

}

impl<T> Visible<T> {
    pub fn new(id: Id<T>, vis: Visibility) -> (r: Self)
        ensures
            r.id == id,
            r.vis == vis,
    {
        Self { id, vis }
    }

    pub fn global(id: Id<T>) -> (r: Self)
        ensures
            r.id == id,
            r.vis == Visibility::Global,
    {
        Self::new(id, Visibility::Global)
    }

    pub fn local(id: Id<T>) -> (r: Self)
        ensures
            r.id == id,
            r.vis == Visibility::Local,
    {
        Self::new(id, Visibility::Local)
    }

    pub fn is_global(&self) -> (r: bool)
        ensures
            r == (self.vis == Visibility::Global),
    {
        matches!(self.vis, Visibility::Global)
    }
}

/// A visible name reads as the id it names.
impl<T> std::ops::Deref for Visible<T> {
    type Target = Id<T>;

    fn deref(&self) -> (r: &Id<T>)
        ensures
            *r == self.id,
    {
        &self.id
    }
}

} // verus!
