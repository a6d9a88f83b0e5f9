//! The types of the mid-level representation.
use std::rc::Rc;

use vstd::prelude::*;

verus! {

/// A type.
#[derive(Debug)]
pub enum Ty {
    Str,
    Nat,
    Int,
    Real,
    Bool,
    Tuple(Rc<Vec<Ty>>),
    Record(Rc<Vec<(&'static str, Ty)>>),
    Union(Rc<Vec<(&'static str, Ty)>>),
    Action(Rc<Ty>),
    Lambda(Rc<Ty>, Rc<Ty>),
    Boxed(usize),
}

impl Ty {
    /// The unit type: the record with no fields.
    pub fn unit() -> (r: Self)
        ensures
            r matches Ty::Record(fields) && fields@.len() == 0,
    {
        Ty::Record(Rc::new(Vec::new()))
    }

    /// The type of actions that produce `output`.
    pub fn action(output: Self) -> (r: Self)
        ensures
            r matches Ty::Action(o) && *o == output,
    {
        Ty::Action(Rc::new(output))
    }
}

} // verus!
