//! Constant values.
use vstd::prelude::*;


verus! {

#[derive(Debug)]
pub enum Value {
    /// A number, as its decimal digits without leading zeros.
    Num(&'static str),
    Str(String),
}

} // verus!
