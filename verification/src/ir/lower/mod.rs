//! What lowering keeps about types while it works.
pub mod ty;

pub use ty::{BoundsInfo, Generic, Generics};
