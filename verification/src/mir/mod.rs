//! The mid-level representation: types and expressions as the back end
//! sees them.
pub mod expr;
pub mod ty;
pub mod writer;

pub use expr::{Bind, Constant, Constructor, Entry, Expr, Extern, Global, Intrinsic, Lambda, Let, Local};
pub use ty::Ty;
