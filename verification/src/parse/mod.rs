//! Parsing: from tokens to the syntax tree.
pub mod def;
pub mod laws;
pub mod expr;
pub mod parser;
pub mod pat;
pub mod ty;

pub use parser::{Parser, ParserView};
pub use def::{def, is, is_def, module_def};
pub use expr::{expr, is_expr};
pub use pat::{is_pat, pat, pats};
pub use ty::{is_ty, ty};
