//! The intermediate representation: types, patterns, expressions, scopes
//! and variables, the checking of `match` arms, and a printer.
pub mod checking;
pub mod constant;
pub mod exhaust;
pub mod exhaust_laws;
pub mod usefulness;
pub mod expr;
pub mod host;
pub mod lower;
pub mod opening;
pub mod global;
pub mod pat;
pub mod program;
pub mod scope;
pub mod ty;
pub mod value;
pub mod var;
pub mod writer;

pub use expr::{
    Arm, BinOp, BinaryExpr, BindExpr, CallExpr, ConsExpr, EmptyExpr, Expr, ExprField, FieldExpr,
    Intrinsic, IntrinsicExpr, LambdaExpr, LetExpr, MatchExpr, PureExpr, RecordExpr, TupleExpr,
    UnOp, UnaryExpr, ValueExpr, VarExpr, VariantExpr, WithExpr,
};
pub use constant::{Const, ConstKind};
pub use global::Global;
pub use program::Program;
pub use pat::{BindPat, ErrorPat, Pat, StrPat, TuplePat, VariantPat, WildPat};
pub use host::Extern;
pub use scope::{Import, Scope, ScopeKind, Visibility, Visible};
pub use ty::{
    Alias, AliasTy, Bound, GenericTy, LambdaTy, Numeric, RecordTy, Ty, TyField, UnionTy, Variant,
};
pub use value::Value;
pub use var::{Var, VarKind};
