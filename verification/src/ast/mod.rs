//! The syntax tree that the parser produces.
pub mod def;
pub mod expr;
pub mod pat;
pub mod ty;

pub use def::{AliasDef, Def, ExternDef, GlobalDef, ImportDef, ModuleDef};
pub use expr::{
    Arm, BinOp, BindStmt, BinaryExpr, BlockExpr, BlockStmt, CallExpr, DoExpr, DoKind, DoStmt,
    Expr, ExprField, FieldExpr, LambdaExpr, LetStmt, MatchExpr, NamedExpr, NumExpr, ParenExpr,
    RecordExpr, StrExpr, TupleExpr, UnOp, UnaryExpr, VariantExpr, WithExpr,
};
pub use pat::{BindPat, ConsPat, ListPat, ParenPat, Pat, StrPat, TuplePat, VariantPat, WildPat};
pub use ty::{
    AliasTy, GenericTy, LambdaTy, ListTy, MonadTy, ParenTy, RecordTy, TupleTy, Ty, TyField,
    UnionTy, Variant,
};
