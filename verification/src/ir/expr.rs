//! Expressions of the intermediate representation.
use vstd::prelude::*;

use crate::arena::Id;
use crate::ir::ty::{clone_ty, ty_view, TyView};
use crate::ir::{Pat, Scope, Ty, Value, Var};

verus! {

#[derive(Debug)]
pub enum Expr {
    Value(ValueExpr),
    Var(VarExpr),
    Let(LetExpr),
    Bind(BindExpr),
    Pure(PureExpr),
    Call(CallExpr),
    With(WithExpr),
    Field(FieldExpr),
    Lambda(LambdaExpr),
    Cons(ConsExpr),
    Empty(EmptyExpr),
    Variant(VariantExpr),
    Record(RecordExpr),
    Unary(UnaryExpr),
    Binary(BinaryExpr),
    Tuple(TupleExpr),
    Match(MatchExpr),
    Intrinsic(IntrinsicExpr),
    Error(Ty),
}

#[derive(Debug)]
pub struct ValueExpr {
    pub value: Value,
    pub ty: Ty,
}

#[derive(Debug)]
pub struct VarExpr {
    pub var: Id<Var>,
    pub ty: Ty,
}

#[derive(Debug)]
pub struct LetExpr {
    pub input: Box<Expr>,
    pub pat: Pat,
    pub output: Box<Expr>,
}

#[derive(Debug)]
pub struct BindExpr {
    pub scope: Id<Scope>,
    pub input: Box<Expr>,
    pub pat: Pat,
    pub output: Box<Expr>,
}

#[derive(Debug)]
pub struct PureExpr {
    pub input: Box<Expr>,
    pub ty: Ty,
}

#[derive(Debug)]
pub struct CallExpr {
    pub lambda: Box<Expr>,
    pub input: Box<Expr>,
    pub ty: Ty,
}

#[derive(Debug)]
pub struct WithExpr {
    pub input: Box<Expr>,
    pub fields: Vec<ExprField>,
    pub ty: Ty,
}

#[derive(Debug)]
pub struct FieldExpr {
    pub input: Box<Expr>,
    pub name: &'static str,
    pub ty: Ty,
}

#[derive(Debug)]
pub struct LambdaExpr {
    pub scope: Id<Scope>,
    pub input: Pat,
    pub output: Box<Expr>,
    pub ty: Ty,
}

#[derive(Debug)]
pub struct ConsExpr {
    pub item: Box<Expr>,
    pub list: Box<Expr>,
    pub ty: Ty,
}

#[derive(Debug)]
pub struct EmptyExpr {
    pub ty: Ty,
}

#[derive(Debug)]
pub struct VariantExpr {
    pub name: &'static str,
    pub payload: Option<Box<Expr>>,
    pub ty: Ty,
}

#[derive(Debug)]
pub struct RecordExpr {
    pub fields: Vec<ExprField>,
    pub ty: Ty,
}

#[derive(Debug)]
pub struct ExprField {
    pub name: &'static str,
    pub expr: Expr,
}

#[derive(Debug)]
pub struct UnaryExpr {
    pub op: UnOp,
    pub input: Box<Expr>,
    pub ty: Ty,
}

#[derive(Clone, Copy, Debug, PartialEq, Eq, Structural, PartialOrd, Ord, Hash)]
pub enum UnOp {
    Nat,
    Int,
    Real,
    Not,
}

#[derive(Debug)]
pub struct BinaryExpr {
    pub op: BinOp,
    pub lhs: Box<Expr>,
    pub rhs: Box<Expr>,
    pub ty: Ty,
}

#[derive(Clone, Copy, Debug, PartialEq, Eq, Structural, PartialOrd, Ord, Hash)]
pub enum BinOp {
    Add,
    Sub,
    Mul,
    Div,
    Gt,
    Lt,
    Ge,
    Le,
    Eq,
    Ne,
    And,
    Or,
}

#[derive(Debug)]
pub struct TupleExpr {
    pub fields: Vec<Expr>,
    pub ty: Ty,
}

#[derive(Debug)]
pub struct MatchExpr {
    pub input: Box<Expr>,
    pub arms: Vec<Arm>,
    pub ty: Ty,
}

#[derive(Debug)]
pub struct Arm {
    pub pat: Pat,
    pub expr: Expr,
}

#[derive(Debug)]
pub struct IntrinsicExpr {
    pub intrinsic: Intrinsic,
    pub inputs: Vec<Expr>,
    pub ty: Ty,
}

#[derive(Clone, Copy, Debug, PartialEq, Eq, Structural, PartialOrd, Ord, Hash)]
pub enum Intrinsic {
    Dynamic,

    Trace,

    FormatNat,
    FormatInt,
    FormatReal,

    HashStr,
    HashNat,
    HashInt,
    HashReal,

    NatXor,

    StrLength,
    StrPrepend,
    StrSplitAt,
    StrFind,
}


impl Expr {
    /// The unit value: the record with no fields.
    pub fn unit() -> (r: Self)
        ensures
            r matches Expr::Record(rec) && rec.fields@.len() == 0 && (rec.ty matches Ty::Record(t)
                && t.fields@.len() == 0),
    {
        Expr::Record(RecordExpr { fields: Vec::new(), ty: Ty::unit() })
    }

    /// The type of the expression's value: that of the body of a `let` or
    /// a bind, the annotated type otherwise.
    pub open spec fn spec_ty(self) -> TyView
        decreases self,
    {
        match self {
            Expr::Value(expr) => ty_view(expr.ty),
            Expr::Var(expr) => ty_view(expr.ty),
            Expr::Let(expr) => expr.output.spec_ty(),
            Expr::Bind(expr) => expr.output.spec_ty(),
            Expr::Pure(expr) => ty_view(expr.ty),
            Expr::Call(expr) => ty_view(expr.ty),
            Expr::With(expr) => ty_view(expr.ty),
            Expr::Field(expr) => ty_view(expr.ty),
            Expr::Lambda(expr) => ty_view(expr.ty),
            Expr::Cons(expr) => ty_view(expr.ty),
            Expr::Empty(expr) => ty_view(expr.ty),
            Expr::Variant(expr) => ty_view(expr.ty),
            Expr::Record(expr) => ty_view(expr.ty),
            Expr::Unary(expr) => ty_view(expr.ty),
            Expr::Binary(expr) => ty_view(expr.ty),
            Expr::Tuple(expr) => ty_view(expr.ty),
            Expr::Match(expr) => ty_view(expr.ty),
            Expr::Intrinsic(expr) => ty_view(expr.ty),
            Expr::Error(ty) => ty_view(ty),
        }
    }

    /// The type of the expression's value.
    pub fn ty(&self) -> (r: Ty)
        ensures
            ty_view(r) == self.spec_ty(),
        decreases self,
    {
        match self {
            Expr::Value(expr) => clone_ty(&expr.ty),
            Expr::Var(expr) => clone_ty(&expr.ty),
            Expr::Let(expr) => expr.output.ty(),
            Expr::Bind(expr) => expr.output.ty(),
            Expr::Pure(expr) => clone_ty(&expr.ty),
            Expr::Call(expr) => clone_ty(&expr.ty),
            Expr::With(expr) => clone_ty(&expr.ty),
            Expr::Field(expr) => clone_ty(&expr.ty),
            Expr::Lambda(expr) => clone_ty(&expr.ty),
            Expr::Cons(expr) => clone_ty(&expr.ty),
            Expr::Empty(expr) => clone_ty(&expr.ty),
            Expr::Variant(expr) => clone_ty(&expr.ty),
            Expr::Record(expr) => clone_ty(&expr.ty),
            Expr::Unary(expr) => clone_ty(&expr.ty),
            Expr::Binary(expr) => clone_ty(&expr.ty),
            Expr::Tuple(expr) => clone_ty(&expr.ty),
            Expr::Match(expr) => clone_ty(&expr.ty),
            Expr::Intrinsic(expr) => clone_ty(&expr.ty),
            Expr::Error(ty) => clone_ty(ty),
        }
    }
}

} // verus!
