//! Expressions as written in source.
use vstd::prelude::*;

use crate::ast::def::{def_view, DefView};
use crate::ast::pat::{pat_view, pats_view, PatView};
use crate::ast::ty::{name_view, ty_view, TyView};
use crate::ast::{Def, Pat, Ty};
use crate::diagnostic::{FileId, Span};

verus! {

#[derive(Debug)]
pub enum Expr {
    Paren(ParenExpr),
    Num(NumExpr),
    Str(StrExpr),
    Named(NamedExpr),
    Field(FieldExpr),
    With(WithExpr),
    Call(CallExpr),
    Lambda(LambdaExpr),
    Variant(VariantExpr),
    Record(RecordExpr),
    Unary(UnaryExpr),
    Binary(BinaryExpr),
    Tuple(TupleExpr),
    Block(BlockExpr),
    Do(DoExpr),
    Match(MatchExpr),
    Error(Span),
}

#[derive(Debug)]
pub struct ParenExpr {
    pub expr: Box<Expr>,
    pub span: Span,
}

#[derive(Debug)]
pub struct NumExpr {
    /// The number's decimal digits, without leading zeros.
    pub number: &'static str,
    pub span: Span,
}

#[derive(Debug)]
pub struct StrExpr {
    pub string: &'static str,
    pub span: Span,
}

#[derive(Debug)]
pub struct NamedExpr {
    pub import: Option<&'static str>,
    pub name: &'static str,
    pub span: Span,
}

#[derive(Debug)]
pub struct FieldExpr {
    pub input: Box<Expr>,
    pub name: Option<&'static str>,
    pub span: Span,
}

#[derive(Debug)]
pub struct WithExpr {
    pub input: Box<Expr>,
    pub fields: Vec<ExprField>,
    pub span: Span,
}

#[derive(Debug)]
pub struct CallExpr {
    pub lambda: Box<Expr>,
    pub input: Box<Expr>,
    pub span: Span,
}

#[derive(Debug)]
pub struct LambdaExpr {
    pub params: Vec<Pat>,
    pub expr: Box<Expr>,
    pub span: Span,
}

#[derive(Debug)]
pub struct VariantExpr {
    pub name: Option<&'static str>,
    pub expr: Option<Box<Expr>>,
    pub span: Span,
}

#[derive(Debug)]
pub struct RecordExpr {
    pub fields: Vec<ExprField>,
    pub span: Span,
}

#[derive(Debug)]
pub struct ExprField {
    pub name: Option<&'static str>,
    pub expr: Expr,
    pub span: Span,
}

#[derive(Debug)]
pub struct TupleExpr {
    pub fields: Vec<Expr>,
    pub span: Span,
}

#[derive(Debug)]
pub struct UnaryExpr {
    pub op: UnOp,
    pub input: Box<Expr>,
    pub span: Span,
}

#[derive(Clone, Copy, Debug, PartialEq, Eq, Structural, PartialOrd, Ord, Hash)]
pub enum UnOp {
    Nat,
    Int,
    Real,
    Not,
}

#[derive(Debug)]
pub struct BinaryExpr {
    pub op: BinOp,
    pub lhs: Box<Expr>,
    pub rhs: Box<Expr>,
    pub span: Span,
}

#[derive(Clone, Copy, Debug, PartialEq, Eq, Structural, PartialOrd, Ord, Hash)]
pub enum BinOp {
    Add,
    Sub,
    Mul,
    Div,
    Gt,
    Lt,
    GtEq,
    LtEq,
    Eq,
    Ne,
    And,
    Or,
}

#[derive(Debug)]
pub struct BlockExpr {
    pub stmts: Vec<BlockStmt>,
    pub expr: Box<Expr>,
    pub span: Span,
}

#[derive(Debug)]
pub enum BlockStmt {
    Def(Def),
    Let(LetStmt),
}

impl BlockStmt {
    pub fn as_def(&self) -> (r: Option<&Def>)
        ensures
            match *self {
                Self::Def(def) => r == Some(&def),
                _ => r is None,
            },
    {
        match self {
            Self::Def(def) => Some(def),
            _ => None,
        }
    }

    pub fn as_let(&self) -> (r: Option<&LetStmt>)
        ensures
            match *self {
                Self::Let(stmt) => r == Some(&stmt),
                _ => r is None,
            },
    {
        match self {
            Self::Let(stmt) => Some(stmt),
            _ => None,
        }
    }
}

#[derive(Debug)]
pub struct LetStmt {
    pub ty: Option<Ty>,
    pub pat: Pat,
    pub params: Vec<Pat>,
    pub expr: Expr,
    pub span: Span,
}

#[derive(Debug)]
pub struct DoExpr {
    pub kind: DoKind,
    pub span: Span,
}

#[derive(Debug)]
pub enum DoKind {
    Block(Vec<DoStmt>),
    Expr(Box<Expr>),
}

#[derive(Debug)]
pub enum DoStmt {
    Def(Def),
    Expr(Expr),
    Let(LetStmt),
    Bind(BindStmt),
}

impl DoStmt {
    pub fn as_def(&self) -> (r: Option<&Def>)
        ensures
            match *self {
                Self::Def(def) => r == Some(&def),
                _ => r is None,
            },
    {
        match self {
            Self::Def(def) => Some(def),
            _ => None,
        }
    }
}

#[derive(Debug)]
pub struct BindStmt {
    pub ty: Option<Ty>,
    pub pat: Pat,
    pub params: Vec<Pat>,
    pub expr: Expr,
    pub span: Span,
}

#[derive(Debug)]
pub struct MatchExpr {
    pub expr: Box<Expr>,
    pub arms: Vec<Arm>,
    pub span: Span,
}

#[derive(Debug)]
pub struct Arm {
    pub pat: Pat,
    pub expr: Expr,
}

impl Expr {
    /// Where the expression was written.
    pub open spec fn spec_span(self) -> Span {
        match self {
            Self::Paren(expr) => expr.span,
            Self::Num(expr) => expr.span,
            Self::Str(expr) => expr.span,
            Self::Named(expr) => expr.span,
            Self::Field(expr) => expr.span,
            Self::With(expr) => expr.span,
            Self::Call(expr) => expr.span,
            Self::Lambda(expr) => expr.span,
            Self::Variant(expr) => expr.span,
            Self::Record(expr) => expr.span,
            Self::Unary(expr) => expr.span,
            Self::Binary(expr) => expr.span,
            Self::Tuple(expr) => expr.span,
            Self::Block(expr) => expr.span,
            Self::Do(expr) => expr.span,
            Self::Match(expr) => expr.span,
            Self::Error(span) => span,
        }
    }

    pub fn span(&self) -> (r: Span)
        ensures
            r == self.spec_span(),
            r == expr_view_span(expr_view(*self)),
    {
        match self {
            Self::Paren(expr) => expr.span,
            Self::Num(expr) => expr.span,
            Self::Str(expr) => expr.span,
            Self::Named(expr) => expr.span,
            Self::Field(expr) => expr.span,
            Self::With(expr) => expr.span,
            Self::Call(expr) => expr.span,
            Self::Lambda(expr) => expr.span,
            Self::Variant(expr) => expr.span,
            Self::Record(expr) => expr.span,
            Self::Unary(expr) => expr.span,
            Self::Binary(expr) => expr.span,
            Self::Tuple(expr) => expr.span,
            Self::Block(expr) => expr.span,
            Self::Do(expr) => expr.span,
            Self::Match(expr) => expr.span,
            Self::Error(span) => *span,
        }
    }
}

/// An expression as plain values.
pub enum ExprView {
    Paren(Box<ExprView>, Span),
    Num(Seq<char>, Span),
    Str(Seq<char>, Span),
    Named(Option<Seq<char>>, Seq<char>, Span),
    Field(Box<ExprView>, Option<Seq<char>>, Span),
    With(Box<ExprView>, Seq<FieldView>, Span),
    Call(Box<ExprView>, Box<ExprView>, Span),
    Lambda(Seq<PatView>, Box<ExprView>, Span),
    Variant(Option<Seq<char>>, Option<Box<ExprView>>, Span),
    Record(Seq<FieldView>, Span),
    Unary(UnOp, Box<ExprView>, Span),
    Binary(BinOp, Box<ExprView>, Box<ExprView>, Span),
    Tuple(Seq<ExprView>, Span),
    Block(Seq<BlockStmtView>, Box<ExprView>, Span),
    Do(DoKindView, Span),
    Match(Box<ExprView>, Seq<ArmView>, Span),
    Error(Span),
}

/// A field of a record or `with` expression as plain values.
pub struct FieldView {
    pub name: Option<Seq<char>>,
    pub expr: ExprView,
    pub span: Span,
}

/// A `let` (or a binding `let` in a `do` block) as plain values.
pub struct LetView {
    pub ty: Option<TyView>,
    pub pat: PatView,
    pub params: Seq<PatView>,
    pub expr: ExprView,
    pub span: Span,
}

/// A statement of a block as plain values.
pub enum BlockStmtView {
    Def(DefView),
    Let(LetView),
}

/// What a `do` expression holds as plain values.
pub enum DoKindView {
    Block(Seq<DoStmtView>),
    Expr(Box<ExprView>),
}

/// A statement of a `do` block as plain values.
pub enum DoStmtView {
    Def(DefView),
    Expr(ExprView),
    Let(LetView),
    Bind(LetView),
}

/// An arm of a `match` as plain values.
pub struct ArmView {
    pub pat: PatView,
    pub expr: ExprView,
}

pub open spec fn opt_ty_view(t: Option<Ty>) -> Option<TyView> {
    match t {
        Some(t) => Some(ty_view(t)),
        None => None,
    }
}

pub open spec fn expr_view(e: Expr) -> ExprView
    decreases e, 0nat,
{
    match e {
        Expr::Paren(x) => ExprView::Paren(Box::new(expr_view(*x.expr)), x.span),
        Expr::Num(x) => ExprView::Num(x.number@, x.span),
        Expr::Str(x) => ExprView::Str(x.string@, x.span),
        Expr::Named(x) => ExprView::Named(name_view(x.import), x.name@, x.span),
        Expr::Field(x) => ExprView::Field(Box::new(expr_view(*x.input)), name_view(x.name), x.span),
        Expr::With(x) => ExprView::With(Box::new(expr_view(*x.input)), fields_view(x.fields@), x.span),
        Expr::Call(x) => ExprView::Call(
            Box::new(expr_view(*x.lambda)),
            Box::new(expr_view(*x.input)),
            x.span,
        ),
        Expr::Lambda(x) => ExprView::Lambda(pats_view(x.params@), Box::new(expr_view(*x.expr)), x.span),
        Expr::Variant(x) => ExprView::Variant(
            name_view(x.name),
            match x.expr {
                Some(b) => Some(Box::new(expr_view(*b))),
                None => None,
            },
            x.span,
        ),
        Expr::Record(x) => ExprView::Record(fields_view(x.fields@), x.span),
        Expr::Unary(x) => ExprView::Unary(x.op, Box::new(expr_view(*x.input)), x.span),
        Expr::Binary(x) => ExprView::Binary(
            x.op,
            Box::new(expr_view(*x.lhs)),
            Box::new(expr_view(*x.rhs)),
            x.span,
        ),
        Expr::Tuple(x) => ExprView::Tuple(exprs_view(x.fields@), x.span),
        Expr::Block(x) => ExprView::Block(
            block_stmts_view(x.stmts@),
            Box::new(expr_view(*x.expr)),
            x.span,
        ),
        Expr::Do(x) => ExprView::Do(
            match x.kind {
                DoKind::Block(stmts) => DoKindView::Block(do_stmts_view(stmts@)),
                DoKind::Expr(b) => DoKindView::Expr(Box::new(expr_view(*b))),
            },
            x.span,
        ),
        Expr::Match(x) => ExprView::Match(Box::new(expr_view(*x.expr)), arms_view(x.arms@), x.span),
        Expr::Error(span) => ExprView::Error(span),
    }
}

/// A span for what a view needs where a sequence is read out of range.
pub open spec fn no_span() -> Span {
    Span { file: FileId { index: 0 }, start: 0, end: 0 }
}

pub open spec fn exprs_view(s: Seq<Expr>) -> Seq<ExprView>
    decreases s, 1nat,
{
    Seq::new(
        s.len(),
        |i: int|
            if 0 <= i < s.len() {
                expr_view(s[i])
            } else {
                ExprView::Error(no_span())
            },
    )
}

pub open spec fn fields_view(s: Seq<ExprField>) -> Seq<FieldView>
    decreases s, 1nat,
{
    Seq::new(
        s.len(),
        |i: int|
            if 0 <= i < s.len() {
                FieldView { name: name_view(s[i].name), expr: expr_view(s[i].expr), span: s[i].span }
            } else {
                FieldView { name: None, expr: ExprView::Error(no_span()), span: no_span() }
            },
    )
}

pub open spec fn block_stmts_view(s: Seq<BlockStmt>) -> Seq<BlockStmtView>
    decreases s, 1nat,
{
    Seq::new(
        s.len(),
        |i: int|
            if 0 <= i < s.len() {
                match s[i] {
                    BlockStmt::Def(d) => BlockStmtView::Def(def_view(d)),
                    BlockStmt::Let(l) => BlockStmtView::Let(
                        LetView {
                            ty: opt_ty_view(l.ty),
                            pat: pat_view(l.pat),
                            params: pats_view(l.params@),
                            expr: expr_view(l.expr),
                            span: l.span,
                        },
                    ),
                }
            } else {
                BlockStmtView::Def(DefView::Error(no_span()))
            },
    )
}

pub open spec fn do_stmts_view(s: Seq<DoStmt>) -> Seq<DoStmtView>
    decreases s, 1nat,
{
    Seq::new(
        s.len(),
        |i: int|
            if 0 <= i < s.len() {
                match s[i] {
                    DoStmt::Def(d) => DoStmtView::Def(def_view(d)),
                    DoStmt::Expr(e) => DoStmtView::Expr(expr_view(e)),
                    DoStmt::Let(l) => DoStmtView::Let(
                        LetView {
                            ty: opt_ty_view(l.ty),
                            pat: pat_view(l.pat),
                            params: pats_view(l.params@),
                            expr: expr_view(l.expr),
                            span: l.span,
                        },
                    ),
                    DoStmt::Bind(l) => DoStmtView::Bind(
                        LetView {
                            ty: opt_ty_view(l.ty),
                            pat: pat_view(l.pat),
                            params: pats_view(l.params@),
                            expr: expr_view(l.expr),
                            span: l.span,
                        },
                    ),
                }
            } else {
                DoStmtView::Def(DefView::Error(no_span()))
            },
    )
}

pub open spec fn arms_view(s: Seq<Arm>) -> Seq<ArmView>
    decreases s, 1nat,
{
    Seq::new(
        s.len(),
        |i: int|
            if 0 <= i < s.len() {
                ArmView { pat: pat_view(s[i].pat), expr: expr_view(s[i].expr) }
            } else {
                ArmView { pat: PatView::Error(no_span()), expr: ExprView::Error(no_span()) }
            },
    )
}

/// Where an expression was written.
pub open spec fn expr_view_span(e: ExprView) -> Span {
    match e {
        ExprView::Paren(_, span) => span,
        ExprView::Num(_, span) => span,
        ExprView::Str(_, span) => span,
        ExprView::Named(_, _, span) => span,
        ExprView::Field(_, _, span) => span,
        ExprView::With(_, _, span) => span,
        ExprView::Call(_, _, span) => span,
        ExprView::Lambda(_, _, span) => span,
        ExprView::Variant(_, _, span) => span,
        ExprView::Record(_, span) => span,
        ExprView::Unary(_, _, span) => span,
        ExprView::Binary(_, _, _, span) => span,
        ExprView::Tuple(_, span) => span,
        ExprView::Block(_, _, span) => span,
        ExprView::Do(_, span) => span,
        ExprView::Match(_, _, span) => span,
        ExprView::Error(span) => span,
    }
}

/// A `let` as plain values.
pub open spec fn let_view(l: LetStmt) -> LetView {
    LetView {
        ty: opt_ty_view(l.ty),
        pat: pat_view(l.pat),
        params: pats_view(l.params@),
        expr: expr_view(l.expr),
        span: l.span,
    }
}

/// A binding `let` as plain values.
pub open spec fn bind_view(l: BindStmt) -> LetView {
    LetView {
        ty: opt_ty_view(l.ty),
        pat: pat_view(l.pat),
        params: pats_view(l.params@),
        expr: expr_view(l.expr),
        span: l.span,
    }
}

/// A statement of a block as plain values.
pub open spec fn block_stmt_view(s: BlockStmt) -> BlockStmtView {
    match s {
        BlockStmt::Def(d) => BlockStmtView::Def(def_view(d)),
        BlockStmt::Let(l) => BlockStmtView::Let(let_view(l)),
    }
}

/// A statement of a `do` block as plain values.
pub open spec fn do_stmt_view(s: DoStmt) -> DoStmtView {
    match s {
        DoStmt::Def(d) => DoStmtView::Def(def_view(d)),
        DoStmt::Expr(e) => DoStmtView::Expr(expr_view(e)),
        DoStmt::Let(l) => DoStmtView::Let(let_view(l)),
        DoStmt::Bind(l) => DoStmtView::Bind(bind_view(l)),
    }
}

/// A field of a record or `with` expression as plain values.
pub open spec fn field_view(f: ExprField) -> FieldView {
    FieldView { name: name_view(f.name), expr: expr_view(f.expr), span: f.span }
}

/// An arm of a `match` as plain values.
pub open spec fn arm_view(a: Arm) -> ArmView {
    ArmView { pat: pat_view(a.pat), expr: expr_view(a.expr) }
}

} // verus!
