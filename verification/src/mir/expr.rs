//! The expressions of the mid-level representation: places, constants,
//! constructors, bindings, lambdas and primitive operations.
use std::rc::Rc;

use vstd::prelude::*;

use crate::mir::Ty;

verus! {

/// An expression.
#[derive(Debug)]
pub enum Expr {
    Local(Local),
    Global(Global),
    Extern(Extern),
    Constant(Constant),
    Construct(Constructor),
    Let(Let),
    Bind(Bind),
    Lambda(Lambda),
    Payload(Rc<Expr>),
    Field(Rc<Expr>, usize),
    Call(Rc<Expr>, Rc<Expr>),
    Is(Rc<Expr>, usize),
    If(Rc<Expr>, Rc<Expr>, Rc<Expr>),
    Intrinsic(Intrinsic, Rc<Vec<Expr>>),
}

/// A whole program: its globals, by index, and the expression it runs.
#[derive(Debug)]
pub struct Entry {
    pub globals: Vec<Expr>,
    pub output: Rc<Expr>,
}

/// A constant. A real number is carried as the decimal numeral it was
/// written with.
#[derive(Debug)]
pub enum Constant {
    Nat(u64),
    Int(i64),
    Real(&'static str),
    Bool(bool),
    Str(String),
}

/// A value built from parts: an action that yields its input, a tuple, or
/// the variant at an index with its payload.
#[derive(Debug)]
pub enum Constructor {
    Pure(Rc<Expr>),
    Tuple(Rc<Vec<Expr>>),
    Variant(usize, Rc<Expr>),
}

/// A function of one input, with the values it captures.
#[derive(Debug)]
pub struct Lambda {
    pub captures: Vec<Expr>,
    pub input: Local,
    pub output: Rc<Expr>,
}

/// `output` with `local` holding the value of `input`.
#[derive(Debug)]
pub struct Let {
    pub input: Rc<Expr>,
    pub local: Local,
    pub output: Rc<Expr>,
}

/// The action that runs `input`, holds its result in `local`, and goes on
/// with `output`.
#[derive(Debug)]
pub struct Bind {
    pub captures: Vec<Expr>,
    pub input: Rc<Expr>,
    pub local: Local,
    pub output: Rc<Expr>,
}

impl Expr {
    /// The unit value: the tuple with no fields.
    pub fn unit() -> (r: Self)
        ensures
            r matches Expr::Construct(Constructor::Tuple(fields)) && fields@.len() == 0,
    {
        Expr::Construct(Constructor::Tuple(Rc::new(Vec::new())))
    }
}

/// A local variable, by its index among the locals of its lambda.
#[derive(Debug)]
pub struct Local {
    pub index: usize,
    pub ty: Ty,
}

/// A global, by its index among the program's globals.
#[derive(Debug)]
pub struct Global {
    pub index: usize,
    pub ty: Ty,
}

/// A value the host provides, by its name.
#[derive(Debug)]
pub struct Extern {
    pub id: &'static str,
    pub ty: Ty,
}

/// An operation the back end provides directly.
#[derive(Clone, Copy, Debug, PartialEq, Eq, PartialOrd, Ord, Hash)]
pub enum Intrinsic {
    NatAdd,
    NatSub,
    NatMul,
    NatXor,
    NatGt,
    NatLt,
    NatGe,
    NatLe,
    NatEq,
    IntAdd,
    IntSub,
    IntMul,
    IntGt,
    IntLt,
    IntGe,
    IntLe,
    IntEq,
    RealAdd,
    RealSub,
    RealMul,
    RealDiv,
    RealGt,
    RealLt,
    RealGe,
    RealLe,
    RealEq,
    BoolNot,
    BoolAnd,
    BoolOr,
    NatToInt,
    NatToReal,
    IntToNat,
    IntToReal,
    RealToNat,
    RealToInt,
    FormatNat,
    FormatInt,
    FormatReal,
    HashStr,
    HashNat,
    HashInt,
    HashReal,
    StrEq,
    StrLength,
    StrPrepend,
    StrSplitAt,
    StrFind,
}

} // verus!
