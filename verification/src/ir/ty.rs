//! The types of the intermediate representation.
use vstd::prelude::*;

use crate::arena::Id;

verus! {

/// A type.
#[derive(Debug)]
pub enum Ty {
    Str,
    Numeric(Numeric),
    Tuple(Vec<Ty>),
    Record(RecordTy),
    Lambda(LambdaTy),
    Union(UnionTy),
    Alias(AliasTy),
    Monad(Box<Ty>),
    Infer(Id<Bound>),
    Generic(GenericTy),
}

/// The numeric types, from the narrowest: naturals, integers, numbers.
#[derive(Clone, Copy, Debug, PartialEq, Eq, Structural, PartialOrd, Ord, Hash)]
pub enum Numeric {
    Nat,
    Int,
    Num,
}

#[derive(Debug)]
pub struct LambdaTy {
    pub input: Box<Ty>,
    pub output: Box<Ty>,
}

#[derive(Debug)]
pub struct RecordTy {
    pub fields: Vec<TyField>,
}

#[derive(Debug)]
pub struct TyField {
    pub name: &'static str,
    pub ty: Ty,
}

#[derive(Debug)]
pub struct GenericTy {
    pub name: &'static str,
    pub bound: Id<Bound>,
}

#[derive(Debug)]
pub struct UnionTy {
    pub variants: Vec<Variant>,
}

#[derive(Debug)]
pub struct Variant {
    pub name: &'static str,
    pub payload: Option<Ty>,
}

#[derive(Debug)]
pub struct AliasTy {
    pub alias: Id<Alias>,
    pub args: Vec<Ty>,
}

/// A named type with type parameters.
#[derive(Debug)]
pub struct Alias {
    pub name: &'static str,
    pub params: Vec<Id<Bound>>,
    pub ty: Ty,
}

/// What is known of a type still being inferred.
#[derive(Debug)]
pub enum Bound {
    Numeric(Numeric),
    Record(RecordTy),
    Union(UnionTy),
    /// Nothing is known yet.
    Unbounded,
}

impl Ty {
    /// The unit type: the record with no fields.
    pub fn unit() -> (r: Self)
        ensures
            r matches Ty::Record(rec) && rec.fields@.len() == 0,
    {
        Ty::Record(RecordTy { fields: Vec::new() })
    }

    /// The union `:some inner | :none`.
    pub fn option(inner: Self) -> (r: Self)
        ensures
            r matches Ty::Union(u) && u.variants@.len() == 2 && u.variants@[0].name@ == "some"@
                && u.variants@[0].payload == Some(inner) && u.variants@[1].name@ == "none"@
                && u.variants@[1].payload is None,
    {
        let mut variants = Vec::new();
        variants.push(Variant { name: "some", payload: Some(inner) });
        variants.push(Variant { name: "none", payload: None });
        Ty::Union(UnionTy { variants })
    }

    /// The union `:true | :false`.
    pub fn bool() -> (r: Self)
        ensures
            r matches Ty::Union(u) && u.variants@.len() == 2 && u.variants@[0].name@ == "true"@
                && u.variants@[0].payload is None && u.variants@[1].name@ == "false"@
                && u.variants@[1].payload is None,
    {
        let mut variants = Vec::new();
        variants.push(Variant { name: "true", payload: None });
        variants.push(Variant { name: "false", payload: None });
        Ty::Union(UnionTy { variants })
    }

    /// The type of functions from `input` to `output`.
    pub fn lambda(input: Self, output: Self) -> (r: Self)
        ensures
            r == Ty::Lambda(LambdaTy { input: Box::new(input), output: Box::new(output) }),
    {
        Ty::Lambda(LambdaTy { input: Box::new(input), output: Box::new(output) })
    }

    /// The type of actions that produce a `result`.
    pub fn monad(result: Self) -> (r: Self)
        ensures
            r == Ty::Monad(Box::new(result)),
    {
        Ty::Monad(Box::new(result))
    }
}

impl Numeric {
    /// The keyword that names the type.
    pub fn as_str(&self) -> (r: &'static str)
        ensures
            r@ == match *self {
                Numeric::Nat => "nat"@,
                Numeric::Int => "int"@,
                Numeric::Num => "num"@,
            },
    {
        match self {
            Numeric::Nat => "nat",
            Numeric::Int => "int",
            Numeric::Num => "num",
        }
    }

    /// The position of the type in the order nat < int < num.
    pub open spec fn rank(self) -> int {
        match self {
            Numeric::Nat => 0,
            Numeric::Int => 1,
            Numeric::Num => 2,
        }
    }

    /// Whether `self` comes after `other` in the order nat < int < num.
    pub fn wider_than(&self, other: &Numeric) -> (r: bool)
        ensures
            r == (self.rank() > other.rank()),
    {
        match (self, other) {
            (Numeric::Int, Numeric::Nat) => true,
            (Numeric::Num, Numeric::Nat) => true,
            (Numeric::Num, Numeric::Int) => true,
            _ => false,
        }
    }
}

/// The index of the first field named `name`, if any.
pub open spec fn first_field(fields: Seq<TyField>, name: Seq<char>) -> Option<int> {
    if exists|i: int| 0 <= i < fields.len() && fields[i].name@ == name {
        Some(
            choose|i: int|
                0 <= i < fields.len() && fields[i].name@ == name && forall|j: int|
                    0 <= j < i ==> fields[j].name@ != name,
        )
    } else {
        None
    }
}

/// The index of the first variant named `name`, if any.
pub open spec fn first_variant(variants: Seq<Variant>, name: Seq<char>) -> Option<int> {
    if exists|i: int| 0 <= i < variants.len() && variants[i].name@ == name {
        Some(
            choose|i: int|
                0 <= i < variants.len() && variants[i].name@ == name && forall|j: int|
                    0 <= j < i ==> variants[j].name@ != name,
        )
    } else {
        None
    }
}

impl RecordTy {
    /// The type of the first field named `name`.
    pub fn get(&self, name: &str) -> (r: Option<&Ty>)
        ensures
            match first_field(self.fields@, name@) {
                Some(i) => r == Some(&self.fields@[i].ty),
                None => r is None,
            },
    {
        let mut i: usize = 0;
        while i < self.fields.len()
            invariant
                i <= self.fields@.len(),
                forall|j: int| 0 <= j < i ==> self.fields@[j].name@ != name@,
            decreases self.fields@.len() - i,
        {
            if crate::text::str_eq(self.fields[i].name, name) {
                let ghost k = choose|k: int|
                    0 <= k < self.fields@.len() && self.fields@[k].name@ == name@ && forall|j: int|
                        0 <= j < k ==> self.fields@[j].name@ != name@;
                assert(k == i) by {
                    if k < i {
                    } else if k > i {
                    }
                }
                return Some(&self.fields[i].ty);
            }
            i = i + 1;
        }
        None
    }
}

impl UnionTy {
    /// The payload of the first variant named `name`: `None` when there is no
    /// such variant, `Some(None)` when it carries no payload.
    pub fn get(&self, name: &str) -> (r: Option<Option<&Ty>>)
        ensures
            match first_variant(self.variants@, name@) {
                Some(i) => r == Some(
                    match self.variants@[i].payload {
                        Some(t) => Some(&t),
                        None => None,
                    },
                ),
                None => r is None,
            },
    {
        let mut i: usize = 0;
        while i < self.variants.len()
            invariant
                i <= self.variants@.len(),
                forall|j: int| 0 <= j < i ==> self.variants@[j].name@ != name@,
            decreases self.variants@.len() - i,
        {
            if crate::text::str_eq(self.variants[i].name, name) {
                let ghost k = choose|k: int|
                    0 <= k < self.variants@.len() && self.variants@[k].name@ == name@ && forall|
                        j: int,
                    |
                        0 <= j < k ==> self.variants@[j].name@ != name@;
                assert(k == i) by {
                    if k < i {
                    } else if k > i {
                    }
                }
                return Some(self.variants[i].payload.as_ref());
            }
            i = i + 1;
        }
        None
    }
}

/// A type as plain values.
pub enum TyView {
    Str,
    Numeric(Numeric),
    Tuple(Seq<TyView>),
    Record(Seq<(Seq<char>, TyView)>),
    Lambda(Box<TyView>, Box<TyView>),
    Union(Seq<(Seq<char>, Option<TyView>)>),
    Alias(Id<Alias>, Seq<TyView>),
    Monad(Box<TyView>),
    Infer(Id<Bound>),
    Generic(Seq<char>, Id<Bound>),
}

pub open spec fn ty_view(t: Ty) -> TyView
    decreases t, 0nat,
{
    match t {
        Ty::Str => TyView::Str,
        Ty::Numeric(n) => TyView::Numeric(n),
        Ty::Tuple(v) => TyView::Tuple(tys_view(v@)),
        Ty::Record(r) => TyView::Record(fields_view(r.fields@)),
        Ty::Lambda(l) => TyView::Lambda(Box::new(ty_view(*l.input)), Box::new(ty_view(*l.output))),
        Ty::Union(u) => TyView::Union(variants_view(u.variants@)),
        Ty::Alias(a) => TyView::Alias(a.alias, tys_view(a.args@)),
        Ty::Monad(b) => TyView::Monad(Box::new(ty_view(*b))),
        Ty::Infer(id) => TyView::Infer(id),
        Ty::Generic(g) => TyView::Generic(g.name@, g.bound),
    }
}

pub open spec fn tys_view(s: Seq<Ty>) -> Seq<TyView>
    decreases s, 1nat,
{
    Seq::new(
        s.len(),
        |i: int|
            if 0 <= i < s.len() {
                ty_view(s[i])
            } else {
                TyView::Str
            },
    )
}

pub open spec fn fields_view(s: Seq<TyField>) -> Seq<(Seq<char>, TyView)>
    decreases s, 1nat,
{
    Seq::new(
        s.len(),
        |i: int|
            if 0 <= i < s.len() {
                (s[i].name@, ty_view(s[i].ty))
            } else {
                (Seq::empty(), TyView::Str)
            },
    )
}

pub open spec fn variants_view(s: Seq<Variant>) -> Seq<(Seq<char>, Option<TyView>)>
    decreases s, 1nat,
{
    Seq::new(
        s.len(),
        |i: int|
            if 0 <= i < s.len() {
                (
                    s[i].name@,
                    match s[i].payload {
                        Some(t) => Some(ty_view(t)),
                        None => None,
                    },
                )
            } else {
                (Seq::empty(), None)
            },
    )
}

/// A copy of a type.
pub fn clone_ty(t: &Ty) -> (r: Ty)
    ensures
        ty_view(r) == ty_view(*t),
    decreases t, 0nat,
{
    match t {
        Ty::Str => Ty::Str,
        Ty::Numeric(n) => Ty::Numeric(*n),
        Ty::Tuple(v) => {
            proof {
                assert(decreases_to!(*t => (*t)->Tuple_0));
            }
            Ty::Tuple(clone_tys(v))
        },
        Ty::Record(r) => {
            proof {
                assert(decreases_to!(*t => (*t)->Record_0));
                assert(decreases_to!((*t)->Record_0 => r.fields));
            }
            Ty::Record(RecordTy { fields: clone_fields(&r.fields) })
        },
        Ty::Lambda(l) => {
            proof {
                assert(decreases_to!(*t => (*t)->Lambda_0));
                assert(decreases_to!((*t)->Lambda_0 => l.input));
                assert(decreases_to!((*t)->Lambda_0 => l.output));
            }
            let input = clone_ty(&l.input);
            let output = clone_ty(&l.output);
            Ty::Lambda(LambdaTy { input: Box::new(input), output: Box::new(output) })
        },
        Ty::Union(u) => {
            proof {
                assert(decreases_to!(*t => (*t)->Union_0));
                assert(decreases_to!((*t)->Union_0 => u.variants));
            }
            Ty::Union(UnionTy { variants: clone_variants(&u.variants) })
        },
        Ty::Alias(a) => {
            proof {
                assert(decreases_to!(*t => (*t)->Alias_0));
                assert(decreases_to!((*t)->Alias_0 => a.args));
            }
            Ty::Alias(AliasTy { alias: a.alias, args: clone_tys(&a.args) })
        },
        Ty::Monad(b) => {
            proof {
                assert(decreases_to!(*t => (*t)->Monad_0));
            }
            Ty::Monad(Box::new(clone_ty(b)))
        },
        Ty::Infer(id) => Ty::Infer(*id),
        Ty::Generic(g) => Ty::Generic(GenericTy { name: g.name, bound: g.bound }),
    }
}

/// A copy of a sequence of types.
pub fn clone_tys(v: &Vec<Ty>) -> (r: Vec<Ty>)
    ensures
        tys_view(r@) == tys_view(v@),
    decreases v, 1nat,
{
    let mut out: Vec<Ty> = Vec::new();
    let mut i: usize = 0;
    while i < v.len()
        invariant
            i <= v@.len(),
            out@.len() == i,
            forall|j: int| 0 <= j < i ==> ty_view(#[trigger] out@[j]) == ty_view(v@[j]),
        decreases v@.len() - i,
    {
        proof {
            assert(decreases_to!(*v => v@[i as int]));
        }
        out.push(clone_ty(&v[i]));
        i = i + 1;
    }
    assert(tys_view(out@) =~= tys_view(v@));
    out
}

fn clone_fields(v: &Vec<TyField>) -> (r: Vec<TyField>)
    ensures
        fields_view(r@) == fields_view(v@),
    decreases v, 1nat,
{
    let mut out: Vec<TyField> = Vec::new();
    let mut i: usize = 0;
    while i < v.len()
        invariant
            i <= v@.len(),
            out@.len() == i,
            forall|j: int| 0 <= j < i ==> fields_view(out@)[j] == #[trigger] fields_view(v@)[j],
        decreases v@.len() - i,
    {
        proof {
            assert(decreases_to!(*v => v@[i as int]));
            assert(decreases_to!(v@[i as int] => v@[i as int].ty));
        }
        let ty = clone_ty(&v[i].ty);
        out.push(TyField { name: v[i].name, ty });
        i = i + 1;
    }
    assert(fields_view(out@) =~= fields_view(v@));
    out
}

fn clone_variants(v: &Vec<Variant>) -> (r: Vec<Variant>)
    ensures
        variants_view(r@) == variants_view(v@),
    decreases v, 1nat,
{
    let mut out: Vec<Variant> = Vec::new();
    let mut i: usize = 0;
    while i < v.len()
        invariant
            i <= v@.len(),
            out@.len() == i,
            forall|j: int| 0 <= j < i ==> variants_view(out@)[j] == #[trigger] variants_view(v@)[j],
        decreases v@.len() - i,
    {
        let payload = match &v[i].payload {
            Some(p) => {
                proof {
                    assert(decreases_to!(*v => v@[i as int]));
                    assert(decreases_to!(v@[i as int] => v@[i as int].payload));
                    assert(decreases_to!(v@[i as int].payload => v@[i as int].payload->0));
                }
                Some(clone_ty(p))
            },
            None => None,
        };
        out.push(Variant { name: v[i].name, payload });
        i = i + 1;
    }
    assert(variants_view(out@) =~= variants_view(v@));
    out
}

} // verus!
