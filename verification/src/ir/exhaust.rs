//! Pattern matrices for checking `match` expressions: which patterns are
//! useful and which values no arm covers.
//!
//! A pattern is a wildcard or a constructor (a string, a tuple of some arity,
//! a variant with or without payload) applied to sub-patterns. A column
//! describes the shape of the values being matched, learned from the arms: a
//! string, a tuple of columns, or a union of variants which is open when more
//! variants may exist than the arms name.
use vstd::prelude::*;

use crate::ir::usefulness::{
    aligned, column_wf, columns_wf, lemma_aligned_cons, lemma_aligned_expand, lemma_aligned_tail,
    lemma_cons_shrinks, lemma_constructor_size, lemma_expand_columns, lemma_expand_shrinks,
    lemma_missing_len, lemma_tail_shrinks, lemma_columns_split, missing, missing_upto, rebuild, row_measure, total,
    column_sizes, useful,
};
use crate::ir::opening::{
    branch_at, lemma_opened_shape, lemma_opened_upto_shape, lemma_openable_expand,
    lemma_openable_tail, openable, opened, opened_upto, zip_merge,
};
use crate::ir::Pat;
use crate::text::str_eq;

verus! {

broadcast use vstd::std_specs::vec::group_vec_axioms;

/// The head of a constructor pattern.
#[derive(Clone, Copy, Debug)]
pub enum ConstructorKind {
    Str(&'static str),
    Tuple(usize),
    Variant(&'static str, bool),
}

/// A constructor head as plain values.
pub enum KindView {
    Str(Seq<char>),
    Tuple(nat),
    Variant(Seq<char>, bool),
}

impl View for ConstructorKind {
    type V = KindView;

    open spec fn view(&self) -> KindView {
        match *self {
            ConstructorKind::Str(s) => KindView::Str(s@),
            ConstructorKind::Tuple(n) => KindView::Tuple(n as nat),
            ConstructorKind::Variant(name, payload) => KindView::Variant(name@, payload),
        }
    }
}

/// The number of sub-patterns a constructor takes.
pub open spec fn arity(kind: KindView) -> nat {
    match kind {
        KindView::Str(..) => 0,
        KindView::Tuple(n) => n,
        KindView::Variant(_, payload) => if payload {
            1
        } else {
            0
        },
    }
}

impl ConstructorKind {
    /// The number of sub-patterns the constructor takes.
    pub fn arity(&self) -> (r: usize)
        ensures
            r == arity(self@),
    {
        match self {
            ConstructorKind::Str(..) => 0,
            ConstructorKind::Tuple(arity) => *arity,
            ConstructorKind::Variant(_, payload) => if *payload {
                1
            } else {
                0
            },
        }
    }

    /// Whether two heads are the same constructor.
    pub fn same(&self, other: &ConstructorKind) -> (r: bool)
        ensures
            r == (self@ == other@),
    {
        match (self, other) {
            (ConstructorKind::Str(a), ConstructorKind::Str(b)) => str_eq(a, b),
            (ConstructorKind::Tuple(a), ConstructorKind::Tuple(b)) => *a == *b,
            (ConstructorKind::Variant(a, x), ConstructorKind::Variant(b, y)) => *x == *y && str_eq(
                a,
                b,
            ),
            _ => false,
        }
    }
}

/// A pattern of a `match` arm, reduced to what matching looks at.
#[derive(Debug)]
pub enum Pattern {
    Wild,
    Cons(Constructor),
}

/// A constructor applied to sub-patterns.
#[derive(Debug)]
pub struct Constructor {
    pub kind: ConstructorKind,
    pub fields: Vec<Pattern>,
}

/// A pattern as plain values.
pub enum PatternView {
    Wild,
    Cons(KindView, Seq<PatternView>),
}

pub open spec fn pattern_view(p: Pattern) -> PatternView
    decreases p, 0nat,
{
    match p {
        Pattern::Wild => PatternView::Wild,
        Pattern::Cons(c) => PatternView::Cons(c.kind@, patterns_view(c.fields@)),
    }
}

pub open spec fn patterns_view(s: Seq<Pattern>) -> Seq<PatternView>
    decreases s, 1nat,
{
    Seq::new(
        s.len(),
        |i: int|
            if 0 <= i < s.len() {
                pattern_view(s[i])
            } else {
                PatternView::Wild
            },
    )
}

/// The shape of the values a column of patterns matches.
#[derive(Debug)]
pub enum Column {
    Wild,
    Str,
    Tuple(Vec<Column>),
    Union(ColumnUnion),
}

/// The variants of a union column; open when other variants may exist.
#[derive(Debug)]
pub struct ColumnUnion {
    pub variants: Vec<ColumnVariant>,
    pub is_open: bool,
}

/// A variant of a union column, with the column of its payload if it has one.
#[derive(Debug)]
pub struct ColumnVariant {
    pub name: &'static str,
    pub payload: Option<Column>,
}

/// A column as plain values.
pub enum ColumnView {
    Wild,
    Str,
    Tuple(Seq<ColumnView>),
    Union(Seq<VariantView>, bool),
}

/// A variant of a union column as plain values.
pub struct VariantView {
    pub name: Seq<char>,
    pub payload: Option<ColumnView>,
}

pub open spec fn column_view(c: Column) -> ColumnView
    decreases c, 0nat,
{
    match c {
        Column::Wild => ColumnView::Wild,
        Column::Str => ColumnView::Str,
        Column::Tuple(v) => ColumnView::Tuple(columns_view(v@)),
        Column::Union(u) => ColumnView::Union(variants_view(u.variants@), u.is_open),
    }
}

pub open spec fn columns_view(s: Seq<Column>) -> Seq<ColumnView>
    decreases s, 1nat,
{
    Seq::new(
        s.len(),
        |i: int|
            if 0 <= i < s.len() {
                column_view(s[i])
            } else {
                ColumnView::Wild
            },
    )
}

pub open spec fn variants_view(s: Seq<ColumnVariant>) -> Seq<VariantView>
    decreases s, 1nat,
{
    Seq::new(
        s.len(),
        |i: int|
            if 0 <= i < s.len() {
                VariantView {
                    name: s[i].name@,
                    payload: match s[i].payload {
                        Some(c) => Some(column_view(c)),
                        None => None,
                    },
                }
            } else {
                VariantView { name: Seq::empty(), payload: None }
            },
    )
}

/// A copy of a pattern.
pub fn clone_pattern(p: &Pattern) -> (r: Pattern)
    ensures
        pattern_view(r) == pattern_view(*p),
    decreases p, 0nat,
{
    match p {
        Pattern::Wild => Pattern::Wild,
        Pattern::Cons(c) => {
            proof {
                assert(decreases_to!(*p => (*p)->Cons_0));
                assert(decreases_to!((*p)->Cons_0 => c.fields));
            }
            let fields = clone_patterns(&c.fields);
            Pattern::Cons(Constructor { kind: c.kind, fields })
        },
    }
}

/// A copy of a sequence of patterns.
pub fn clone_patterns(v: &Vec<Pattern>) -> (r: Vec<Pattern>)
    ensures
        patterns_view(r@) == patterns_view(v@),
    decreases v, 1nat,
{
    let mut out: Vec<Pattern> = Vec::new();
    let mut i: usize = 0;
    while i < v.len()
        invariant
            i <= v@.len(),
            out@.len() == i,
            forall|j: int| 0 <= j < i ==> pattern_view(#[trigger] out@[j]) == pattern_view(v@[j]),
        decreases v@.len() - i,
    {
        proof {
            assert(decreases_to!(*v => v@[i as int]));
        }
        out.push(clone_pattern(&v[i]));
        i = i + 1;
    }
    assert(patterns_view(out@) =~= patterns_view(v@));
    out
}

/// A copy of a column.
pub fn clone_column(c: &Column) -> (r: Column)
    ensures
        column_view(r) == column_view(*c),
    decreases c, 0nat,
{
    match c {
        Column::Wild => Column::Wild,
        Column::Str => Column::Str,
        Column::Tuple(v) => {
            proof {
                assert(decreases_to!(*c => (*c)->Tuple_0));
            }
            Column::Tuple(clone_columns(v))
        },
        Column::Union(u) => {
            proof {
                assert(decreases_to!(*c => (*c)->Union_0));
                assert(decreases_to!((*c)->Union_0 => u.variants));
            }
            Column::Union(ColumnUnion { variants: clone_variants(&u.variants), is_open: u.is_open })
        },
    }
}

/// A copy of a sequence of columns.
pub fn clone_columns(v: &Vec<Column>) -> (r: Vec<Column>)
    ensures
        columns_view(r@) == columns_view(v@),
    decreases v, 1nat,
{
    let mut out: Vec<Column> = Vec::new();
    let mut i: usize = 0;
    while i < v.len()
        invariant
            i <= v@.len(),
            out@.len() == i,
            forall|j: int| 0 <= j < i ==> column_view(#[trigger] out@[j]) == column_view(v@[j]),
        decreases v@.len() - i,
    {
        proof {
            assert(decreases_to!(*v => v@[i as int]));
        }
        out.push(clone_column(&v[i]));
        i = i + 1;
    }
    assert(columns_view(out@) =~= columns_view(v@));
    out
}

/// A copy of the variants of a union column.
pub fn clone_variants(v: &Vec<ColumnVariant>) -> (r: Vec<ColumnVariant>)
    ensures
        variants_view(r@) == variants_view(v@),
    decreases v, 1nat,
{
    let mut out: Vec<ColumnVariant> = Vec::new();
    let mut i: usize = 0;
    while i < v.len()
        invariant
            i <= v@.len(),
            out@.len() == i,
            forall|j: int|
                0 <= j < i ==> variants_view(out@)[j] == #[trigger] variants_view(v@)[j],
        decreases v@.len() - i,
    {
        let payload = match &v[i].payload {
            Some(p) => {
                proof {
                    assert(decreases_to!(*v => v@[i as int]));
                    assert(decreases_to!(v@[i as int] => v@[i as int].payload));
                    assert(decreases_to!(v@[i as int].payload => v@[i as int].payload->0));
                }
                Some(clone_column(p))
            },
            None => None,
        };
        let ghost before = out@;
        out.push(ColumnVariant { name: v[i].name, payload });
        assert forall|j: int| 0 <= j < i + 1 implies variants_view(out@)[j]
            == #[trigger] variants_view(v@)[j] by {
            if j < i {
                assert(out@[j] == before[j]);
                assert(variants_view(before)[j] == variants_view(v@)[j]);
            }
        }
        i = i + 1;
    }
    assert(variants_view(out@) =~= variants_view(v@));
    out
}

/// The pattern that matching sees in an arm's pattern: bindings and
/// wildcards match anything.
pub open spec fn pattern_of(p: Pat) -> PatternView
    decreases p, 0nat,
{
    match p {
        Pat::Wild(..) | Pat::Bind(..) | Pat::Error(..) => PatternView::Wild,
        Pat::Str(s) => PatternView::Cons(KindView::Str(s.string@), Seq::empty()),
        Pat::Variant(v) => PatternView::Cons(
            KindView::Variant(v.name@, v.payload is Some),
            match v.payload {
                Some(b) => seq![pattern_of(*b)],
                None => Seq::empty(),
            },
        ),
        Pat::Tuple(t) => PatternView::Cons(KindView::Tuple(t.fields@.len()), patterns_of(t.fields@)),
    }
}

pub open spec fn patterns_of(s: Seq<Pat>) -> Seq<PatternView>
    decreases s, 1nat,
{
    Seq::new(
        s.len(),
        |i: int|
            if 0 <= i < s.len() {
                pattern_of(s[i])
            } else {
                PatternView::Wild
            },
    )
}

impl Pattern {
    /// The pattern that matching sees in `pat`.
    pub fn new(pat: &Pat) -> (r: Self)
        ensures
            pattern_view(r) == pattern_of(*pat),
        decreases pat, 0nat,
    {
        match pat {
            Pat::Wild(..) | Pat::Bind(..) | Pat::Error(..) => Pattern::Wild,
            Pat::Str(p) => {
                let r = Pattern::Cons(Constructor { kind: ConstructorKind::Str(p.string), fields: Vec::new() });
                assert(patterns_view(Seq::<Pattern>::empty()) =~= Seq::<PatternView>::empty());
                r
            },
            Pat::Variant(p) => {
                let mut fields: Vec<Pattern> = Vec::new();
                match &p.payload {
                    Some(payload) => {
                        proof {
                            assert(decreases_to!(*pat => (*pat)->Variant_0));
                            assert(decreases_to!((*pat)->Variant_0 => p.payload));
                            assert(decreases_to!(p.payload => *(p.payload->0)));
                        }
                        fields.push(Self::new(payload));
                        assert(patterns_view(fields@) =~= seq![pattern_of(**payload)]);
                    },
                    None => {
                        assert(patterns_view(fields@) =~= Seq::<PatternView>::empty());
                    },
                }
                Pattern::Cons(
                    Constructor {
                        kind: ConstructorKind::Variant(p.name, p.payload.is_some()),
                        fields,
                    },
                )
            },
            Pat::Tuple(p) => {
                proof {
                    assert(decreases_to!(*pat => (*pat)->Tuple_0));
                    assert(decreases_to!((*pat)->Tuple_0 => p.fields));
                }
                let fields = Self::new_all(&p.fields);
                Pattern::Cons(Constructor { kind: ConstructorKind::Tuple(p.fields.len()), fields })
            },
        }
    }

    fn new_all(pats: &Vec<Pat>) -> (r: Vec<Pattern>)
        ensures
            patterns_view(r@) == patterns_of(pats@),
        decreases pats, 1nat,
    {
        let mut out: Vec<Pattern> = Vec::new();
        let mut i: usize = 0;
        while i < pats.len()
            invariant
                i <= pats@.len(),
                out@.len() == i,
                forall|j: int| 0 <= j < i ==> pattern_view(#[trigger] out@[j]) == pattern_of(pats@[j]),
            decreases pats@.len() - i,
        {
            proof {
                assert(decreases_to!(*pats => pats@[i as int]));
            }
            out.push(Self::new(&pats[i]));
            i = i + 1;
        }
        assert(patterns_view(out@) =~= patterns_of(pats@));
        out
    }

    /// Whether the pattern is a wildcard.
    pub fn is_wild(&self) -> (r: bool)
        ensures
            r == (*self is Wild),
    {
        matches!(self, Pattern::Wild)
    }
}

/// The column a single pattern describes: closed unions of the one variant
/// it names.
pub open spec fn column_of(p: PatternView) -> ColumnView
    decreases p,
{
    match p {
        PatternView::Wild => ColumnView::Wild,
        PatternView::Cons(kind, fields) => match kind {
            KindView::Str(..) => ColumnView::Str,
            KindView::Tuple(..) => ColumnView::Tuple(
                Seq::new(
                    fields.len(),
                    |i: int|
                        if 0 <= i < fields.len() {
                            column_of(fields[i])
                        } else {
                            ColumnView::Wild
                        },
                ),
            ),
            KindView::Variant(name, _) => ColumnView::Union(
                seq![
                    VariantView {
                        name,
                        payload: if fields.len() > 0 {
                            Some(column_of(fields[0]))
                        } else {
                            None
                        },
                    },
                ],
                false,
            ),
        },
    }
}

/// The constructors a column's values can be built with, or `None` when they
/// cannot be listed (wildcards, strings, open unions).
pub open spec fn constructors(c: ColumnView) -> Option<Seq<KindView>> {
    match c {
        ColumnView::Wild | ColumnView::Str => None,
        ColumnView::Tuple(cs) => Some(seq![KindView::Tuple(cs.len())]),
        ColumnView::Union(vs, is_open) => if is_open {
            None
        } else {
            Some(
                Seq::new(
                    vs.len(),
                    |i: int| KindView::Variant(vs[i].name, vs[i].payload is Some),
                ),
            )
        },
    }
}

pub open spec fn kinds_view(s: Seq<ConstructorKind>) -> Seq<KindView> {
    s.map_values(|k: ConstructorKind| k@)
}

impl Column {
    /// The column that `pat` alone describes.
    pub fn from_pat(pat: &Pattern) -> (r: Self)
        ensures
            column_view(r) == column_of(pattern_view(*pat)),
        decreases pat, 1nat,
    {
        match pat {
            Pattern::Wild => Column::Wild,
            Pattern::Cons(cons) => {
                proof {
                    assert(decreases_to!(*pat => (*pat)->Cons_0));
                }
                Self::from_cons(cons)
            },
        }
    }

    fn from_cons(cons: &Constructor) -> (r: Self)
        ensures
            column_view(r) == column_of(PatternView::Cons(cons.kind@, patterns_view(cons.fields@))),
        decreases cons, 0nat,
    {
        match &cons.kind {
            ConstructorKind::Str(..) => {
                let r = Column::Str;
                assert(column_view(r) == ColumnView::Str);
                assert(column_of(PatternView::Cons(cons.kind@, patterns_view(cons.fields@))) == ColumnView::Str);
                return r;
            },
            ConstructorKind::Tuple(_) => {
                let mut fields: Vec<Column> = Vec::new();
                let mut i: usize = 0;
                while i < cons.fields.len()
                    invariant
                        i <= cons.fields@.len(),
                        fields@.len() == i,
                        forall|j: int|
                            0 <= j < i ==> column_view(#[trigger] fields@[j]) == column_of(
                                pattern_view(cons.fields@[j]),
                            ),
                    decreases cons.fields@.len() - i,
                {
                    proof {
                        assert(decreases_to!(*cons => cons.fields));
                        assert(decreases_to!(*cons => cons.fields@[i as int]));
                    }
                    fields.push(Self::from_pat(&cons.fields[i]));
                    i = i + 1;
                }
                let r = Column::Tuple(fields);
                let ghost fs = patterns_view(cons.fields@);
                let ghost target = column_of(PatternView::Cons(cons.kind@, fs));
                assert(columns_view(fields@) =~= target->Tuple_0);
                r
            },
            ConstructorKind::Variant(name, _) => {
                let name = *name;
                let payload = if cons.fields.len() > 0 {
                    proof {
                        assert(decreases_to!(*cons => cons.fields));
                        assert(decreases_to!(*cons => cons.fields@[0]));
                    }
                    Some(Self::from_pat(&cons.fields[0]))
                } else {
                    None
                };
                let mut variants: Vec<ColumnVariant> = Vec::new();
                variants.push(ColumnVariant { name, payload });
                let r = Column::Union(ColumnUnion { variants, is_open: false });
                assert(variants_view(variants@) =~= seq![
                    VariantView {
                        name: name@,
                        payload: if patterns_view(cons.fields@).len() > 0 {
                            Some(column_of(patterns_view(cons.fields@)[0]))
                        } else {
                            None
                        },
                    },
                ]);
                assert(column_view(r) == column_of(PatternView::Cons(cons.kind@, patterns_view(cons.fields@))));
                return r;
            },
        }
    }

    /// The constructors the column's values can be built with, or `None`
    /// when they cannot be listed.
    pub fn constructors(&self) -> (r: Option<Vec<ConstructorKind>>)
        ensures
            match constructors(column_view(*self)) {
                Some(ks) => r is Some && kinds_view(r->0@) == ks,
                None => r is None,
            },
    {
        match self {
            Column::Wild | Column::Str => None,
            Column::Tuple(fields) => {
                let mut ks: Vec<ConstructorKind> = Vec::new();
                ks.push(ConstructorKind::Tuple(fields.len()));
                assert(kinds_view(ks@) =~= seq![KindView::Tuple(columns_view(fields@).len())]);
                Some(ks)
            },
            Column::Union(union) => {
                if union.is_open {
                    return None;
                }
                let mut ks: Vec<ConstructorKind> = Vec::new();
                let mut i: usize = 0;
                let ghost vs = variants_view(union.variants@);
                while i < union.variants.len()
                    invariant
                        vs == variants_view(union.variants@),
                        i <= union.variants@.len(),
                        ks@.len() == i,
                        forall|j: int|
                            0 <= j < i ==> (#[trigger] ks@[j])@ == KindView::Variant(
                                vs[j].name,
                                vs[j].payload is Some,
                            ),
                    decreases union.variants@.len() - i,
                {
                    let v = &union.variants[i];
                    ks.push(ConstructorKind::Variant(v.name, v.payload.is_some()));
                    i = i + 1;
                }
                assert(kinds_view(ks@) =~= Seq::new(
                    vs.len(),
                    |i: int| KindView::Variant(vs[i].name, vs[i].payload is Some),
                ));
                Some(ks)
            },
        }
    }
}

/// The index of the first variant named `name`, if any.
pub open spec fn variant_index(vs: Seq<VariantView>, name: Seq<char>) -> Option<int> {
    if exists|k: int| 0 <= k < vs.len() && vs[k].name == name {
        Some(
            choose|k: int|
                0 <= k < vs.len() && vs[k].name == name && forall|j: int|
                    0 <= j < k ==> vs[j].name != name,
        )
    } else {
        None
    }
}

proof fn lemma_first_name(vs: Seq<VariantView>, name: Seq<char>, k: int)
    requires
        0 <= k < vs.len(),
        vs[k].name == name,
    ensures
        exists|m: int|
            0 <= m < vs.len() && vs[m].name == name && forall|j: int|
                0 <= j < m ==> vs[j].name != name,
    decreases k,
{
    if exists|j: int| 0 <= j < k && vs[j].name == name {
        let j = choose|j: int| 0 <= j < k && vs[j].name == name;
        lemma_first_name(vs, name, j);
    } else {
        assert(forall|j: int| 0 <= j < k ==> vs[j].name != name);
    }
}

/// `variant_index` gives the first variant of that name, and `None` only
/// when no variant has it.
pub proof fn lemma_variant_index(vs: Seq<VariantView>, name: Seq<char>)
    ensures
        variant_index(vs, name) matches Some(k) ==> 0 <= k < vs.len() && vs[k].name == name
            && forall|j: int| 0 <= j < k ==> vs[j].name != name,
        variant_index(vs, name) is None ==> forall|k: int| 0 <= k < vs.len() ==> vs[k].name != name,
{
    if exists|k: int| 0 <= k < vs.len() && vs[k].name == name {
        let k = choose|k: int| 0 <= k < vs.len() && vs[k].name == name;
        lemma_first_name(vs, name, k);
    }
}

/// The least column that both `a` and `b` describe, or `None` when they
/// describe values of different shapes. A wildcard gives way to the other
/// column; tuples merge field by field; unions gain the other's variants,
/// merging the payloads of variants they share, and stay open only when both
/// are open.
pub open spec fn merge(a: ColumnView, b: ColumnView) -> Option<ColumnView>
    decreases b, 0nat, 0nat,
{
    match b {
        ColumnView::Wild => Some(a),
        _ => match a {
            ColumnView::Wild => Some(b),
            ColumnView::Str => if b is Str {
                Some(a)
            } else {
                None
            },
            ColumnView::Tuple(xs) => match b {
                ColumnView::Tuple(ys) => if xs.len() != ys.len() {
                    None
                } else {
                    match merge_fields(xs, ys, 0) {
                        Some(zs) => Some(ColumnView::Tuple(zs)),
                        None => None,
                    }
                },
                _ => None,
            },
            ColumnView::Union(xs, x_open) => match b {
                ColumnView::Union(ys, y_open) => match merge_variants(xs, ys, 0) {
                    Some(vs) => Some(ColumnView::Union(vs, x_open && y_open)),
                    None => None,
                },
                _ => None,
            },
        },
    }
}

/// The merges of the fields of two tuples from the `i`-th on.
pub open spec fn merge_fields(xs: Seq<ColumnView>, ys: Seq<ColumnView>, i: nat) -> Option<
    Seq<ColumnView>,
>
    decreases ys, 1nat, ys.len() - i,
{
    if i < ys.len() {
        match merge(xs[i as int], ys[i as int]) {
            Some(z) => match merge_fields(xs, ys, i + 1) {
                Some(zs) => Some(seq![z] + zs),
                None => None,
            },
            None => None,
        }
    } else {
        Some(Seq::empty())
    }
}

/// Adds the variants `ys` from the `i`-th on to `acc`, in order: a variant
/// whose name `acc` lacks is appended; one it has merges its payload into
/// the first variant of that name; a payload on one side only is a conflict.
pub open spec fn merge_variants(acc: Seq<VariantView>, ys: Seq<VariantView>, i: nat) -> Option<
    Seq<VariantView>,
>
    decreases ys, 1nat, ys.len() - i,
{
    if i < ys.len() {
        let y = ys[i as int];
        match variant_index(acc, y.name) {
            None => merge_variants(acc.push(y), ys, i + 1),
            Some(k) => match (acc[k].payload, y.payload) {
                (Some(p), Some(q)) => match merge(p, q) {
                    Some(m) => merge_variants(
                        acc.update(k, VariantView { name: acc[k].name, payload: Some(m) }),
                        ys,
                        i + 1,
                    ),
                    None => None,
                },
                (None, None) => merge_variants(acc, ys, i + 1),
                _ => None,
            },
        }
    } else {
        Some(acc)
    }
}

proof fn lemma_merge_variants_step(acc: Seq<VariantView>, ys: Seq<VariantView>, i: nat)
    requires
        i < ys.len(),
    ensures
        ({
            let y = ys[i as int];
            merge_variants(acc, ys, i) == match variant_index(acc, y.name) {
                None => merge_variants(acc.push(y), ys, i + 1),
                Some(k) => match (acc[k].payload, y.payload) {
                    (Some(p), Some(q)) => match merge(p, q) {
                        Some(m) => merge_variants(
                            acc.update(k, VariantView { name: acc[k].name, payload: Some(m) }),
                            ys,
                            i + 1,
                        ),
                        None => None,
                    },
                    (None, None) => merge_variants(acc, ys, i + 1),
                    _ => None,
                },
            }
        }),
{
}

/// The index of the first variant named `name` in `vs`.
fn find_variant(vs: &Vec<ColumnVariant>, name: &str) -> (r: Option<usize>)
    ensures
        match variant_index(variants_view(vs@), name@) {
            Some(k) => r is Some && r->0 as int == k && 0 <= k < vs@.len(),
            None => r is None,
        },
{
    let ghost view = variants_view(vs@);
    let mut j: usize = 0;
    while j < vs.len()
        invariant
            view == variants_view(vs@),
            view.len() == vs@.len(),
            j <= vs@.len(),
            forall|k: int| 0 <= k < j ==> (#[trigger] vs@[k]).name@ != name@,
        decreases vs@.len() - j,
    {
        if str_eq(vs[j].name, name) {
            assert(view[j as int].name == name@);
            assert(forall|k: int| 0 <= k < j ==> view[k].name == vs@[k].name@);
            assert(exists|k: int| 0 <= k < view.len() && view[k].name == name@);
            let ghost k = choose|k: int|
                0 <= k < view.len() && view[k].name == name@ && forall|i: int|
                    0 <= i < k ==> view[i].name != name@;
            assert(0 <= j < view.len() && view[j as int].name == name@ && forall|i: int|
                0 <= i < j ==> view[i].name != name@);
            assert(k == j) by {
                if k < j {
                    assert(view[k].name == vs@[k].name@);
                } else if k > j {
                }
            }
            return Some(j);
        }
        j = j + 1;
    }
    assert forall|k: int| 0 <= k < view.len() implies view[k].name != name@ by {
        assert(view[k].name == vs@[k].name@);
    }
    None
}

impl Column {
    /// The least column that both `self` and `other` describe, or an error
    /// when they describe values of different shapes.
    #[verifier::rlimit(40)]
    pub fn merge(&self, other: &Self) -> (r: Result<Self, ()>)
        ensures
            match merge(column_view(*self), column_view(*other)) {
                Some(m) => r is Ok && column_view(r->Ok_0) == m,
                None => r is Err,
            },
        decreases other,
    {
        match (self, other) {
            (_, Column::Wild) => Ok(clone_column(self)),
            (Column::Wild, _) => Ok(clone_column(other)),
            (Column::Str, Column::Str) => Ok(Column::Str),
            (Column::Tuple(this), Column::Tuple(that)) => {
                if this.len() != that.len() {
                    return Err(());
                }
                let ghost xs = columns_view(this@);
                let ghost ys = columns_view(that@);
                let mut fields: Vec<Column> = Vec::new();
                let mut i: usize = 0;
                while i < that.len()
                    invariant
                        *self == Column::Tuple(*this),
                        *other == Column::Tuple(*that),
                        xs == columns_view(this@),
                        ys == columns_view(that@),
                        this@.len() == that@.len(),
                        i <= that@.len(),
                        merge_fields(xs, ys, 0) == match merge_fields(xs, ys, i as nat) {
                            Some(rest) => Some(columns_view(fields@) + rest),
                            None => None::<Seq<ColumnView>>,
                        },
                    decreases that@.len() - i,
                {
                    proof {
                        assert(decreases_to!(*other => (*other)->Tuple_0));
                        assert(decreases_to!(*other => that@[i as int]));
                    }
                    match this[i].merge(&that[i]) {
                        Ok(field) => {
                            let ghost before = fields@;
                            fields.push(field);
                            assert(columns_view(fields@) =~= columns_view(before).push(
                                column_view(field),
                            ));
                            proof {
                                match merge_fields(xs, ys, (i + 1) as nat) {
                                    Some(rest) => {
                                        assert(columns_view(before) + (seq![column_view(field)]
                                            + rest) =~= columns_view(fields@) + rest);
                                    },
                                    None => {},
                                }
                            }
                        },
                        Err(()) => {
                            return Err(());
                        },
                    }
                    i = i + 1;
                }
                assert(columns_view(fields@) + Seq::<ColumnView>::empty() =~= columns_view(
                    fields@,
                ));
                Ok(Column::Tuple(fields))
            },
            (Column::Union(this), Column::Union(that)) => {
                let mut variants = clone_variants(&this.variants);
                let ghost ys = variants_view(that.variants@);
                let ghost xs = variants_view(this.variants@);
                let mut i: usize = 0;
                while i < that.variants.len()
                    invariant
                        *self == Column::Union(*this),
                        *other == Column::Union(*that),
                        xs == variants_view(this.variants@),
                        ys == variants_view(that.variants@),
                        i <= that.variants@.len(),
                        merge_variants(xs, ys, 0) == merge_variants(
                            variants_view(variants@),
                            ys,
                            i as nat,
                        ),
                    decreases that.variants@.len() - i,
                {
                    let other_variant = &that.variants[i];
                    let ghost acc = variants_view(variants@);
                    proof {
                        lemma_merge_variants_step(acc, ys, i as nat);
                        assert(ys[i as int].name == other_variant.name@);
                    }
                    match find_variant(&variants, other_variant.name) {
                        None => {
                            let payload = match &other_variant.payload {
                                Some(p) => Some(clone_column(p)),
                                None => None,
                            };
                            variants.push(ColumnVariant { name: other_variant.name, payload });
                            assert(variants_view(variants@) =~= acc.push(ys[i as int]));
                        },
                        Some(k) => {
                            match (&variants[k].payload, &other_variant.payload) {
                                (Some(mine), Some(theirs)) => {
                                    proof {
                                        assert(decreases_to!(*other => (*other)->Union_0));
                                        assert(decreases_to!((*other)->Union_0 => that.variants));
                                        assert(decreases_to!(*other => that.variants@[i as int]));
                                        assert(decreases_to!(that.variants@[i as int] => that.variants@[i as int].payload));
                                        assert(decreases_to!(*other => that.variants@[i as int].payload->0));
                                    }
                                    match mine.merge(theirs) {
                                        Ok(merged) => {
                                            let name = variants[k].name;
                                            let ghost m = column_view(merged);
                                            variants.set(k, ColumnVariant { name, payload: Some(merged) });
                                            assert(variants_view(variants@) =~= acc.update(
                                                k as int,
                                                VariantView { name: acc[k as int].name, payload: Some(m) },
                                            ));
                                        },
                                        Err(()) => {
                                            return Err(());
                                        },
                                    }
                                },
                                (None, None) => {},
                                _ => {
                                    return Err(());
                                },
                            }
                        },
                    }
                    i = i + 1;
                }
                Ok(Column::Union(ColumnUnion { variants, is_open: this.is_open && that.is_open }))
            },
            _ => Err(()),
        }
    }
}

/// `n` wildcard patterns.
pub open spec fn wilds(n: nat) -> Seq<PatternView> {
    Seq::new(n, |i: int| PatternView::Wild)
}

/// `n` wildcard columns.
pub open spec fn wild_columns(n: nat) -> Seq<ColumnView> {
    Seq::new(n, |i: int| ColumnView::Wild)
}

/// A row of patterns, one per column; the first is kept last.
#[derive(Debug)]
pub struct Row {
    patterns: Vec<Pattern>,
}

/// The patterns of a row, the first last.
pub open spec fn row_view(row: Row) -> Seq<PatternView> {
    patterns_view(row.spec_patterns())
}

/// The row after specializing to constructor `kind`: a wildcard first
/// becomes as many wildcards as `kind` takes, a `kind` constructor first
/// gives way to its sub-patterns (the first of them first), and any other
/// constructor first drops the row.
pub open spec fn specialize_row(row: Seq<PatternView>, kind: KindView) -> Option<Seq<PatternView>> {
    if row.len() == 0 {
        None
    } else {
        match row.last() {
            PatternView::Wild => Some(row.drop_last() + wilds(arity(kind))),
            PatternView::Cons(k, fields) => if k == kind {
                Some(row.drop_last() + fields.reverse())
            } else {
                None
            },
        }
    }
}

/// Appends `items` to `out` last first.
fn push_patterns_reversed(out: &mut Vec<Pattern>, items: &Vec<Pattern>)
    ensures
        patterns_view(final(out)@) == patterns_view(old(out)@) + patterns_view(items@).reverse(),
{
    let ghost start = patterns_view(out@);
    let mut i = items.len();
    while i > 0
        invariant
            i <= items@.len(),
            patterns_view(out@) == start + patterns_view(items@).reverse().take(
                (items@.len() - i) as int,
            ),
        decreases i,
    {
        i = i - 1;
        let ghost before = out@;
        out.push(clone_pattern(&items[i]));
        assert(patterns_view(out@) =~= patterns_view(before).push(pattern_view(items@[i as int])));
        assert(patterns_view(items@).reverse().take((items@.len() - i) as int) =~= patterns_view(
            items@,
        ).reverse().take((items@.len() - i - 1) as int).push(pattern_view(items@[i as int])));
    }
    assert(patterns_view(items@).reverse().take(items@.len() as int) =~= patterns_view(
        items@,
    ).reverse());
}

/// Appends `n` wildcards to `out`.
fn push_wilds(out: &mut Vec<Pattern>, n: usize)
    ensures
        patterns_view(final(out)@) == patterns_view(old(out)@) + wilds(n as nat),
{
    let ghost start = patterns_view(out@);
    let mut i: usize = 0;
    while i < n
        invariant
            i <= n,
            patterns_view(out@) == start + wilds(i as nat),
        decreases n - i,
    {
        let ghost before = out@;
        out.push(Pattern::Wild);
        assert(patterns_view(out@) =~= patterns_view(before).push(PatternView::Wild));
        assert(start + wilds((i + 1) as nat) =~= (start + wilds(i as nat)).push(PatternView::Wild));
        i = i + 1;
    }
}

impl Row {
    pub closed spec fn spec_patterns(self) -> Seq<Pattern> {
        self.patterns@
    }

    /// A row of the single pattern `pat`.
    pub fn new(pat: Pattern) -> (r: Self)
        ensures
            row_view(r) == seq![pattern_view(pat)],
    {
        let mut patterns = Vec::new();
        patterns.push(pat);
        let r = Row { patterns };
        assert(row_view(r) =~= seq![pattern_view(pat)]);
        r
    }

    /// The first pattern of the row, if any.
    pub fn first(&self) -> (r: Option<&Pattern>)
        ensures
            match r {
                Some(p) => row_view(*self).len() > 0 && pattern_view(*p) == row_view(*self).last(),
                None => row_view(*self).len() == 0,
            },
    {
        if self.patterns.len() == 0 {
            None
        } else {
            Some(&self.patterns[self.patterns.len() - 1])
        }
    }

    /// The row without its first pattern, if it has one.
    pub fn tail(&self) -> (r: Option<Self>)
        ensures
            match r {
                Some(t) => row_view(*self).len() > 0 && row_view(t) == row_view(*self).drop_last(),
                None => row_view(*self).len() == 0,
            },
    {
        if self.patterns.len() == 0 {
            return None;
        }
        let mut patterns: Vec<Pattern> = Vec::new();
        let mut i: usize = 0;
        let n = self.patterns.len() - 1;
        while i < n
            invariant
                n == self.patterns@.len() - 1,
                i <= n,
                patterns_view(patterns@) == patterns_view(self.patterns@).take(i as int),
            decreases n - i,
        {
            let ghost before = patterns@;
            patterns.push(clone_pattern(&self.patterns[i]));
            assert(patterns_view(patterns@) =~= patterns_view(before).push(
                pattern_view(self.patterns@[i as int]),
            ));
            assert(patterns_view(self.patterns@).take(i + 1) =~= patterns_view(self.patterns@).take(
                i as int,
            ).push(pattern_view(self.patterns@[i as int])));
            i = i + 1;
        }
        let r = Row { patterns };
        assert(row_view(r) =~= row_view(*self).drop_last());
        Some(r)
    }

    /// The row specialized to constructor `kind`, if it survives.
    pub fn specialize(&self, kind: ConstructorKind) -> (r: Option<Self>)
        ensures
            match specialize_row(row_view(*self), kind@) {
                Some(v) => r is Some && row_view(r->0) == v,
                None => r is None,
            },
    {
        let first = match self.first() {
            Some(first) => first,
            None => return None,
        };
        match first {
            Pattern::Wild => {
                let mut row = self.tail().unwrap();
                push_wilds(&mut row.patterns, kind.arity());
                Some(row)
            },
            Pattern::Cons(cons) => {
                if cons.kind.same(&kind) {
                    let mut row = self.tail().unwrap();
                    push_patterns_reversed(&mut row.patterns, &cons.fields);
                    Some(row)
                } else {
                    None
                }
            },
        }
    }
}

/// The rows of a matrix of patterns.
#[derive(Debug)]
pub struct Matrix {
    rows: Vec<Row>,
}

pub open spec fn rows_view(rows: Seq<Row>) -> Seq<Seq<PatternView>> {
    rows.map_values(|r: Row| row_view(r))
}

/// What a matrix operation does to each row.
pub enum RowOp {
    /// Drop the first pattern.
    Tail,
    /// Keep the rows that start with a wildcard, without it.
    Default,
    /// Specialize to a constructor.
    Specialize(KindView),
}

pub open spec fn apply_op(op: RowOp, row: Seq<PatternView>) -> Option<Seq<PatternView>> {
    match op {
        RowOp::Tail => row_tail(row),
        RowOp::Default => row_default(row),
        RowOp::Specialize(kind) => specialize_row(row, kind),
    }
}

/// The rows that survive `op`, each as `op` leaves it, in order.
pub open spec fn filter_rows(rows: Seq<Seq<PatternView>>, op: RowOp) -> Seq<Seq<PatternView>>
    decreases rows.len(),
{
    if rows.len() == 0 {
        Seq::empty()
    } else {
        let rest = filter_rows(rows.drop_last(), op);
        match apply_op(op, rows.last()) {
            Some(r) => rest.push(r),
            None => rest,
        }
    }
}

/// A row without its first pattern.
pub open spec fn row_tail(row: Seq<PatternView>) -> Option<Seq<PatternView>> {
    if row.len() == 0 {
        None
    } else {
        Some(row.drop_last())
    }
}

/// The rest of a row whose first pattern is a wildcard.
pub open spec fn row_default(row: Seq<PatternView>) -> Option<Seq<PatternView>> {
    if row.len() > 0 && row.last() is Wild {
        Some(row.drop_last())
    } else {
        None
    }
}

proof fn lemma_filter_rows_push(rows: Seq<Seq<PatternView>>, row: Seq<PatternView>, op: RowOp)
    ensures
        filter_rows(rows.push(row), op) == match apply_op(op, row) {
            Some(r) => filter_rows(rows, op).push(r),
            None => filter_rows(rows, op),
        },
{
    assert(rows.push(row).drop_last() =~= rows);
}

impl Matrix {
    pub closed spec fn spec_rows(self) -> Seq<Seq<PatternView>> {
        rows_view(self.rows@)
    }

    /// A matrix with no rows.
    pub fn new() -> (r: Self)
        ensures
            r.spec_rows() == Seq::<Seq<PatternView>>::empty(),
    {
        let r = Matrix { rows: Vec::new() };
        assert(r.spec_rows() =~= Seq::<Seq<PatternView>>::empty());
        r
    }

    /// Adds `row` last.
    pub fn push(&mut self, row: Row)
        ensures
            final(self).spec_rows() == old(self).spec_rows().push(row_view(row)),
    {
        self.rows.push(row);
        assert(self.spec_rows() =~= old(self).spec_rows().push(row_view(row)));
    }

    /// The rows that have a first pattern, without it.
    pub fn tail(&self) -> (r: Self)
        ensures
            r.spec_rows() == filter_rows(self.spec_rows(), RowOp::Tail),
    {
        let ghost f = RowOp::Tail;
        let mut rows: Vec<Row> = Vec::new();
        let mut i: usize = 0;
        assert(self.spec_rows().take(0) =~= Seq::<Seq<PatternView>>::empty());
        while i < self.rows.len()
            invariant
                i <= self.rows@.len(),
                f == RowOp::Tail,
                rows_view(rows@) == filter_rows(self.spec_rows().take(i as int), f),
            decreases self.rows@.len() - i,
        {
            proof {
                assert(self.spec_rows().take(i + 1) =~= self.spec_rows().take(i as int).push(
                    row_view(self.rows@[i as int]),
                ));
                lemma_filter_rows_push(
                    self.spec_rows().take(i as int),
                    row_view(self.rows@[i as int]),
                    f,
                );
            }
            match self.rows[i].tail() {
                Some(row) => {
                    let ghost before = rows@;
                    rows.push(row);
                    assert(rows_view(rows@) =~= rows_view(before).push(row_view(row)));
                },
                None => {},
            }
            i = i + 1;
        }
        assert(self.spec_rows().take(self.rows@.len() as int) =~= self.spec_rows());
        Matrix { rows }
    }

    /// The rows specialized to constructor `kind`, those that survive.
    pub fn specialize(&self, kind: ConstructorKind) -> (r: Self)
        ensures
            r.spec_rows() == filter_rows(self.spec_rows(), RowOp::Specialize(kind@)),
    {
        let ghost f = RowOp::Specialize(kind@);
        let mut rows: Vec<Row> = Vec::new();
        let mut i: usize = 0;
        assert(self.spec_rows().take(0) =~= Seq::<Seq<PatternView>>::empty());
        while i < self.rows.len()
            invariant
                i <= self.rows@.len(),
                f == RowOp::Specialize(kind@),
                rows_view(rows@) == filter_rows(self.spec_rows().take(i as int), f),
            decreases self.rows@.len() - i,
        {
            proof {
                assert(self.spec_rows().take(i + 1) =~= self.spec_rows().take(i as int).push(
                    row_view(self.rows@[i as int]),
                ));
                lemma_filter_rows_push(
                    self.spec_rows().take(i as int),
                    row_view(self.rows@[i as int]),
                    f,
                );
            }
            match self.rows[i].specialize(kind) {
                Some(row) => {
                    let ghost before = rows@;
                    rows.push(row);
                    assert(rows_view(rows@) =~= rows_view(before).push(row_view(row)));
                },
                None => {},
            }
            i = i + 1;
        }
        assert(self.spec_rows().take(self.rows@.len() as int) =~= self.spec_rows());
        Matrix { rows }
    }

    /// The rows whose first pattern is a wildcard, without it.
    pub fn default(&self) -> (r: Self)
        ensures
            r.spec_rows() == filter_rows(self.spec_rows(), RowOp::Default),
    {
        let ghost f = RowOp::Default;
        let mut rows: Vec<Row> = Vec::new();
        let mut i: usize = 0;
        assert(self.spec_rows().take(0) =~= Seq::<Seq<PatternView>>::empty());
        while i < self.rows.len()
            invariant
                i <= self.rows@.len(),
                f == RowOp::Default,
                rows_view(rows@) == filter_rows(self.spec_rows().take(i as int), f),
            decreases self.rows@.len() - i,
        {
            proof {
                assert(self.spec_rows().take(i + 1) =~= self.spec_rows().take(i as int).push(
                    row_view(self.rows@[i as int]),
                ));
                lemma_filter_rows_push(
                    self.spec_rows().take(i as int),
                    row_view(self.rows@[i as int]),
                    f,
                );
            }
            let wild_first = match self.rows[i].first() {
                Some(p) => p.is_wild(),
                None => false,
            };
            if wild_first {
                match self.rows[i].tail() {
                    Some(row) => {
                        let ghost before = rows@;
                        rows.push(row);
                        assert(rows_view(rows@) =~= rows_view(before).push(row_view(row)));
                    },
                    None => {},
                }
            }
            i = i + 1;
        }
        assert(self.spec_rows().take(self.rows@.len() as int) =~= self.spec_rows());
        Matrix { rows }
    }

    /// Whether some row starts with a wildcard.
    pub fn is_wild(&self) -> (r: bool)
        ensures
            r == exists|i: int|
                0 <= i < self.spec_rows().len() && self.spec_rows()[i].len() > 0
                    && self.spec_rows()[i].last() is Wild,
    {
        let mut i: usize = 0;
        while i < self.rows.len()
            invariant
                i <= self.rows@.len(),
                forall|j: int|
                    0 <= j < i ==> !(self.spec_rows()[j].len() > 0 && self.spec_rows()[j].last() is Wild),
            decreases self.rows@.len() - i,
        {
            match self.rows[i].first() {
                Some(p) => {
                    if p.is_wild() {
                        assert(self.spec_rows()[i as int] == row_view(self.rows@[i as int]));
                        return true;
                    }
                },
                None => {},
            }
            assert(self.spec_rows()[i as int] == row_view(self.rows@[i as int]));
            i = i + 1;
        }
        false
    }
}

/// Whether the columns can be specialized to `kind`: there is a first
/// column, and a union first column is specialized only to one of its
/// variants (or to a variant with an empty name).
pub open spec fn can_specialize(cs: Seq<ColumnView>, kind: KindView) -> bool {
    &&& cs.len() > 0
    &&& cs.last() matches ColumnView::Union(vs, _) ==> (kind matches KindView::Variant(name, _) && (
    name.len() > 0 ==> variant_index(vs, name) is Some))
}

/// The columns after specializing to constructor `kind`: the first column
/// gives way to the columns of `kind`'s sub-patterns, the first of them first.
pub open spec fn specialize_columns(cs: Seq<ColumnView>, kind: KindView) -> Seq<ColumnView> {
    let rest = cs.drop_last();
    match cs.last() {
        ColumnView::Wild => rest + wild_columns(arity(kind)),
        ColumnView::Str => rest,
        ColumnView::Tuple(fields) => rest + fields.reverse(),
        ColumnView::Union(vs, _) => match kind {
            KindView::Variant(name, _) => if name.len() == 0 {
                rest
            } else {
                match vs[variant_index(vs, name)->0].payload {
                    Some(p) => rest.push(p),
                    None => rest,
                }
            },
            _ => rest,
        },
    }
}

/// The columns of a pattern matrix, the first kept last.
#[derive(Debug)]
pub struct Columns {
    columns: Vec<Column>,
}

impl Columns {
    pub closed spec fn spec_columns(self) -> Seq<ColumnView> {
        columns_view(self.columns@)
    }

    /// The single column `column`.
    pub fn new(column: Column) -> (r: Self)
        ensures
            r.spec_columns() == seq![column_view(column)],
    {
        let mut columns = Vec::new();
        columns.push(column);
        let r = Columns { columns };
        assert(r.spec_columns() =~= seq![column_view(column)]);
        r
    }

    /// The first column, if any.
    pub fn first(&self) -> (r: Option<&Column>)
        ensures
            match r {
                Some(c) => self.spec_columns().len() > 0 && column_view(*c)
                    == self.spec_columns().last(),
                None => self.spec_columns().len() == 0,
            },
    {
        if self.columns.len() == 0 {
            None
        } else {
            Some(&self.columns[self.columns.len() - 1])
        }
    }

    /// The columns after the first, if there is a first.
    pub fn tail(&self) -> (r: Option<Self>)
        ensures
            match r {
                Some(t) => self.spec_columns().len() > 0 && t.spec_columns()
                    == self.spec_columns().drop_last(),
                None => self.spec_columns().len() == 0,
            },
    {
        if self.columns.len() == 0 {
            return None;
        }
        let n = self.columns.len() - 1;
        let mut columns: Vec<Column> = Vec::new();
        let mut i: usize = 0;
        while i < n
            invariant
                n == self.columns@.len() - 1,
                i <= n,
                columns_view(columns@) == columns_view(self.columns@).take(i as int),
            decreases n - i,
        {
            let ghost before = columns@;
            columns.push(clone_column(&self.columns[i]));
            assert(columns_view(columns@) =~= columns_view(before).push(
                column_view(self.columns@[i as int]),
            ));
            assert(columns_view(self.columns@).take(i + 1) =~= columns_view(self.columns@).take(
                i as int,
            ).push(column_view(self.columns@[i as int])));
            i = i + 1;
        }
        let r = Columns { columns };
        assert(r.spec_columns() =~= self.spec_columns().drop_last());
        Some(r)
    }

    /// The columns specialized to constructor `kind`.
    pub fn specialize(&self, kind: ConstructorKind) -> (r: Self)
        requires
            can_specialize(self.spec_columns(), kind@),
        ensures
            r.spec_columns() == specialize_columns(self.spec_columns(), kind@),
    {
        let mut columns = self.tail().unwrap();
        let first = &self.columns[self.columns.len() - 1];
        let ghost rest = columns.spec_columns();
        assert(self.spec_columns().last() == column_view(*first));
        match first {
            Column::Wild => {
                let n = kind.arity();
                let mut i: usize = 0;
                while i < n
                    invariant
                        i <= n,
                        columns.spec_columns() == rest + wild_columns(i as nat),
                    decreases n - i,
                {
                    let ghost before = columns.columns@;
                    columns.columns.push(Column::Wild);
                    assert(columns_view(columns.columns@) =~= columns_view(before).push(
                        ColumnView::Wild,
                    ));
                    assert(rest + wild_columns((i + 1) as nat) =~= (rest + wild_columns(
                        i as nat,
                    )).push(ColumnView::Wild));
                    i = i + 1;
                }
                assert(columns.spec_columns() == specialize_columns(self.spec_columns(), kind@));
            },
            Column::Str => {
                assert(columns.spec_columns() == specialize_columns(self.spec_columns(), kind@));
            },
            Column::Tuple(fields) => {
                let ghost fs = columns_view(fields@);
                let mut i = fields.len();
                while i > 0
                    invariant
                        i <= fields@.len(),
                        fs == columns_view(fields@),
                        columns.spec_columns() == rest + fs.reverse().take(
                            (fields@.len() - i) as int,
                        ),
                    decreases i,
                {
                    i = i - 1;
                    let ghost before = columns.columns@;
                    columns.columns.push(clone_column(&fields[i]));
                    assert(columns_view(columns.columns@) =~= columns_view(before).push(
                        column_view(fields@[i as int]),
                    ));
                    assert(fs.reverse().take((fields@.len() - i) as int) =~= fs.reverse().take(
                        (fields@.len() - i - 1) as int,
                    ).push(fs[i as int]));
                }
                assert(fs.reverse().take(fields@.len() as int) =~= fs.reverse());
                assert(columns.spec_columns() == specialize_columns(self.spec_columns(), kind@));
            },
            Column::Union(union) => {
                let name = match kind {
                    ConstructorKind::Variant(name, _) => name,
                    _ => {
                        assert(false);
                        return columns;
                    },
                };
                if !name.is_empty() {
                    proof {
                        lemma_variant_index(variants_view(union.variants@), name@);
                        assert(name@.len() > 0);
                    }
                    let ghost vs = variants_view(union.variants@);
                    assert(column_view(*first) == ColumnView::Union(vs, union.is_open));
                    assert(kind@ matches KindView::Variant(n, _) && n == name@);
                    let k = find_variant(&union.variants, name).unwrap();
                    assert(variant_index(vs, name@) == Some(k as int));
                    assert(variants_view(union.variants@)[k as int].payload == match union.variants@[k as int].payload {
                        Some(c) => Some(column_view(c)),
                        None => None,
                    });
                    match &union.variants[k].payload {
                        Some(payload) => {
                            let ghost before = columns.columns@;
                            columns.columns.push(clone_column(payload));
                            assert(columns_view(columns.columns@) =~= columns_view(before).push(
                                column_view(*payload),
                            ));
                        },
                        None => {},
                    }
                    assert(columns.spec_columns() == specialize_columns(self.spec_columns(), kind@));
                }
                assert(columns.spec_columns() == specialize_columns(self.spec_columns(), kind@));
            },
        }
        columns
    }
}

/// `parts` joined with `sep` between each two.
pub open spec fn join(parts: Seq<Seq<char>>, sep: Seq<char>) -> Seq<char>
    decreases parts.len(),
{
    if parts.len() == 0 {
        Seq::empty()
    } else if parts.len() == 1 {
        parts[0]
    } else {
        join(parts.drop_last(), sep) + sep + parts.last()
    }
}

/// How a pattern is written in messages, parenthesized as `precedence`
/// needs: tuples inside anything, variants with a payload inside a payload.
pub open spec fn format_pattern(p: PatternView, precedence: u8) -> Seq<char>
    decreases p, 0nat,
{
    match p {
        PatternView::Wild => "_"@,
        PatternView::Cons(kind, fields) => match kind {
            KindView::Str(s) => "\""@ + s + "\""@,
            KindView::Tuple(..) => {
                let f = join(format_all(fields, 1), ", "@);
                if precedence > 0 {
                    "("@ + f + ")"@
                } else {
                    f
                }
            },
            KindView::Variant(name, _) => {
                let f = if fields.len() > 0 {
                    ":"@ + name + " "@ + format_pattern(fields[0], 2)
                } else {
                    ":"@ + name
                };
                if precedence > 2 {
                    "("@ + f + ")"@
                } else {
                    f
                }
            },
        },
    }
}

pub open spec fn format_all(s: Seq<PatternView>, precedence: u8) -> Seq<Seq<char>>
    decreases s, 1nat,
{
    Seq::new(
        s.len(),
        |i: int|
            if 0 <= i < s.len() {
                format_pattern(s[i], precedence)
            } else {
                Seq::empty()
            },
    )
}

impl Pattern {
    /// How the pattern is written in messages.
    pub fn format(&self) -> (r: String)
        ensures
            r@ == format_pattern(pattern_view(*self), 0),
    {
        self.format_recurse(0)
    }

    fn format_recurse(&self, precedence: u8) -> (r: String)
        ensures
            r@ == format_pattern(pattern_view(*self), precedence),
        decreases self,
    {
        match self {
            Pattern::Wild => String::from_str("_"),
            Pattern::Cons(cons) => match cons.kind {
                ConstructorKind::Str(s) => String::from_str("\"").concat(s).concat("\""),
                ConstructorKind::Tuple(_) => {
                    let ghost parts = format_all(patterns_view(cons.fields@), 1);
                    let mut f = String::new();
                    let mut i: usize = 0;
                    while i < cons.fields.len()
                        invariant
                            *self == Pattern::Cons(*cons),
                            parts == format_all(patterns_view(cons.fields@), 1),
                            i <= cons.fields@.len(),
                            f@ == join(parts.take(i as int), ", "@),
                        decreases cons.fields@.len() - i,
                    {
                        proof {
                            assert(decreases_to!(*self => (*self)->Cons_0));
                            assert(decreases_to!(*self => cons.fields@[i as int]));
                        }
                        let part = cons.fields[i].format_recurse(1);
                        assert(parts.take(i + 1).drop_last() =~= parts.take(i as int));
                        if i == 0 {
                            f = part;
                            assert(parts.take(1) =~= seq![parts[0]]);
                        } else {
                            f = f.concat(", ").concat(part.as_str());
                        }
                        i = i + 1;
                    }
                    assert(parts.take(cons.fields@.len() as int) =~= parts);
                    if precedence > 0 {
                        String::from_str("(").concat(f.as_str()).concat(")")
                    } else {
                        f
                    }
                },
                ConstructorKind::Variant(name, _) => {
                    let mut f = String::from_str(":").concat(name);
                    if cons.fields.len() > 0 {
                        proof {
                            assert(decreases_to!(*self => (*self)->Cons_0));
                            assert(decreases_to!(*self => cons.fields@[0]));
                        }
                        let payload = cons.fields[0].format_recurse(2);
                        f = f.concat(" ").concat(payload.as_str());
                    }
                    if precedence > 2 {
                        String::from_str("(").concat(f.as_str()).concat(")")
                    } else {
                        f
                    }
                },
            },
        }
    }
}

/// Stacks of patterns as plain values.
pub open spec fn stacks_view(v: Seq<Vec<Pattern>>) -> Seq<Seq<PatternView>> {
    v.map_values(|s: Vec<Pattern>| patterns_view(s@))
}

/// `stack` with its top `kind.arity()` patterns folded into one `kind`
/// constructor, the topmost becoming its first field.
fn rebuild_stack(stack: &Vec<Pattern>, kind: ConstructorKind) -> (r: Vec<Pattern>)
    requires
        stack@.len() >= arity(kind@),
    ensures
        patterns_view(r@) == rebuild(patterns_view(stack@), kind@),
{
    let ghost sv = patterns_view(stack@);
    let m = stack.len() - kind.arity();
    let mut out: Vec<Pattern> = Vec::new();
    let mut i: usize = 0;
    while i < m
        invariant
            m == stack@.len() - arity(kind@),
            i <= m,
            sv == patterns_view(stack@),
            patterns_view(out@) == sv.take(i as int),
        decreases m - i,
    {
        let ghost before = out@;
        out.push(clone_pattern(&stack[i]));
        assert(patterns_view(out@) =~= patterns_view(before).push(sv[i as int]));
        assert(sv.take(i + 1) =~= sv.take(i as int).push(sv[i as int]));
        i = i + 1;
    }
    let mut fields: Vec<Pattern> = Vec::new();
    let mut j = stack.len();
    while j > m
        invariant
            m == stack@.len() - arity(kind@),
            m <= j <= stack@.len(),
            sv == patterns_view(stack@),
            patterns_view(fields@) == sv.skip(j as int).reverse(),
        decreases j,
    {
        j = j - 1;
        let ghost before = fields@;
        fields.push(clone_pattern(&stack[j]));
        assert(patterns_view(fields@) =~= patterns_view(before).push(sv[j as int]));
        assert(sv.skip(j as int).reverse() =~= sv.skip(j + 1).reverse().push(sv[j as int]));
    }
    let ghost fv = patterns_view(fields@);
    let ghost before = out@;
    out.push(Pattern::Cons(Constructor { kind, fields }));
    assert(patterns_view(out@) =~= patterns_view(before).push(PatternView::Cons(kind@, fv)));
    out
}

impl Matrix {
    /// Whether every row still has a pattern.
    fn rows_nonempty(&self) -> (r: bool)
        ensures
            r == forall|i: int| 0 <= i < self.spec_rows().len() ==> self.spec_rows()[i].len() > 0,
    {
        let mut i: usize = 0;
        while i < self.rows.len()
            invariant
                i <= self.rows@.len(),
                forall|j: int| 0 <= j < i ==> self.spec_rows()[j].len() > 0,
            decreases self.rows@.len() - i,
        {
            assert(self.spec_rows()[i as int] == row_view(self.rows@[i as int]));
            if self.rows[i].patterns.len() == 0 {
                return false;
            }
            i = i + 1;
        }
        true
    }

    /// Whether `row` is useful against the rows of the matrix, the values
    /// being of the shape `column`.
    pub fn is_useful(&self, column: &Column, row: &Row) -> (r: bool)
        requires
            aligned(row_view(*row), seq![column_view(*column)]),
        ensures
            r == useful(self.spec_rows(), seq![column_view(*column)], row_view(*row)),
    {
        let columns = Columns::new(clone_column(column));
        self.is_useful_recurse(&columns, row)
    }

    fn is_useful_recurse(&self, columns: &Columns, row: &Row) -> (r: bool)
        requires
            aligned(row_view(*row), columns.spec_columns()),
        ensures
            r == useful(self.spec_rows(), columns.spec_columns(), row_view(*row)),
        decreases row_measure(row_view(*row), columns.spec_columns()),
    {
        let ghost rv = row_view(*row);
        let ghost cs = columns.spec_columns();
        let pat = match row.first() {
            Some(pat) => pat,
            None => {
                return self.rows_nonempty();
            },
        };
        match pat {
            Pattern::Cons(cons) => {
                proof {
                    lemma_aligned_cons(rv, cs);
                    lemma_cons_shrinks(rv, cs);
                }
                let matrix = self.specialize(cons.kind);
                let next = row.specialize(cons.kind).unwrap();
                let cols = columns.specialize(cons.kind);
                matrix.is_useful_recurse(&cols, &next)
            },
            Pattern::Wild => {
                let column = columns.first().unwrap();
                match column.constructors() {
                    None => {
                        proof {
                            lemma_aligned_tail(rv, cs);
                            lemma_tail_shrinks(rv, cs);
                        }
                        let matrix = self.default();
                        let next = row.tail().unwrap();
                        let cols = columns.tail().unwrap();
                        matrix.is_useful_recurse(&cols, &next)
                    },
                    Some(kinds) => {
                        let ghost ks = constructors(cs.last())->0;
                        let mut i: usize = 0;
                        while i < kinds.len()
                            invariant
                                i <= kinds@.len(),
                                kinds_view(kinds@) == ks,
                                constructors(cs.last()) == Some(ks),
                                rv == row_view(*row),
                                cs == columns.spec_columns(),
                                aligned(rv, cs),
                                rv.len() > 0,
                                rv.last() is Wild,
                                forall|j: int|
                                    0 <= j < i ==> !useful(
                                        filter_rows(self.spec_rows(), RowOp::Specialize(ks[j])),
                                        specialize_columns(cs, ks[j]),
                                        rv.drop_last() + wilds(arity(ks[j])),
                                    ),
                            decreases kinds@.len() - i,
                        {
                            let kind = kinds[i];
                            assert(kind@ == ks[i as int]);
                            proof {
                                lemma_aligned_expand(rv, cs, i as int);
                                lemma_expand_shrinks(rv, cs);
                                assert(row_measure(
                                    rv.drop_last() + wilds(arity(ks[i as int])),
                                    specialize_columns(cs, ks[i as int]),
                                ) < row_measure(rv, cs));
                            }
                            let matrix = self.specialize(kind);
                            let next = row.specialize(kind).unwrap();
                            let cols = columns.specialize(kind);
                            if matrix.is_useful_recurse(&cols, &next) {
                                return true;
                            }
                            i = i + 1;
                        }
                        false
                    },
                }
            },
        }
    }
}

impl Matrix {
    /// The patterns that no row of the matrix covers, the values being of
    /// the shape `column`.
    pub fn unexhausted_pats(&self, column: &Column) -> (r: Vec<Pattern>)
        requires
            column_wf(column_view(*column)),
        ensures
            patterns_view(r@) == missing(self.spec_rows(), seq![column_view(*column)]).map_values(
                |s: Seq<PatternView>| s.last(),
            ),
    {
        let columns = Columns::new(clone_column(column));
        let ghost cs = columns.spec_columns();
        let ghost m = missing(self.spec_rows(), cs);
        proof {
            lemma_missing_len(self.spec_rows(), cs);
        }
        let stacks = self.unexhausted_pats_recurse(&columns);
        let mut out: Vec<Pattern> = Vec::new();
        let mut i: usize = 0;
        while i < stacks.len()
            invariant
                i <= stacks@.len(),
                stacks_view(stacks@) == m,
                forall|j: int| 0 <= j < m.len() ==> #[trigger] m[j].len() == 1,
                patterns_view(out@) == m.map_values(|s: Seq<PatternView>| s.last()).take(i as int),
            decreases stacks@.len() - i,
        {
            let stack = &stacks[i];
            assert(m[i as int] == patterns_view(stack@));
            let ghost before = out@;
            out.push(clone_pattern(&stack[stack.len() - 1]));
            assert(patterns_view(out@) =~= patterns_view(before).push(m[i as int].last()));
            assert(m.map_values(|s: Seq<PatternView>| s.last()).take(i + 1) =~= m.map_values(
                |s: Seq<PatternView>| s.last(),
            ).take(i as int).push(m[i as int].last()));
            i = i + 1;
        }
        assert(m.map_values(|s: Seq<PatternView>| s.last()).take(m.len() as int) =~= m.map_values(
            |s: Seq<PatternView>| s.last(),
        ));
        out
    }

    fn unexhausted_pats_recurse(&self, columns: &Columns) -> (r: Vec<Vec<Pattern>>)
        requires
            columns_wf(columns.spec_columns()),
        ensures
            stacks_view(r@) == missing(self.spec_rows(), columns.spec_columns()),
        decreases total(column_sizes(columns.spec_columns())),
    {
        let ghost cs = columns.spec_columns();
        let ghost rows = self.spec_rows();
        let column = match columns.first() {
            Some(c) => c,
            None => {
                let mut out: Vec<Vec<Pattern>> = Vec::new();
                if self.rows_nonempty() {
                    let empty: Vec<Pattern> = Vec::new();
                    assert(patterns_view(empty@) =~= Seq::<PatternView>::empty());
                    out.push(empty);
                }
                assert(stacks_view(out@) =~= missing(rows, cs));
                return out;
            },
        };
        match column.constructors() {
            None => {
                proof {
                    lemma_columns_split(cs);
                    assert forall|i: int| 0 <= i < cs.len() - 1 implies column_wf(
                        #[trigger] cs.drop_last()[i],
                    ) by {
                        assert(column_wf(cs[i]));
                    }
                }
                let matrix = self.default();
                let cols = columns.tail().unwrap();
                let stacks = matrix.unexhausted_pats_recurse(&cols);
                let ghost m = missing(matrix.spec_rows(), cols.spec_columns());
                let ghost pushed = m.map_values(|s: Seq<PatternView>| s.push(PatternView::Wild));
                assert(missing(rows, cs) == pushed);
                let mut out: Vec<Vec<Pattern>> = Vec::new();
                let mut i: usize = 0;
                while i < stacks.len()
                    invariant
                        i <= stacks@.len(),
                        stacks_view(stacks@) == m,
                        pushed == m.map_values(|s: Seq<PatternView>| s.push(PatternView::Wild)),
                        stacks_view(out@) == pushed.take(i as int),
                    decreases stacks@.len() - i,
                {
                    let mut stack = clone_patterns(&stacks[i]);
                    let ghost cloned = stack@;
                    stack.push(Pattern::Wild);
                    assert(patterns_view(stack@) =~= patterns_view(cloned).push(PatternView::Wild));
                    assert(patterns_view(stack@) == pushed[i as int]);
                    let ghost before = out@;
                    out.push(stack);
                    assert(stacks_view(out@) =~= stacks_view(before).push(pushed[i as int]));
                    assert(pushed.take(i + 1) =~= pushed.take(i as int).push(pushed[i as int]));
                    i = i + 1;
                }
                assert(pushed.take(pushed.len() as int) =~= pushed);
                out
            },
            Some(kinds) => {
                let ghost ks = constructors(cs.last())->0;
                let mut out: Vec<Vec<Pattern>> = Vec::new();
                let mut i: usize = 0;
                assert(stacks_view(out@) =~= missing_upto(rows, cs, 0));
                while i < kinds.len()
                    invariant
                        i <= kinds@.len(),
                        kinds_view(kinds@) == ks,
                        cs.len() > 0,
                        constructors(cs.last()) == Some(ks),
                        cs == columns.spec_columns(),
                        rows == self.spec_rows(),
                        columns_wf(cs),
                        stacks_view(out@) == missing_upto(rows, cs, i as nat),
                    decreases kinds@.len() - i,
                {
                    let kind = kinds[i];
                    assert(kind@ == ks[i as int]);
                    proof {
                        lemma_constructor_size(cs, i as int);
                        lemma_expand_columns(cs, i as int);
                    }
                    let matrix = self.specialize(kind);
                    let cols = columns.specialize(kind);
                    let stacks = matrix.unexhausted_pats_recurse(&cols);
                    let ghost m = missing(matrix.spec_rows(), cols.spec_columns());
                    let ghost rebuilt = m.map_values(|s: Seq<PatternView>| rebuild(s, kind@));
                    let ghost start = missing_upto(rows, cs, i as nat);
                    proof {
                        lemma_missing_len(matrix.spec_rows(), cols.spec_columns());
                    }
                    let mut j: usize = 0;
                    while j < stacks.len()
                        invariant
                            j <= stacks@.len(),
                            stacks_view(stacks@) == m,
                            forall|k: int| 0 <= k < m.len() ==> #[trigger] m[k].len() == cols.spec_columns().len(),
                            cols.spec_columns().len() == cs.len() - 1 + arity(kind@),
                            cs.len() > 0,
                            rebuilt == m.map_values(|s: Seq<PatternView>| rebuild(s, kind@)),
                            stacks_view(out@) == start + rebuilt.take(j as int),
                        decreases stacks@.len() - j,
                    {
                        assert(m[j as int] == patterns_view(stacks@[j as int]@));
                        let stack = rebuild_stack(&stacks[j], kind);
                        let ghost before = out@;
                        out.push(stack);
                        assert(stacks_view(out@) =~= stacks_view(before).push(rebuilt[j as int]));
                        assert(rebuilt.take(j + 1) =~= rebuilt.take(j as int).push(rebuilt[j as int]));
                        j = j + 1;
                    }
                    assert(rebuilt.take(rebuilt.len() as int) =~= rebuilt);
                    assert(missing_upto(rows, cs, (i + 1) as nat) == start + rebuilt);
                    i = i + 1;
                }
                assert(missing(rows, cs) == missing_upto(rows, cs, ks.len()));
                out
            },
        }
    }
}

/// The merges of two stacks of columns, position by position, as far as
/// both go.
fn zip_merge_columns(a: &Vec<Column>, b: &Vec<Column>) -> (r: Vec<Column>)
    requires
        forall|j: int|
            0 <= j < a@.len() && j < b@.len() ==> (#[trigger] merge(
                column_view(a@[j]),
                column_view(b@[j]),
            )) is Some,
    ensures
        columns_view(r@) == zip_merge(columns_view(a@), columns_view(b@)),
{
    let ghost target = zip_merge(columns_view(a@), columns_view(b@));
    let mut out: Vec<Column> = Vec::new();
    let mut j: usize = 0;
    while j < a.len() && j < b.len()
        invariant
            j <= a@.len(),
            j <= b@.len(),
            target == zip_merge(columns_view(a@), columns_view(b@)),
            forall|k: int|
                0 <= k < a@.len() && k < b@.len() ==> (#[trigger] merge(
                    column_view(a@[k]),
                    column_view(b@[k]),
                )) is Some,
            columns_view(out@) == target.take(j as int),
        decreases a@.len() - j,
    {
        let merged = match a[j].merge(&b[j]) {
            Ok(c) => c,
            Err(_) => {
                assert(merge(column_view(a@[j as int]), column_view(b@[j as int])) is Some);
                Column::Wild
            },
        };
        let ghost before = out@;
        out.push(merged);
        assert(columns_view(out@) =~= columns_view(before).push(column_view(merged)));
        assert(target.take(j + 1) =~= target.take(j as int).push(target[j as int]));
        j = j + 1;
    }
    assert(target.take(j as int) =~= target);
    out
}

impl Matrix {
    /// `column` opened against the rows of the matrix: each closed union is
    /// marked open where some row leaves it to a wildcard, and what cannot
    /// be listed constructor by constructor becomes a wildcard.
    pub fn open_column(&self, column: Column) -> (r: Column)
        requires
            openable(seq![column_view(column)]),
        ensures
            column_view(r) == opened(self.spec_rows(), seq![column_view(column)]).last(),
    {
        let columns = Columns::new(column);
        let ghost cs = columns.spec_columns();
        proof {
            lemma_opened_shape(self.spec_rows(), cs);
        }
        let mut stack = self.open_column_recurse(&columns);
        let ghost before = columns_view(stack@);
        let r = stack.pop().unwrap();
        r
    }

    fn open_column_recurse(&self, columns: &Columns) -> (r: Vec<Column>)
        requires
            openable(columns.spec_columns()),
        ensures
            columns_view(r@) == opened(self.spec_rows(), columns.spec_columns()),
        decreases total(column_sizes(columns.spec_columns())), 1nat,
    {
        let ghost cs = columns.spec_columns();
        let ghost rows = self.spec_rows();
        let column = match columns.first() {
            Some(c) => c,
            None => {
                let out: Vec<Column> = Vec::new();
                assert(columns_view(out@) =~= Seq::<ColumnView>::empty());
                return out;
            },
        };
        match column.constructors() {
            None => {
                proof {
                    lemma_columns_split(cs);
                    lemma_openable_tail(cs);
                }
                let matrix = self.tail();
                let cols = columns.tail().unwrap();
                let mut stack = matrix.open_column_recurse(&cols);
                let ghost before = stack@;
                stack.push(Column::Wild);
                assert(columns_view(stack@) =~= columns_view(before).push(ColumnView::Wild));
                stack
            },
            Some(kinds) => {
                let ghost ks = constructors(cs.last())->0;
                proof {
                    lemma_opened_upto_shape(rows, cs, 1);
                }
                let mut acc = self.open_branch(columns, &kinds, 0);
                let mut i: usize = 1;
                while i < kinds.len()
                    invariant
                        1 <= i <= kinds@.len(),
                        kinds_view(kinds@) == ks,
                        ks == constructors(cs.last())->0,
                        constructors(cs.last()) is Some,
                        cs == columns.spec_columns(),
                        rows == self.spec_rows(),
                        openable(cs),
                        cs.len() > 0,
                        columns_view(acc@) == opened_upto(rows, cs, i as nat),
                    decreases kinds@.len() - i,
                {
                    proof {
                        lemma_opened_upto_shape(rows, cs, (i + 1) as nat);
                        lemma_constructor_size(cs, i as int);
                    }
                    let branch = self.open_branch(columns, &kinds, i);
                    proof {
                        assert forall|j: int| 0 <= j < acc@.len() && j < branch@.len() implies (
                        #[trigger] merge(column_view(acc@[j]), column_view(branch@[j]))) is Some by {
                            assert(columns_view(acc@)[j] == column_view(acc@[j]));
                            assert(columns_view(branch@)[j] == column_view(branch@[j]));
                        }
                    }
                    acc = zip_merge_columns(&acc, &branch);
                    i = i + 1;
                }
                assert(opened(rows, cs) == opened_upto(rows, cs, ks.len()));
                acc
            },
        }
    }

    fn open_branch(&self, columns: &Columns, kinds: &Vec<ConstructorKind>, i: usize) -> (r: Vec<
        Column,
    >)
        requires
            openable(columns.spec_columns()),
            columns.spec_columns().len() > 0,
            constructors(columns.spec_columns().last()) is Some,
            kinds_view(kinds@) == constructors(columns.spec_columns().last())->0,
            i < kinds@.len(),
        ensures
            columns_view(r@) == branch_at(self.spec_rows(), columns.spec_columns(), i as int),
        decreases total(column_sizes(columns.spec_columns())), 0nat,
    {
        let ghost cs = columns.spec_columns();
        let ghost rows = self.spec_rows();
        let kind = kinds[i];
        assert(kind@ == constructors(cs.last())->0[i as int]);
        proof {
            lemma_constructor_size(cs, i as int);
            lemma_openable_expand(cs, i as int);
        }
        let matrix = self.specialize(kind);
        let cols = columns.specialize(kind);
        proof {
            lemma_opened_shape(matrix.spec_rows(), cols.spec_columns());
        }
        let mut stack = matrix.open_column_recurse(&cols);
        let ghost st = columns_view(stack@);
        let column = match kind {
            ConstructorKind::Str(..) => Column::Str,
            ConstructorKind::Tuple(count) => {
                let mut fields: Vec<Column> = Vec::new();
                let mut j: usize = 0;
                while j < count
                    invariant
                        count <= st.len(),
                        j <= count,
                        columns_view(stack@) == st.take(st.len() - j),
                        columns_view(fields@) == st.skip(st.len() - j).reverse(),
                    decreases count - j,
                {
                    let ghost before_stack = stack@;
                    let ghost before_fields = fields@;
                    let c = stack.pop().unwrap();
                    assert(columns_view(stack@) =~= columns_view(before_stack).drop_last());
                    assert(column_view(c) == columns_view(before_stack)[before_stack.len() - 1]);
                    assert(column_view(c) == st[st.len() - j - 1]);
                    fields.push(c);
                    assert(columns_view(fields@) =~= columns_view(before_fields).push(column_view(c)));
                    assert(st.take(st.len() - j).drop_last() =~= st.take(st.len() - j - 1));
                    assert(st.skip(st.len() - j - 1).reverse() =~= st.skip(st.len() - j).reverse().push(
                        st[st.len() - j - 1],
                    ));
                    j = j + 1;
                }
                Column::Tuple(fields)
            },
            ConstructorKind::Variant(name, has_payload) => {
                let payload = if has_payload {
                    let ghost before_stack = stack@;
                    let c = stack.pop().unwrap();
                    assert(columns_view(stack@) =~= columns_view(before_stack).drop_last());
                    Some(c)
                } else {
                    None
                };
                let is_open = self.is_wild();
                let mut variants: Vec<ColumnVariant> = Vec::new();
                variants.push(ColumnVariant { name, payload });
                let c = Column::Union(ColumnUnion { variants, is_open });
                assert(variants_view(variants@) =~= seq![
                    VariantView {
                        name: name@,
                        payload: match payload {
                            Some(p) => Some(column_view(p)),
                            None => None,
                        },
                    },
                ]);
                c
            },
        };
        let ghost before = stack@;
        stack.push(column);
        assert(columns_view(stack@) =~= columns_view(before).push(column_view(column)));
        stack
    }
}

} // verus!
