//! Checking the arms of a `match`: the column of the values they cover,
//! the arms whose patterns do not fit it, the arms no value reaches, and
//! the patterns no arm handles.
use vstd::prelude::*;

use crate::ir::exhaust::{
    arity, clone_pattern, column_of, column_view, constructors, filter_rows, format_pattern,
    lemma_variant_index, merge, merge_fields, merge_variants, pattern_view, patterns_view,
    row_view, specialize_columns, variant_index, wild_columns, Column, ColumnView, KindView,
    Matrix, Pattern, PatternView, Row, RowOp, VariantView,
};
use crate::ir::exhaust_laws::{conforms, law_merge_covers, law_pattern_fits_its_column, well_formed};
use crate::ir::opening::{
    erased, erased_all, erased_variants, law_opening_keeps_shape, lemma_openable_expand,
    lemma_openable_tail, no_empty_union, openable, opened, shape, shapes, variant_shapes,
};
use crate::ir::usefulness::{
    aligned, column_wf, fits, law_catch_all_covers, law_exhaustive_iff_catch_all_unreachable,
    law_repeated_arm_unreachable, lemma_aligned_cons, lemma_aligned_expand, lemma_aligned_tail,
    lemma_cons_shrinks, lemma_expand_shrinks, lemma_tail_shrinks, missing, row_measure, useful,
};

verus! {

/// A pattern as the arms' patterns are built: each constructor has as many
/// sub-patterns as it takes, and a variant without a name has no payload.
pub open spec fn sound(p: PatternView) -> bool
    decreases p,
{
    match p {
        PatternView::Wild => true,
        PatternView::Cons(kind, fields) => {
            &&& fields.len() == arity(kind)
            &&& (kind matches KindView::Variant(name, has) ==> (name.len() == 0 ==> !has))
            &&& forall|i: int| 0 <= i < fields.len() ==> sound(#[trigger] fields[i])
        },
    }
}

proof fn lemma_sound_parts(p: PatternView)
    requires
        sound(p),
        p is Cons,
    ensures
        p->Cons_1.len() == arity(p->Cons_0),
        p->Cons_0 matches KindView::Variant(name, has) ==> (name.len() == 0 ==> !has),
        forall|i: int| 0 <= i < p->Cons_1.len() ==> sound(#[trigger] p->Cons_1[i]),
{
}

proof fn lemma_wf_parts(c: ColumnView)
    requires
        column_wf(c),
    ensures
        c is Tuple ==> forall|i: int| 0 <= i < c->Tuple_0.len() ==> column_wf(#[trigger] c->Tuple_0[i]),
        c is Union ==> forall|i: int, j: int|
            0 <= i < j < c->Union_0.len() ==> #[trigger] c->Union_0[i].name
                != #[trigger] c->Union_0[j].name,
        c is Union ==> forall|i: int|
            0 <= i < c->Union_0.len() ==> (#[trigger] c->Union_0[i].name.len() == 0
                ==> c->Union_0[i].payload is None),
        c is Union ==> forall|i: int|
            0 <= i < c->Union_0.len() ==> (#[trigger] c->Union_0[i].payload matches Some(p)
                ==> column_wf(p)),
{
}

proof fn lemma_wf_intro(c: ColumnView)
    requires
        c is Tuple ==> forall|i: int| 0 <= i < c->Tuple_0.len() ==> column_wf(#[trigger] c->Tuple_0[i]),
        c is Union ==> forall|i: int, j: int|
            0 <= i < j < c->Union_0.len() ==> #[trigger] c->Union_0[i].name
                != #[trigger] c->Union_0[j].name,
        c is Union ==> forall|i: int|
            0 <= i < c->Union_0.len() ==> (#[trigger] c->Union_0[i].name.len() == 0
                ==> c->Union_0[i].payload is None),
        c is Union ==> forall|i: int|
            0 <= i < c->Union_0.len() ==> (#[trigger] c->Union_0[i].payload matches Some(p)
                ==> column_wf(p)),
    ensures
        column_wf(c),
{
}

proof fn lemma_no_empty_parts(c: ColumnView)
    requires
        no_empty_union(c),
    ensures
        c is Tuple ==> forall|i: int|
            0 <= i < c->Tuple_0.len() ==> no_empty_union(#[trigger] c->Tuple_0[i]),
        c is Union ==> forall|i: int|
            0 <= i < c->Union_0.len() ==> (#[trigger] c->Union_0[i].payload matches Some(p)
                ==> no_empty_union(p)),
        c is Union && !c->Union_1 ==> c->Union_0.len() > 0,
{
}

proof fn lemma_no_empty_intro(c: ColumnView)
    requires
        c is Tuple ==> forall|i: int|
            0 <= i < c->Tuple_0.len() ==> no_empty_union(#[trigger] c->Tuple_0[i]),
        c is Union ==> forall|i: int|
            0 <= i < c->Union_0.len() ==> (#[trigger] c->Union_0[i].payload matches Some(p)
                ==> no_empty_union(p)),
        c is Union && !c->Union_1 ==> c->Union_0.len() > 0,
    ensures
        no_empty_union(c),
{
}

/// The column a sound pattern describes is well formed and has no empty
/// union.
pub proof fn lemma_column_of_ok(p: PatternView)
    requires
        sound(p),
    ensures
        column_wf(column_of(p)),
        no_empty_union(column_of(p)),
    decreases p,
{
    if let PatternView::Cons(kind, fields) = p {
        lemma_sound_parts(p);
        let c = column_of(p);
        match kind {
            KindView::Str(..) => {},
            KindView::Tuple(..) => {
                assert forall|i: int| 0 <= i < c->Tuple_0.len() implies column_wf(#[trigger] c->Tuple_0[i])
                    && no_empty_union(c->Tuple_0[i]) by {
                    lemma_column_of_ok(fields[i]);
                }
                lemma_wf_intro(c);
                lemma_no_empty_intro(c);
            },
            KindView::Variant(name, has) => {
                if fields.len() > 0 {
                    lemma_column_of_ok(fields[0]);
                }
                lemma_wf_intro(c);
                lemma_no_empty_intro(c);
            },
        }
    }
}

/// The properties merged variants keep: distinct names, no payload under
/// an empty name, well formed payloads without empty unions.
pub open spec fn variants_ok(vs: Seq<VariantView>) -> bool {
    &&& forall|i: int, j: int| 0 <= i < j < vs.len() ==> #[trigger] vs[i].name != #[trigger] vs[j].name
    &&& forall|i: int| 0 <= i < vs.len() ==> (#[trigger] vs[i].name.len() == 0 ==> vs[i].payload is None)
    &&& forall|i: int|
        0 <= i < vs.len() ==> (#[trigger] vs[i].payload matches Some(p) ==> column_wf(p)
            && no_empty_union(p))
}

/// Merging well formed columns without empty unions gives such a column.
pub proof fn lemma_merge_ok(a: ColumnView, b: ColumnView)
    requires
        column_wf(a),
        column_wf(b),
        no_empty_union(a),
        no_empty_union(b),
        merge(a, b) is Some,
    ensures
        column_wf(merge(a, b)->0),
        no_empty_union(merge(a, b)->0),
    decreases b, 0nat, 0nat,
{
    lemma_wf_parts(a);
    lemma_wf_parts(b);
    lemma_no_empty_parts(a);
    lemma_no_empty_parts(b);
    match b {
        ColumnView::Wild => {},
        _ => match a {
            ColumnView::Wild => {},
            ColumnView::Str => {},
            ColumnView::Tuple(xs) => {
                let ys = b->Tuple_0;
                lemma_merge_fields_ok(xs, ys, 0);
                let m = merge(a, b)->0;
                assert(m == ColumnView::Tuple(merge_fields(xs, ys, 0)->0));
                lemma_wf_intro(m);
                lemma_no_empty_intro(m);
            },
            ColumnView::Union(xs, xo) => {
                let ys = b->Union_0;
                let yo = b->Union_1;
                lemma_merge_variants_ok(xs, ys, 0);
                let out = merge_variants(xs, ys, 0)->0;
                let m = merge(a, b)->0;
                assert(m == ColumnView::Union(out, xo && yo));
                lemma_wf_intro(m);
                lemma_no_empty_intro(m);
            },
        },
    }
}

proof fn lemma_merge_fields_ok(xs: Seq<ColumnView>, ys: Seq<ColumnView>, i: nat)
    requires
        forall|j: int|
            0 <= j < xs.len() ==> column_wf(#[trigger] xs[j]) && no_empty_union(xs[j]),
        forall|j: int|
            0 <= j < ys.len() ==> column_wf(#[trigger] ys[j]) && no_empty_union(ys[j]),
        xs.len() == ys.len(),
        merge_fields(xs, ys, i) is Some,
    ensures
        forall|j: int|
            0 <= j < merge_fields(xs, ys, i)->0.len() ==> column_wf(
                #[trigger] merge_fields(xs, ys, i)->0[j],
            ) && no_empty_union(merge_fields(xs, ys, i)->0[j]),
    decreases ys, 1nat, ys.len() - i,
{
    if i < ys.len() {
        lemma_merge_ok(xs[i as int], ys[i as int]);
        lemma_merge_fields_ok(xs, ys, i + 1);
        let z = merge(xs[i as int], ys[i as int])->0;
        let zs = merge_fields(xs, ys, i + 1)->0;
        assert(merge_fields(xs, ys, i)->0 == seq![z] + zs);
        assert forall|j: int| 0 <= j < (seq![z] + zs).len() implies column_wf(
            #[trigger] (seq![z] + zs)[j],
        ) && no_empty_union((seq![z] + zs)[j]) by {
            if j > 0 {
                assert((seq![z] + zs)[j] == zs[j - 1]);
            }
        }
    }
}

proof fn lemma_merge_variants_ok(acc: Seq<VariantView>, ys: Seq<VariantView>, i: nat)
    requires
        variants_ok(acc),
        variants_ok(ys),
        merge_variants(acc, ys, i) is Some,
    ensures
        variants_ok(merge_variants(acc, ys, i)->0),
        merge_variants(acc, ys, i)->0.len() >= acc.len(),
        i < ys.len() ==> merge_variants(acc, ys, i)->0.len() > 0,
    decreases ys, 1nat, ys.len() - i,
{
    if i < ys.len() {
        let y = ys[i as int];
        lemma_variant_index(acc, y.name);
        match variant_index(acc, y.name) {
            None => {
                let next = acc.push(y);
                assert(variants_ok(next)) by {
                    assert forall|a: int, b: int| 0 <= a < b < next.len() implies #[trigger] next[a].name
                        != #[trigger] next[b].name by {
                        if b == acc.len() {
                            assert(acc[a].name != y.name);
                        }
                    }
                }
                lemma_merge_variants_ok(next, ys, i + 1);
            },
            Some(k) => match (acc[k].payload, y.payload) {
                (Some(p), Some(q)) => {
                    assert(merge(p, q) is Some);
                    lemma_merge_ok(p, q);
                    let m = merge(p, q)->0;
                    let next = acc.update(k, VariantView { name: acc[k].name, payload: Some(m) });
                    assert(variants_ok(next)) by {
                        assert forall|a: int, b: int| 0 <= a < b < next.len() implies #[trigger] next[a].name
                            != #[trigger] next[b].name by {
                            assert(next[a].name == acc[a].name);
                            assert(next[b].name == acc[b].name);
                        }
                        assert forall|a: int| 0 <= a < next.len() implies (#[trigger] next[a].name.len() == 0
                            ==> next[a].payload is None) by {
                            assert(next[a].name == acc[a].name);
                        }
                    }
                    lemma_merge_variants_ok(next, ys, i + 1);
                },
                (None, None) => {
                    lemma_merge_variants_ok(acc, ys, i + 1);
                },
                _ => {},
            },
        }
    }
}

/// A column whose erased form is the shape of a well formed column is well
/// formed.
pub proof fn lemma_shape_wf(x: ColumnView, c: ColumnView)
    requires
        column_wf(c),
        erased(x) == shape(c),
    ensures
        column_wf(x),
    decreases x,
{
    lemma_wf_parts(c);
    match x {
        ColumnView::Wild => {},
        ColumnView::Str => {
            assert(erased(x) == ColumnView::Str);
        },
        ColumnView::Tuple(xs) => {
            let cs = c->Tuple_0;
            assert(c is Tuple) by {
                if !(c is Tuple) {
                    assert(!(shape(c) is Tuple));
                }
            }
            assert(erased_all(xs) == shapes(cs));
            assert forall|i: int| 0 <= i < xs.len() implies column_wf(#[trigger] xs[i]) by {
                assert(erased_all(xs)[i] == erased(xs[i]));
                assert(shapes(cs)[i] == shape(cs[i]));
                lemma_shape_wf(xs[i], cs[i]);
            }
            lemma_wf_intro(x);
        },
        ColumnView::Union(xs, _) => {
            assert(c is Union && !c->Union_1) by {
                if !(c is Union && !c->Union_1) {
                    assert(!(shape(c) is Union));
                }
            }
            let vs = c->Union_0;
            assert(erased_variants(xs) == variant_shapes(vs));
            assert forall|i: int| 0 <= i < xs.len() implies xs[i].name == vs[i].name && (
            xs[i].payload is Some) == (vs[i].payload is Some) && (xs[i].payload is Some ==> erased(
                xs[i].payload->0,
            ) == shape(vs[i].payload->0)) by {
                assert(erased_variants(xs)[i] == variant_shapes(vs)[i]);
            }
            assert forall|i: int| 0 <= i < xs.len() implies (#[trigger] xs[i].payload matches Some(p)
                ==> column_wf(p)) by {
                if let Some(p) = xs[i].payload {
                    lemma_shape_wf(p, vs[i].payload->0);
                }
            }
            assert forall|i: int, j: int| 0 <= i < j < xs.len() implies #[trigger] xs[i].name
                != #[trigger] xs[j].name by {
                assert(vs[i].name != vs[j].name);
            }
            assert forall|i: int| 0 <= i < xs.len() implies (#[trigger] xs[i].name.len() == 0
                ==> xs[i].payload is None) by {
                assert(vs[i].name.len() == 0 ==> vs[i].payload is None);
            }
            lemma_wf_intro(x);
        },
    }
}

proof fn lemma_fits_cons_wild(p: PatternView)
    requires
        p is Cons,
        p->Cons_1.len() == arity(p->Cons_0),
        forall|i: int| 0 <= i < p->Cons_1.len() ==> fits(#[trigger] p->Cons_1[i], ColumnView::Wild),
    ensures
        fits(p, ColumnView::Wild),
{
}

/// A sound pattern fits a wildcard column.
pub proof fn lemma_fits_wild(p: PatternView)
    requires
        sound(p),
    ensures
        fits(p, ColumnView::Wild),
    decreases p,
{
    if let PatternView::Cons(kind, fields) = p {
        lemma_sound_parts(p);
        assert forall|i: int| 0 <= i < fields.len() implies fits(
            #[trigger] fields[i],
            ColumnView::Wild,
        ) by {
            lemma_fits_wild(fields[i]);
        }
        lemma_fits_cons_wild(p);
    }
}

/// A sound pattern that matches values of a well formed column's shape
/// fits every column of that shape.
pub proof fn lemma_conforms_fits(p: PatternView, c: ColumnView, x: ColumnView)
    requires
        sound(p),
        conforms(p, c),
        column_wf(c),
        erased(x) == shape(c),
    ensures
        fits(p, x),
    decreases p,
{
    if let PatternView::Cons(kind, fields) = p {
        lemma_sound_parts(p);
        lemma_wf_parts(c);
        match c {
            ColumnView::Str => {
                lemma_fits_wild(p);
            },
            ColumnView::Tuple(cs) => {
                assert(x is Tuple) by {
                    if !(x is Tuple) {
                        assert(!(erased(x) is Tuple));
                    }
                }
                let xs = x->Tuple_0;
                assert(erased_all(xs) == shapes(cs));
                assert(xs.len() == cs.len()) by {
                    assert(erased_all(xs).len() == xs.len());
                }
                assert forall|i: int| 0 <= i < fields.len() implies fits(#[trigger] fields[i], xs[i]) by {
                    assert(erased_all(xs)[i] == erased(xs[i]));
                    assert(shapes(cs)[i] == shape(cs[i]));
                    lemma_conforms_fits(fields[i], cs[i], xs[i]);
                }
            },
            ColumnView::Union(vs, is_open) => {
                if is_open {
                    lemma_fits_wild(p);
                } else {
                    let (name, has) = match kind {
                        KindView::Variant(name, has) => (name, has),
                        _ => {
                            assert(false);
                            (Seq::empty(), false)
                        },
                    };
                    let j = choose|j: int|
                        0 <= j < vs.len() && vs[j].name == name && if has {
                            &&& fields.len() == 1
                            &&& vs[j].payload is Some
                            &&& conforms(fields[0], vs[j].payload->0)
                        } else {
                            fields.len() == 0 && vs[j].payload is None
                        };
                    assert(x is Union) by {
                        if !(x is Union) {
                            assert(!(erased(x) is Union));
                        }
                    }
                    let xs = x->Union_0;
                    assert(erased_variants(xs) == variant_shapes(vs));
                    assert(xs.len() == vs.len()) by {
                        assert(erased_variants(xs).len() == xs.len());
                    }
                    assert(erased_variants(xs)[j] == variant_shapes(vs)[j]);
                    if name.len() > 0 {
                        lemma_variant_index(xs, name);
                        let k = variant_index(xs, name)->0;
                        if k != j {
                            assert(erased_variants(xs)[k] == variant_shapes(vs)[k]);
                            assert(vs[k].name == vs[j].name);
                        }
                        if has {
                            lemma_conforms_fits(fields[0], vs[j].payload->0, xs[j].payload->0);
                        }
                    }
                }
            },
            ColumnView::Wild => {},
        }
    }
}

/// A sound pattern has as many sub-patterns as its constructor takes, all
/// the way down.
pub proof fn lemma_sound_well_formed(p: PatternView)
    requires
        sound(p),
    ensures
        well_formed(p),
    decreases p,
{
    if let PatternView::Cons(kind, fields) = p {
        lemma_sound_parts(p);
        assert forall|i: int| 0 <= i < fields.len() implies well_formed(fields[i]) by {
            lemma_sound_well_formed(fields[i]);
        }
    }
}

/// What the first `n` arms give: the column that the patterns accepted
/// among them close, the arms accepted, and the arms whose patterns do not
/// merge with the column the arms before them closed.
pub open spec fn closed_upto(pats: Seq<PatternView>, n: nat) -> (ColumnView, Seq<int>, Seq<int>)
    decreases n,
{
    if n == 0 {
        (ColumnView::Wild, Seq::empty(), Seq::empty())
    } else {
        let prev = closed_upto(pats, (n - 1) as nat);
        match merge(prev.0, column_of(pats[n - 1])) {
            Some(m) => (m, prev.1.push(n - 1), prev.2),
            None => (prev.0, prev.1, prev.2.push(n - 1)),
        }
    }
}

/// The rows of the arms `arms`, one pattern each.
pub open spec fn arm_rows(pats: Seq<PatternView>, arms: Seq<int>) -> Seq<Seq<PatternView>> {
    arms.map_values(|i: int| seq![pats[i]])
}

/// Among the first `n` rows, the arms of those no value reaches past the
/// rows above them, the values being of the shape `column`.
pub open spec fn unreachable_upto(
    rows: Seq<Seq<PatternView>>,
    arms: Seq<int>,
    column: ColumnView,
    n: nat,
) -> Seq<int>
    decreases n,
{
    if n == 0 {
        Seq::empty()
    } else {
        let prev = unreachable_upto(rows, arms, column, (n - 1) as nat);
        if useful(rows.take(n - 1), seq![column], rows[n - 1]) {
            prev
        } else {
            prev.push(arms[n - 1])
        }
    }
}

/// The accepted arms of a `match` with patterns `pats`, as rows.
pub open spec fn match_rows(pats: Seq<PatternView>) -> Seq<Seq<PatternView>> {
    arm_rows(pats, closed_upto(pats, pats.len()).1)
}

/// The column of the values a `match` with patterns `pats` takes apart:
/// the column its accepted patterns close, opened against them.
pub open spec fn match_column(pats: Seq<PatternView>) -> ColumnView {
    opened(match_rows(pats), seq![closed_upto(pats, pats.len()).0]).last()
}

/// What checking the arms of a `match` finds.
pub struct MatchCheck {
    /// The column of the values the `match` takes apart.
    pub column: Column,
    /// The arms whose patterns do not fit the arms before them, in order.
    pub invalid: Vec<usize>,
    /// The accepted arms that no value reaches, in order.
    pub unreachable: Vec<usize>,
    /// The patterns no accepted arm handles.
    pub unhandled: Vec<Pattern>,
}

/// Checks the arms of a `match` whose patterns are `pats`, in order: an arm
/// whose pattern does not merge with the column of the arms accepted before
/// it is invalid and left out; the others are accepted. The column they
/// close is opened against them; an accepted arm no value reaches past the
/// accepted arms above it is unreachable; and the patterns the accepted
/// arms leave uncovered are unhandled.
pub fn check_match(pats: &Vec<Pattern>) -> (r: MatchCheck)
    requires
        forall|i: int| 0 <= i < pats@.len() ==> sound(#[trigger] pattern_view(pats@[i])),
    ensures
        column_view(r.column) == match_column(patterns_view(pats@)),
        r.invalid@.map_values(|i: usize| i as int) == closed_upto(
            patterns_view(pats@),
            pats@.len(),
        ).2,
        r.unreachable@.map_values(|i: usize| i as int) == unreachable_upto(
            match_rows(patterns_view(pats@)),
            closed_upto(patterns_view(pats@), pats@.len()).1,
            match_column(patterns_view(pats@)),
            match_rows(patterns_view(pats@)).len(),
        ),
        patterns_view(r.unhandled@) == missing(
            match_rows(patterns_view(pats@)),
            seq![match_column(patterns_view(pats@))],
        ).map_values(|s: Seq<PatternView>| s.last()),
{
    let ghost ps = patterns_view(pats@);
    let mut closed = Column::Wild;
    let mut accepted: Vec<usize> = Vec::new();
    let mut invalid: Vec<usize> = Vec::new();
    let mut matrix = Matrix::new();
    let mut i: usize = 0;
    assert(accepted@.map_values(|k: usize| k as int) =~= Seq::<int>::empty());
    assert(invalid@.map_values(|k: usize| k as int) =~= Seq::<int>::empty());
    assert(arm_rows(ps, Seq::empty()) =~= Seq::<Seq<PatternView>>::empty());
    while i < pats.len()
        invariant
            i <= pats@.len(),
            ps == patterns_view(pats@),
            forall|k: int| 0 <= k < pats@.len() ==> sound(#[trigger] pattern_view(pats@[k])),
            column_view(closed) == closed_upto(ps, i as nat).0,
            accepted@.map_values(|k: usize| k as int) == closed_upto(ps, i as nat).1,
            invalid@.map_values(|k: usize| k as int) == closed_upto(ps, i as nat).2,
            matrix.spec_rows() == arm_rows(ps, closed_upto(ps, i as nat).1),
            column_wf(column_view(closed)),
            no_empty_union(column_view(closed)),
            forall|k: int| 0 <= k < accepted@.len() ==> #[trigger] accepted@[k] < i,
            forall|k: int|
                0 <= k < accepted@.len() ==> conforms(
                    ps[#[trigger] accepted@[k] as int],
                    column_view(closed),
                ),
        decreases pats@.len() - i,
    {
        let ghost before = column_view(closed);
        let ghost p = ps[i as int];
        assert(p == pattern_view(pats@[i as int]));
        let column = Column::from_pat(&pats[i]);
        proof {
            lemma_column_of_ok(p);
        }
        match closed.merge(&column) {
            Ok(merged) => {
                proof {
                    lemma_merge_ok(before, column_of(p));
                    lemma_sound_well_formed(p);
                    law_pattern_fits_its_column(p);
                    law_merge_covers(before, column_of(p), p);
                    assert forall|k: int| 0 <= k < accepted@.len() implies conforms(
                        ps[#[trigger] accepted@[k] as int],
                        column_view(merged),
                    ) by {
                        law_merge_covers(before, column_of(p), ps[accepted@[k] as int]);
                    }
                }
                let ghost arms = accepted@.map_values(|k: usize| k as int);
                closed = merged;
                matrix.push(Row::new(clone_pattern(&pats[i])));
                accepted.push(i);
                proof {
                    assert(accepted@.map_values(|k: usize| k as int) =~= arms.push(i as int));
                    assert(arm_rows(ps, arms.push(i as int)) =~= arm_rows(ps, arms).push(seq![p]));
                }
            },
            Err(()) => {
                let ghost bad = invalid@.map_values(|k: usize| k as int);
                invalid.push(i);
                proof {
                    assert(invalid@.map_values(|k: usize| k as int) =~= bad.push(i as int));
                }
            },
        }
        i = i + 1;
    }
    let ghost c = closed_upto(ps, pats@.len()).0;
    let ghost rows = matrix.spec_rows();
    assert(rows == match_rows(ps));
    proof {
        law_opening_keeps_shape(rows, c);
    }
    let open = matrix.open_column(closed);
    let ghost o = column_view(open);
    assert(o == match_column(ps));
    proof {
        lemma_shape_wf(o, c);
    }
    let mut unreachable: Vec<usize> = Vec::new();
    let mut seen = Matrix::new();
    let mut j: usize = 0;
    assert(unreachable@.map_values(|k: usize| k as int) =~= Seq::<int>::empty());
    assert(rows.take(0) =~= Seq::<Seq<PatternView>>::empty());
    while j < accepted.len()
        invariant
            j <= accepted@.len(),
            ps == patterns_view(pats@),
            forall|k: int| 0 <= k < pats@.len() ==> sound(#[trigger] pattern_view(pats@[k])),
            rows == arm_rows(ps, accepted@.map_values(|k: usize| k as int)),
            forall|k: int| 0 <= k < accepted@.len() ==> #[trigger] accepted@[k] < pats@.len(),
            forall|k: int|
                0 <= k < accepted@.len() ==> conforms(ps[#[trigger] accepted@[k] as int], c),
            column_wf(c),
            o == column_view(open),
            column_wf(o),
            erased(o) == shape(c),
            seen.spec_rows() == rows.take(j as int),
            unreachable@.map_values(|k: usize| k as int) == unreachable_upto(
                rows,
                accepted@.map_values(|k: usize| k as int),
                o,
                j as nat,
            ),
        decreases accepted@.len() - j,
    {
        let a = accepted[j];
        let ghost p = ps[a as int];
        assert(p == pattern_view(pats@[a as int]));
        assert(rows[j as int] == seq![p]);
        proof {
            lemma_conforms_fits(p, c, o);
        }
        let copy = clone_pattern(&pats[a]);
        let row = Row::new(copy);
        assert(row_view(row) == seq![p]);
        assert(aligned(seq![p], seq![o]));
        let useful_row = seen.is_useful(&open, &row);
        let ghost dead = unreachable@.map_values(|k: usize| k as int);
        let ghost arms = accepted@.map_values(|k: usize| k as int);
        assert(arms[j as int] == a as int);
        assert(useful_row == useful(rows.take(j as int), seq![o], rows[j as int]));
        assert(unreachable_upto(rows, arms, o, (j + 1) as nat) == if useful_row {
            dead
        } else {
            dead.push(a as int)
        });
        if !useful_row {
            unreachable.push(a);
            assert(unreachable@.map_values(|k: usize| k as int) =~= dead.push(a as int));
        }
        seen.push(row);
        assert(rows.take(j + 1) =~= rows.take(j as int).push(rows[j as int]));
        j = j + 1;
    }
    let unhandled = matrix.unexhausted_pats(&open);
    MatchCheck { column: open, invalid, unreachable, unhandled }
}

/// What the arms accepted among the first `n` keep: a well formed column
/// with no empty union that each of their patterns matches, arm numbers
/// below `n`, and every wildcard arm among them.
pub proof fn lemma_closed_upto(pats: Seq<PatternView>, n: nat)
    requires
        n <= pats.len(),
        forall|i: int| 0 <= i < pats.len() ==> sound(#[trigger] pats[i]),
    ensures
        column_wf(closed_upto(pats, n).0),
        no_empty_union(closed_upto(pats, n).0),
        forall|m: int|
            0 <= m < closed_upto(pats, n).1.len() ==> 0 <= #[trigger] closed_upto(pats, n).1[m] < n
                && conforms(pats[closed_upto(pats, n).1[m]], closed_upto(pats, n).0),
        forall|i: int|
            0 <= i < n && (#[trigger] pats[i]) is Wild ==> closed_upto(pats, n).1.contains(i),
    decreases n,
{
    if n > 0 {
        let k = (n - 1) as nat;
        lemma_closed_upto(pats, k);
        let prev = closed_upto(pats, k);
        let p = pats[k as int];
        if let Some(m) = merge(prev.0, column_of(p)) {
            lemma_column_of_ok(p);
            lemma_merge_ok(prev.0, column_of(p));
            lemma_sound_well_formed(p);
            law_pattern_fits_its_column(p);
            law_merge_covers(prev.0, column_of(p), p);
            let arms = prev.1.push(k as int);
            assert forall|j: int| 0 <= j < arms.len() implies 0 <= #[trigger] arms[j] < n && conforms(
                pats[arms[j]],
                m,
            ) by {
                if j < prev.1.len() {
                    law_merge_covers(prev.0, column_of(p), pats[prev.1[j]]);
                }
            }
            assert forall|i: int| 0 <= i < n && (#[trigger] pats[i]) is Wild implies arms.contains(i) by {
                if i < k {
                    let j = choose|j: int| 0 <= j < prev.1.len() && prev.1[j] == i;
                    assert(arms[j] == i);
                } else {
                    assert(arms[arms.len() - 1] == i);
                }
            }
        } else {
            assert forall|i: int| 0 <= i < n && (#[trigger] pats[i]) is Wild implies prev.1.contains(i) by {
                if i == k {
                    assert(merge(prev.0, column_of(p)) == Some(prev.0));
                }
            }
        }
    }
}

/// The arm of the `m`-th row is among the unreachable ones when no value
/// reaches that row past the rows above it.
proof fn lemma_unreachable_has(
    rows: Seq<Seq<PatternView>>,
    arms: Seq<int>,
    column: ColumnView,
    n: nat,
    m: int,
)
    requires
        0 <= m < n,
        !useful(rows.take(m), seq![column], rows[m]),
    ensures
        unreachable_upto(rows, arms, column, n).contains(arms[m]),
    decreases n,
{
    let prev = unreachable_upto(rows, arms, column, (n - 1) as nat);
    if m == n - 1 {
        assert(unreachable_upto(rows, arms, column, n) == prev.push(arms[m]));
        assert(prev.push(arms[m])[prev.len() as int] == arms[m]);
    } else {
        lemma_unreachable_has(rows, arms, column, (n - 1) as nat, m);
        let j = choose|j: int| 0 <= j < prev.len() && prev[j] == arms[m];
        if !useful(rows.take(n - 1), seq![column], rows[n - 1]) {
            assert(prev.push(arms[n - 1])[j] == arms[m]);
        }
    }
}

/// The column a `match` takes apart is well formed, of the shape of the
/// column its accepted arms close, and its accepted patterns fit it.
proof fn lemma_match_column(pats: Seq<PatternView>)
    requires
        forall|i: int| 0 <= i < pats.len() ==> sound(#[trigger] pats[i]),
    ensures
        column_wf(match_column(pats)),
        match_rows(pats).len() == closed_upto(pats, pats.len()).1.len(),
        forall|m: int|
            0 <= m < match_rows(pats).len() ==> 0 <= closed_upto(pats, pats.len()).1[m] < pats.len()
                && #[trigger] match_rows(pats)[m] == seq![pats[closed_upto(pats, pats.len()).1[m]]]
                && fits(pats[closed_upto(pats, pats.len()).1[m]], match_column(pats)),
{
    let n = pats.len();
    lemma_closed_upto(pats, n);
    let c = closed_upto(pats, n).0;
    let rows = match_rows(pats);
    law_opening_keeps_shape(rows, c);
    let o = match_column(pats);
    lemma_shape_wf(o, c);
    assert forall|m: int| 0 <= m < rows.len() implies 0 <= closed_upto(pats, n).1[m] < n
        && #[trigger] rows[m] == seq![pats[closed_upto(pats, n).1[m]]] && fits(
        pats[closed_upto(pats, n).1[m]],
        o,
    ) by {
        let a = closed_upto(pats, n).1[m];
        lemma_conforms_fits(pats[a], c, o);
    }
}

/// A `match` with a catch-all arm leaves nothing unhandled.
pub proof fn law_catch_all_arm_exhausts(pats: Seq<PatternView>, i: int)
    requires
        forall|k: int| 0 <= k < pats.len() ==> sound(#[trigger] pats[k]),
        0 <= i < pats.len(),
        pats[i] is Wild,
    ensures
        missing(match_rows(pats), seq![match_column(pats)]).len() == 0,
{
    let n = pats.len();
    lemma_closed_upto(pats, n);
    lemma_match_column(pats);
    let arms = closed_upto(pats, n).1;
    let rows = match_rows(pats);
    let o = match_column(pats);
    assert(arms.contains(i));
    let m = choose|m: int| 0 <= m < arms.len() && arms[m] == i;
    assert(rows[m] == seq![pats[i]]);
    law_catch_all_covers(rows, o, PatternView::Wild, m);
    law_exhaustive_iff_catch_all_unreachable(rows, o);
}

/// Every accepted arm after a catch-all arm is unreachable.
pub proof fn law_arms_after_catch_all_unreachable(pats: Seq<PatternView>, m1: int, m2: int)
    requires
        forall|k: int| 0 <= k < pats.len() ==> sound(#[trigger] pats[k]),
        0 <= m1 < m2 < closed_upto(pats, pats.len()).1.len(),
        pats[closed_upto(pats, pats.len()).1[m1]] is Wild,
    ensures
        unreachable_upto(
            match_rows(pats),
            closed_upto(pats, pats.len()).1,
            match_column(pats),
            match_rows(pats).len(),
        ).contains(closed_upto(pats, pats.len()).1[m2]),
{
    lemma_match_column(pats);
    let arms = closed_upto(pats, pats.len()).1;
    let rows = match_rows(pats);
    let o = match_column(pats);
    assert(rows[m1] == seq![PatternView::Wild]);
    assert(rows.take(m2)[m1] == rows[m1]);
    assert(rows[m2] == seq![pats[arms[m2]]]);
    law_catch_all_covers(rows.take(m2), o, pats[arms[m2]], m1);
    lemma_unreachable_has(rows, arms, o, rows.len(), m2);
}

/// An accepted arm that repeats the pattern of an accepted arm above it is
/// unreachable.
pub proof fn law_repeated_match_arm_unreachable(pats: Seq<PatternView>, m1: int, m2: int)
    requires
        forall|k: int| 0 <= k < pats.len() ==> sound(#[trigger] pats[k]),
        0 <= m1 < m2 < closed_upto(pats, pats.len()).1.len(),
        pats[closed_upto(pats, pats.len()).1[m1]] == pats[closed_upto(pats, pats.len()).1[m2]],
    ensures
        unreachable_upto(
            match_rows(pats),
            closed_upto(pats, pats.len()).1,
            match_column(pats),
            match_rows(pats).len(),
        ).contains(closed_upto(pats, pats.len()).1[m2]),
{
    lemma_match_column(pats);
    let arms = closed_upto(pats, pats.len()).1;
    let rows = match_rows(pats);
    let o = match_column(pats);
    let p = pats[arms[m2]];
    assert(rows[m1] == seq![p]);
    assert(rows.take(m2)[m1] == rows[m1]);
    assert(rows[m2] == seq![p]);
    law_repeated_arm_unreachable(rows.take(m2), o, p, m1);
    lemma_unreachable_has(rows, arms, o, rows.len(), m2);
}

/// The lines that list the patterns `ps`, one each, indented.
pub open spec fn note_lines(ps: Seq<PatternView>) -> Seq<char>
    decreases ps.len(),
{
    if ps.len() == 0 {
        Seq::empty()
    } else {
        note_lines(ps.drop_last()) + "        "@ + format_pattern(ps.last(), 0) + "\n"@
    }
}

/// The note of the error on a `match` that leaves the patterns `ps`
/// unhandled.
pub open spec fn unhandled_note_text(ps: Seq<PatternView>) -> Seq<char> {
    "ensure that all possible cases are handled\n\n"@ + note_lines(ps) + "\n"@
}

/// The note that lists the patterns a `match` leaves unhandled.
pub fn unhandled_note(pats: &Vec<Pattern>) -> (r: String)
    ensures
        r@ == unhandled_note_text(patterns_view(pats@)),
{
    let ghost ps = patterns_view(pats@);
    let mut note = String::from_str("ensure that all possible cases are handled\n\n");
    let mut i: usize = 0;
    assert(ps.take(0) =~= Seq::<PatternView>::empty());
    assert(note@ =~= "ensure that all possible cases are handled\n\n"@ + note_lines(ps.take(0)));
    while i < pats.len()
        invariant
            i <= pats@.len(),
            ps == patterns_view(pats@),
            note@ == "ensure that all possible cases are handled\n\n"@ + note_lines(ps.take(i as int)),
        decreases pats@.len() - i,
    {
        let line = pats[i].format();
        assert(ps.take(i + 1).drop_last() =~= ps.take(i as int));
        assert(ps.take(i + 1).last() == pattern_view(pats@[i as int]));
        note = note.concat("        ").concat(line.as_str()).concat("\n");
        assert(note@ =~= "ensure that all possible cases are handled\n\n"@ + note_lines(ps.take(i + 1)));
        i = i + 1;
    }
    assert(ps.take(pats@.len() as int) =~= ps);
    note = note.concat("\n");
    note
}

/// Columns without empty closed unions stay so when specialized to the
/// constructor a row in step with them starts with.
proof fn lemma_openable_cons(row: Seq<PatternView>, cols: Seq<ColumnView>)
    requires
        openable(cols),
        aligned(row, cols),
        row.len() > 0,
        row.last() is Cons,
    ensures
        openable(specialize_columns(cols, row.last()->Cons_0)),
{
    lemma_aligned_cons(row, cols);
    let kind = row.last()->Cons_0;
    let n = cols.len() - 1;
    let c = cols.last();
    let out = specialize_columns(cols, kind);
    assert(no_empty_union(cols[n]));
    lemma_no_empty_parts(c);
    assert forall|j: int| 0 <= j < out.len() implies no_empty_union(#[trigger] out[j]) by {
        if j < n {
            assert(out[j] == cols[j]);
            assert(no_empty_union(cols[j]));
        } else {
            match c {
                ColumnView::Wild => {
                    assert(out == cols.drop_last() + wild_columns(arity(kind)));
                    assert(out[j] == ColumnView::Wild);
                },
                ColumnView::Tuple(cs) => {
                    assert(out == cols.drop_last() + cs.reverse());
                    assert(out[j] == cs[cs.len() - 1 - (j - n)]);
                },
                ColumnView::Union(vs, _) => {
                    let name = kind->Variant_0;
                    let k = variant_index(vs, name)->0;
                    lemma_variant_index(vs, name);
                    assert(out == cols.drop_last().push(vs[k].payload->0));
                },
                ColumnView::Str => {},
            }
        }
    }
}

/// Against no rows, every row in step with columns that hold no empty
/// closed union is useful: some value it matches exists and no arm takes
/// it.
pub proof fn law_useful_against_no_rows(cols: Seq<ColumnView>, row: Seq<PatternView>)
    requires
        openable(cols),
        aligned(row, cols),
    ensures
        useful(Seq::empty(), cols, row),
    decreases row_measure(row, cols),
{
    let rows = Seq::<Seq<PatternView>>::empty();
    if row.len() > 0 {
        match row.last() {
            PatternView::Cons(kind, fields) => {
                lemma_aligned_cons(row, cols);
                lemma_cons_shrinks(row, cols);
                lemma_openable_cons(row, cols);
                assert(filter_rows(rows, RowOp::Specialize(kind)) == rows);
                law_useful_against_no_rows(
                    specialize_columns(cols, kind),
                    row.drop_last() + fields.reverse(),
                );
            },
            PatternView::Wild => match constructors(cols.last()) {
                None => {
                    lemma_aligned_tail(row, cols);
                    lemma_tail_shrinks(row, cols);
                    lemma_openable_tail(cols);
                    assert(filter_rows(rows, RowOp::Default) == rows);
                    law_useful_against_no_rows(cols.drop_last(), row.drop_last());
                },
                Some(ks) => {
                    let n = cols.len() - 1;
                    assert(no_empty_union(cols[n]));
                    lemma_no_empty_parts(cols.last());
                    assert(ks.len() > 0);
                    lemma_aligned_expand(row, cols, 0);
                    lemma_expand_shrinks(row, cols);
                    lemma_openable_expand(cols, 0);
                    assert(filter_rows(rows, RowOp::Specialize(ks[0])) == rows);
                    law_useful_against_no_rows(
                        specialize_columns(cols, ks[0]),
                        row.drop_last() + crate::ir::exhaust::wilds(arity(ks[0])),
                    );
                },
            },
        }
    }
}

/// A `match` with no arms handles no value: a pattern that fits a well
/// formed column without empty closed unions is useful against no arms.
pub proof fn law_no_arms_leave_every_pattern_useful(column: ColumnView, pattern: PatternView)
    requires
        column_wf(column),
        no_empty_union(column),
        fits(pattern, column),
    ensures
        useful(Seq::empty(), seq![column], seq![pattern]),
{
    assert(aligned(seq![pattern], seq![column]));
    assert(openable(seq![column]));
    law_useful_against_no_rows(seq![column], seq![pattern]);
}

} // verus!
