//! Opening a column: the shape of the values a `match` covers, learned
//! from its arms, with each closed union marked open where some arm leaves
//! it to a wildcard.
//!
//! Opening keeps the column's shape: only whether unions are open changes,
//! and what cannot be listed constructor by constructor (a string, an open
//! union) becomes a wildcard.
use vstd::prelude::*;

use crate::ir::exhaust::{
    constructors, filter_rows, lemma_variant_index, merge, merge_fields, merge_variants,
    specialize_columns, variant_index, ColumnView, KindView, PatternView, RowOp, VariantView,
};
use crate::ir::usefulness::{
    column_sizes, column_wf, columns_wf, lemma_columns_split, lemma_constructor_size,
    lemma_expand_columns, total,
};

verus! {

/// A column with every union marked closed.
pub open spec fn erased(c: ColumnView) -> ColumnView
    decreases c, 0nat,
{
    match c {
        ColumnView::Wild => ColumnView::Wild,
        ColumnView::Str => ColumnView::Str,
        ColumnView::Tuple(cs) => ColumnView::Tuple(erased_all(cs)),
        ColumnView::Union(vs, _) => ColumnView::Union(erased_variants(vs), false),
    }
}

pub open spec fn erased_all(cs: Seq<ColumnView>) -> Seq<ColumnView>
    decreases cs, 1nat,
{
    Seq::new(
        cs.len(),
        |i: int|
            if 0 <= i < cs.len() {
                erased(cs[i])
            } else {
                ColumnView::Wild
            },
    )
}

pub open spec fn erased_variants(vs: Seq<VariantView>) -> Seq<VariantView>
    decreases vs, 1nat,
{
    Seq::new(
        vs.len(),
        |i: int|
            if 0 <= i < vs.len() {
                VariantView {
                    name: vs[i].name,
                    payload: match vs[i].payload {
                        Some(p) => Some(erased(p)),
                        None => None,
                    },
                }
            } else {
                VariantView { name: Seq::empty(), payload: None }
            },
    )
}

/// The shape opening gives a column, unions marked closed: what cannot be
/// listed constructor by constructor (a wildcard, a string, an open union)
/// becomes a wildcard; tuples and closed unions keep their parts.
pub open spec fn shape(c: ColumnView) -> ColumnView
    decreases c, 0nat,
{
    match c {
        ColumnView::Wild | ColumnView::Str => ColumnView::Wild,
        ColumnView::Tuple(cs) => ColumnView::Tuple(shapes(cs)),
        ColumnView::Union(vs, is_open) => if is_open {
            ColumnView::Wild
        } else {
            ColumnView::Union(variant_shapes(vs), false)
        },
    }
}

pub open spec fn shapes(cs: Seq<ColumnView>) -> Seq<ColumnView>
    decreases cs, 1nat,
{
    Seq::new(
        cs.len(),
        |i: int|
            if 0 <= i < cs.len() {
                shape(cs[i])
            } else {
                ColumnView::Wild
            },
    )
}

pub open spec fn variant_shapes(vs: Seq<VariantView>) -> Seq<VariantView>
    decreases vs, 1nat,
{
    Seq::new(
        vs.len(),
        |i: int|
            if 0 <= i < vs.len() {
                VariantView {
                    name: vs[i].name,
                    payload: match vs[i].payload {
                        Some(p) => Some(shape(p)),
                        None => None,
                    },
                }
            } else {
                VariantView { name: Seq::empty(), payload: None }
            },
    )
}

/// Whether every union in `c` has distinct variant names.
pub open spec fn distinct_names(c: ColumnView) -> bool
    decreases c,
{
    match c {
        ColumnView::Wild | ColumnView::Str => true,
        ColumnView::Tuple(cs) => forall|i: int| 0 <= i < cs.len() ==> distinct_names(#[trigger] cs[i]),
        ColumnView::Union(vs, _) => {
            &&& forall|i: int, j: int|
                0 <= i < j < vs.len() ==> #[trigger] vs[i].name != #[trigger] vs[j].name
            &&& forall|i: int|
                0 <= i < vs.len() ==> (#[trigger] vs[i].payload matches Some(p) ==> distinct_names(p))
        },
    }
}

/// Whether every closed union in `c` has a variant.
pub open spec fn no_empty_union(c: ColumnView) -> bool
    decreases c,
{
    match c {
        ColumnView::Wild | ColumnView::Str => true,
        ColumnView::Tuple(cs) => forall|i: int| 0 <= i < cs.len() ==> no_empty_union(#[trigger] cs[i]),
        ColumnView::Union(vs, is_open) => {
            &&& (!is_open ==> vs.len() > 0)
            &&& forall|i: int|
                0 <= i < vs.len() ==> (#[trigger] vs[i].payload matches Some(p) ==> no_empty_union(p))
        },
    }
}

/// Columns that opening accepts: well formed, no closed union empty.
pub open spec fn openable(cols: Seq<ColumnView>) -> bool {
    &&& columns_wf(cols)
    &&& forall|i: int| 0 <= i < cols.len() ==> no_empty_union(#[trigger] cols[i])
}

/// Whether some row starts with a wildcard.
pub open spec fn rows_wild(rows: Seq<Seq<PatternView>>) -> bool {
    exists|i: int| 0 <= i < rows.len() && rows[i].len() > 0 && rows[i].last() is Wild
}

/// The stack of opened columns (the first last) with the columns of
/// `kind`'s fields folded into one column for `kind`; a variant's union is
/// open when `open`.
pub open spec fn fold_kind(stack: Seq<ColumnView>, kind: KindView, open: bool) -> Seq<ColumnView> {
    match kind {
        KindView::Str(_) => stack.push(ColumnView::Str),
        KindView::Tuple(n) => {
            let m = stack.len() - n;
            stack.take(m).push(ColumnView::Tuple(stack.skip(m).reverse()))
        },
        KindView::Variant(name, has) => if has {
            stack.drop_last().push(
                ColumnView::Union(seq![VariantView { name, payload: Some(stack.last()) }], open),
            )
        } else {
            stack.push(ColumnView::Union(seq![VariantView { name, payload: None }], open))
        },
    }
}

/// The merges of two stacks, position by position, as far as both go.
pub open spec fn zip_merge(a: Seq<ColumnView>, b: Seq<ColumnView>) -> Seq<ColumnView> {
    Seq::new(
        if a.len() <= b.len() {
            a.len()
        } else {
            b.len()
        },
        |i: int| merge(a[i], b[i])->0,
    )
}

/// The opened columns (the first last): a first column whose constructors
/// cannot be listed opens to a wildcard over what the rows' tails open the
/// rest to; otherwise each constructor opens what the rows that can start
/// with it leave, and the results are merged.
pub open spec fn opened(rows: Seq<Seq<PatternView>>, cols: Seq<ColumnView>) -> Seq<ColumnView>
    decreases total(column_sizes(cols)), 1nat, 0nat,
{
    if cols.len() == 0 {
        Seq::empty()
    } else {
        match constructors(cols.last()) {
            None => {
                proof {
                    lemma_columns_split(cols);
                }
                opened(filter_rows(rows, RowOp::Tail), cols.drop_last()).push(ColumnView::Wild)
            },
            Some(ks) => opened_upto(rows, cols, ks.len()),
        }
    }
}

/// What the first `n` constructors of the first column open to, merged.
pub open spec fn opened_upto(rows: Seq<Seq<PatternView>>, cols: Seq<ColumnView>, n: nat) -> Seq<
    ColumnView,
>
    decreases total(column_sizes(cols)), 0nat, n,
{
    if cols.len() > 0 && constructors(cols.last()) is Some && 0 < n <= constructors(
        cols.last(),
    )->0.len() {
        let kind = constructors(cols.last())->0[n - 1];
        proof {
            lemma_constructor_size(cols, n - 1);
        }
        let branch = fold_kind(
            opened(filter_rows(rows, RowOp::Specialize(kind)), specialize_columns(cols, kind)),
            kind,
            rows_wild(rows),
        );
        if n == 1 {
            branch
        } else {
            zip_merge(opened_upto(rows, cols, (n - 1) as nat), branch)
        }
    } else {
        Seq::empty()
    }
}

proof fn lemma_distinct_parts(c: ColumnView)
    requires
        distinct_names(c),
    ensures
        c is Tuple ==> forall|i: int|
            0 <= i < c->Tuple_0.len() ==> distinct_names(#[trigger] c->Tuple_0[i]),
        c is Union ==> forall|i: int, j: int|
            0 <= i < j < c->Union_0.len() ==> #[trigger] c->Union_0[i].name
                != #[trigger] c->Union_0[j].name,
        c is Union ==> forall|i: int|
            0 <= i < c->Union_0.len() ==> (#[trigger] c->Union_0[i].payload matches Some(p)
                ==> distinct_names(p)),
{
}

/// Two columns of the same shape, unions aside, merge into one of that
/// shape.
proof fn lemma_merge_same(a: ColumnView, b: ColumnView)
    requires
        erased(a) == erased(b),
        distinct_names(erased(a)),
    ensures
        merge(a, b) is Some,
        erased(merge(a, b)->0) == erased(a),
    decreases b, 0nat, 0nat,
{
    match b {
        ColumnView::Wild => {},
        ColumnView::Str => {},
        ColumnView::Tuple(ys) => {
            let xs = match a {
                ColumnView::Tuple(xs) => xs,
                _ => {
                    assert(false);
                    Seq::empty()
                },
            };
            let ex = erased_all(xs);
            let ey = erased_all(ys);
            assert(erased(a) == ColumnView::Tuple(ex));
            lemma_distinct_parts(erased(a));
            assert(ex == ey);
            assert(xs.len() == ys.len()) by {
                assert(ex.len() == xs.len());
            }
            assert forall|j: int| 0 <= j < xs.len() implies erased(#[trigger] xs[j]) == erased(ys[j])
                && distinct_names(erased(xs[j])) by {
                assert(ex[j] == erased(xs[j]));
                assert(ey[j] == erased(ys[j]));
                assert(distinct_names(ex[j]));
            }
            lemma_merge_fields_same(xs, ys, 0);
            let zs = merge_fields(xs, ys, 0)->0;
            assert(erased_all(zs) =~= erased_all(xs));
        },
        ColumnView::Union(ys, yo) => {
            let (xs, xo) = match a {
                ColumnView::Union(xs, xo) => (xs, xo),
                _ => {
                    assert(false);
                    (Seq::empty(), false)
                },
            };
            let ex = erased_variants(xs);
            let ey = erased_variants(ys);
            assert(erased(a) == ColumnView::Union(ex, false));
            lemma_distinct_parts(erased(a));
            assert(ex == ey);
            assert(xs.len() == ys.len()) by {
                assert(ex.len() == xs.len());
            }
            assert forall|j: int| 0 <= j < xs.len() implies {
                &&& (#[trigger] xs[j]).name == ys[j].name
                &&& (xs[j].payload is Some) == (ys[j].payload is Some)
                &&& (xs[j].payload is Some ==> erased(xs[j].payload->0) == erased(ys[j].payload->0)
                    && distinct_names(erased(xs[j].payload->0)))
            } by {
                assert(ex[j] == ey[j]);
                if xs[j].payload is Some {
                    assert(ex[j].payload == Some(erased(xs[j].payload->0)));
                    assert(distinct_names(erased(xs[j].payload->0)));
                }
            }
            assert forall|i: int, j: int| 0 <= i < j < xs.len() implies xs[i].name != xs[j].name by {
                assert(ex[i].name == xs[i].name);
                assert(ex[j].name == xs[j].name);
            }
            lemma_merge_variants_same(xs, xs, ys, 0);
            let out = merge_variants(xs, ys, 0)->0;
            assert(erased_variants(out) =~= erased_variants(xs));
        },
    }
}

proof fn lemma_merge_fields_same(xs: Seq<ColumnView>, ys: Seq<ColumnView>, i: nat)
    requires
        xs.len() == ys.len(),
        i <= ys.len(),
        forall|j: int|
            0 <= j < xs.len() ==> erased(#[trigger] xs[j]) == erased(ys[j]) && distinct_names(
                erased(xs[j]),
            ),
    ensures
        merge_fields(xs, ys, i) is Some,
        merge_fields(xs, ys, i)->0.len() == ys.len() - i,
        forall|j: int|
            0 <= j < ys.len() - i ==> erased(#[trigger] merge_fields(xs, ys, i)->0[j]) == erased(
                xs[i + j],
            ),
    decreases ys, 1nat, ys.len() - i,
{
    if i < ys.len() {
        lemma_merge_same(xs[i as int], ys[i as int]);
        lemma_merge_fields_same(xs, ys, i + 1);
        let z = merge(xs[i as int], ys[i as int])->0;
        let zs = merge_fields(xs, ys, i + 1)->0;
        assert(merge_fields(xs, ys, i) == Some(seq![z] + zs));
        assert forall|j: int| 0 <= j < ys.len() - i implies erased(
            #[trigger] merge_fields(xs, ys, i)->0[j],
        ) == erased(xs[i + j]) by {
            if j > 0 {
                assert((seq![z] + zs)[j] == zs[j - 1]);
            }
        }
    }
}

/// Merging the variants of a union into variants of the same names, in the
/// same order, merges payload by payload.
proof fn lemma_merge_variants_same(
    acc: Seq<VariantView>,
    xs: Seq<VariantView>,
    ys: Seq<VariantView>,
    i: nat,
)
    requires
        acc.len() == ys.len(),
        xs.len() == ys.len(),
        i <= ys.len(),
        forall|j: int| 0 <= j < acc.len() ==> (#[trigger] acc[j]).name == ys[j].name,
        forall|j: int| 0 <= j < acc.len() ==> xs[j].name == (#[trigger] acc[j]).name,
        forall|j: int, k: int| 0 <= j < k < acc.len() ==> #[trigger] acc[j].name != #[trigger] acc[k].name,
        forall|j: int|
            0 <= j < acc.len() ==> ((#[trigger] acc[j]).payload is Some) == (ys[j].payload is Some)
                && (xs[j].payload is Some) == (ys[j].payload is Some),
        forall|j: int|
            0 <= j < acc.len() && (#[trigger] acc[j]).payload is Some ==> erased(acc[j].payload->0)
                == erased(xs[j].payload->0),
        forall|j: int|
            i <= j < acc.len() && (#[trigger] acc[j]).payload is Some ==> erased(acc[j].payload->0)
                == erased(ys[j].payload->0) && distinct_names(erased(acc[j].payload->0)),
    ensures
        merge_variants(acc, ys, i) is Some,
        erased_variants(merge_variants(acc, ys, i)->0) == erased_variants(xs),
    decreases ys, 1nat, ys.len() - i,
{
    if i < ys.len() {
        let y = ys[i as int];
        lemma_variant_index(acc, y.name);
        let k = variant_index(acc, y.name)->0;
        if k != i as int {
            assert(acc[k].name == acc[i as int].name);
        }
        assert(k == i);
        match (acc[k].payload, y.payload) {
            (Some(p), Some(q)) => {
                lemma_merge_same(p, q);
                let m = merge(p, q)->0;
                let next = acc.update(k, VariantView { name: acc[k].name, payload: Some(m) });
                lemma_merge_variants_same(next, xs, ys, i + 1);
            },
            (None, None) => {
                lemma_merge_variants_same(acc, xs, ys, i + 1);
            },
            _ => {},
        }
    } else {
        assert(erased_variants(acc) =~= erased_variants(xs));
    }
}

/// A union merged with a single variant of a new name gains it last.
proof fn lemma_merge_extend(xs: Seq<VariantView>, xo: bool, y: VariantView, yo: bool)
    requires
        forall|j: int| 0 <= j < xs.len() ==> (#[trigger] xs[j]).name != y.name,
    ensures
        merge(ColumnView::Union(xs, xo), ColumnView::Union(seq![y], yo)) == Some(
            ColumnView::Union(xs.push(y), xo && yo),
        ),
{
    lemma_variant_index(xs, y.name);
    assert(merge_variants(xs, seq![y], 0) == merge_variants(xs.push(y), seq![y], 1));
}

/// What the first `n` constructors of a column open it to, unions marked
/// closed: for a union, its first `n` variants.
pub open spec fn partial_shape(c: ColumnView, n: nat) -> ColumnView {
    match c {
        ColumnView::Union(vs, _) => ColumnView::Union(variant_shapes(vs.take(n as int)), false),
        _ => shape(c),
    }
}

proof fn lemma_distinct_tuple_of_parts(c: ColumnView)
    requires
        c is Tuple,
        forall|i: int| 0 <= i < c->Tuple_0.len() ==> distinct_names(#[trigger] c->Tuple_0[i]),
    ensures
        distinct_names(c),
{
}

/// What the `i`-th constructor of the first column opens the columns to.
pub open spec fn branch_at(rows: Seq<Seq<PatternView>>, cols: Seq<ColumnView>, i: int) -> Seq<
    ColumnView,
> {
    let kind = constructors(cols.last())->0[i];
    fold_kind(
        opened(filter_rows(rows, RowOp::Specialize(kind)), specialize_columns(cols, kind)),
        kind,
        rows_wild(rows),
    )
}

/// The shape of a well formed column keeps its unions' names distinct.
proof fn lemma_wf_distinct(c: ColumnView)
    requires
        column_wf(c),
    ensures
        distinct_names(shape(c)),
    decreases c,
{
    match c {
        ColumnView::Tuple(cs) => {
            assert forall|i: int| 0 <= i < cs.len() implies distinct_names(#[trigger] shapes(cs)[i]) by {
                assert(column_wf(cs[i]));
                lemma_wf_distinct(cs[i]);
            }
            assert(shape(c) == ColumnView::Tuple(shapes(cs)));
            lemma_distinct_tuple_of_parts(shape(c));
        },
        ColumnView::Union(vs, is_open) => {
            if !is_open {
                let ss = variant_shapes(vs);
                assert forall|i: int| 0 <= i < ss.len() implies (#[trigger] ss[i].payload matches Some(
                    p,
                ) ==> distinct_names(p)) by {
                    if let Some(q) = vs[i].payload {
                        assert(column_wf(q));
                        lemma_wf_distinct(q);
                    }
                }
                assert forall|i: int, j: int| 0 <= i < j < ss.len() implies #[trigger] ss[i].name
                    != #[trigger] ss[j].name by {
                    assert(vs[i].name != vs[j].name);
                }
            }
        },
        _ => {},
    }
}

proof fn lemma_no_empty_parts(c: ColumnView)
    requires
        no_empty_union(c),
    ensures
        c is Tuple ==> forall|i: int|
            0 <= i < c->Tuple_0.len() ==> no_empty_union(#[trigger] c->Tuple_0[i]),
        c is Union ==> forall|i: int|
            0 <= i < c->Union_0.len() ==> (#[trigger] c->Union_0[i].payload matches Some(p)
                ==> no_empty_union(p)),
        c is Union && !c->Union_1 ==> c->Union_0.len() > 0,
{
}

/// Openable columns stay openable without their first column.
pub proof fn lemma_openable_tail(cols: Seq<ColumnView>)
    requires
        openable(cols),
        cols.len() > 0,
    ensures
        openable(cols.drop_last()),
{
    let rest = cols.drop_last();
    assert forall|i: int| 0 <= i < rest.len() implies column_wf(#[trigger] rest[i]) && no_empty_union(
        rest[i],
    ) by {
        assert(column_wf(cols[i]) && no_empty_union(cols[i]));
    }
}

/// Openable columns stay openable when specialized to a constructor of the
/// first.
pub proof fn lemma_openable_expand(cols: Seq<ColumnView>, i: int)
    requires
        openable(cols),
        cols.len() > 0,
        constructors(cols.last()) is Some,
        0 <= i < constructors(cols.last())->0.len(),
    ensures
        openable(specialize_columns(cols, constructors(cols.last())->0[i])),
        specialize_columns(cols, constructors(cols.last())->0[i]).len() == cols.len() - 1
            + crate::ir::exhaust::arity(constructors(cols.last())->0[i]),
{
    let kind = constructors(cols.last())->0[i];
    lemma_expand_columns(cols, i);
    let n = cols.len() - 1;
    let c = cols.last();
    let out = specialize_columns(cols, kind);
    assert(no_empty_union(cols[n]));
    lemma_no_empty_parts(c);
    assert forall|j: int| 0 <= j < out.len() implies no_empty_union(#[trigger] out[j]) by {
        if j < n {
            assert(out[j] == cols[j]);
            assert(no_empty_union(cols[j]));
        } else {
            match c {
                ColumnView::Tuple(cs) => {
                    assert(out == cols.drop_last() + cs.reverse());
                    assert(out[j] == cs[cs.len() - 1 - (j - n)]);
                },
                ColumnView::Union(vs, _) => {
                    let name = vs[i].name;
                    lemma_variant_index(vs, name);
                    let k = variant_index(vs, name)->0;
                    assert(out == cols.drop_last().push(vs[k].payload->0));
                },
                _ => {},
            }
        }
    }
}

/// Opening openable columns gives one column per column, each of the shape
/// `shape` promises once its unions are marked closed.
pub proof fn lemma_opened_shape(rows: Seq<Seq<PatternView>>, cols: Seq<ColumnView>)
    requires
        openable(cols),
    ensures
        opened(rows, cols).len() == cols.len(),
        forall|j: int|
            0 <= j < cols.len() ==> erased(#[trigger] opened(rows, cols)[j]) == shape(cols[j]),
    decreases total(column_sizes(cols)), 1nat, 0nat,
{
    if cols.len() > 0 {
        match constructors(cols.last()) {
            None => {
                lemma_columns_split(cols);
                lemma_openable_tail(cols);
                let sub_rows = filter_rows(rows, RowOp::Tail);
                lemma_opened_shape(sub_rows, cols.drop_last());
                let sub = opened(sub_rows, cols.drop_last());
                assert(opened(rows, cols) == sub.push(ColumnView::Wild));
                assert(shape(cols.last()) == ColumnView::Wild);
            },
            Some(ks) => {
                lemma_opened_upto_shape(rows, cols, ks.len());
                assert(opened(rows, cols) == opened_upto(rows, cols, ks.len()));
                if let ColumnView::Union(vs, _) = cols.last() {
                    assert(vs.take(ks.len() as int) =~= vs);
                }
            },
        }
    }
}

/// The branch of the `i`-th constructor has one column per column, shaped

/// Merging the branch of the `n`-th constructor of a union into what the
/// ones before it opened to keeps the shape, the union gaining the variant.
proof fn lemma_merge_branch(
    prev: Seq<ColumnView>,
    branch: Seq<ColumnView>,
    cols: Seq<ColumnView>,
    n: nat,
)
    requires
        cols.len() > 0,
        prev.len() == cols.len(),
        branch.len() == cols.len(),
        cols.last() is Union,
        !cols.last()->Union_1,
        2 <= n <= cols.last()->Union_0.len(),
        forall|j: int| 0 <= j < cols.len() ==> column_wf(#[trigger] cols[j]),
        forall|j: int|
            0 <= j < cols.len() - 1 ==> erased(#[trigger] prev[j]) == shape(cols[j]) && erased(
                branch[j],
            ) == shape(cols[j]),
        erased(prev.last()) == partial_shape(cols.last(), (n - 1) as nat),
        erased(branch.last()) == ColumnView::Union(
            seq![variant_shapes(cols.last()->Union_0)[n - 1]],
            false,
        ),
    ensures
        forall|j: int| 0 <= j < cols.len() ==> (#[trigger] merge(prev[j], branch[j])) is Some,
        zip_merge(prev, branch).len() == cols.len(),
        forall|j: int|
            0 <= j < cols.len() - 1 ==> erased(#[trigger] zip_merge(prev, branch)[j]) == shape(
                cols[j],
            ),
        erased(zip_merge(prev, branch).last()) == partial_shape(cols.last(), n),
{
    let last = cols.len() - 1;
    let c = cols.last();
    let vs = c->Union_0;
    let out = zip_merge(prev, branch);
    assert forall|j: int| 0 <= j < last implies erased(#[trigger] out[j]) == shape(cols[j])
        && merge(prev[j], branch[j]) is Some by {
        lemma_wf_distinct(cols[j]);
        lemma_merge_same(prev[j], branch[j]);
    }
    assert(prev.last() is Union);
    let xs = prev.last()->Union_0;
    assert(branch.last() is Union);
    let y = branch.last()->Union_0[0];
    assert(branch.last()->Union_0 == seq![y]) by {
        assert(erased_variants(branch.last()->Union_0).len() == 1);
    }
    assert(erased_variants(xs) == variant_shapes(vs.take(n - 1)));
    assert(column_wf(cols[last]));
    assert forall|j: int| 0 <= j < xs.len() implies (#[trigger] xs[j]).name != y.name by {
        assert(erased_variants(xs)[j].name == xs[j].name);
        assert(variant_shapes(vs.take(n - 1))[j].name == vs[j].name);
        assert(erased_variants(seq![y])[0].name == y.name);
        assert(vs[j].name != vs[n - 1].name);
    }
    lemma_merge_extend(xs, prev.last()->Union_1, y, branch.last()->Union_1);
    assert(prev.last() == ColumnView::Union(xs, prev.last()->Union_1));
    assert(branch.last() == ColumnView::Union(seq![y], branch.last()->Union_1));
    assert forall|j: int| 0 <= j < cols.len() implies (#[trigger] merge(prev[j], branch[j])) is Some by {
        if j == last {
            assert(prev[j] == prev.last());
            assert(branch[j] == branch.last());
        } else {
            assert(erased(out[j]) == shape(cols[j]));
        }
    }
    assert(erased_variants(xs.push(y)) =~= variant_shapes(vs.take(n as int))) by {
        assert(erased_variants(xs.push(y)) =~= erased_variants(xs).push(erased_variants(seq![y])[0]));
        assert(variant_shapes(vs.take(n as int)) =~= variant_shapes(vs.take(n - 1)).push(
            variant_shapes(vs)[n - 1],
        ));
    }
}

/// as the columns, the first holding that constructor alone.
pub proof fn lemma_branch_shape(rows: Seq<Seq<PatternView>>, cols: Seq<ColumnView>, i: int)
    requires
        openable(cols),
        cols.len() > 0,
        constructors(cols.last()) is Some,
        0 <= i < constructors(cols.last())->0.len(),
    ensures
        branch_at(rows, cols, i).len() == cols.len(),
        forall|j: int|
            0 <= j < cols.len() - 1 ==> erased(#[trigger] branch_at(rows, cols, i)[j]) == shape(
                cols[j],
            ),
        erased(branch_at(rows, cols, i).last()) == match cols.last() {
            ColumnView::Union(vs, _) => ColumnView::Union(seq![variant_shapes(vs)[i]], false),
            c => shape(c),
        },
        openable(specialize_columns(cols, constructors(cols.last())->0[i])),
        specialize_columns(cols, constructors(cols.last())->0[i]).len() == cols.len() - 1
            + crate::ir::exhaust::arity(constructors(cols.last())->0[i]),
    decreases total(column_sizes(cols)), 0nat, 0nat,
{
    let ks = constructors(cols.last())->0;
    let kind = ks[i];
    let last = cols.len() - 1;
    let c = cols.last();
    lemma_constructor_size(cols, i);
    lemma_openable_expand(cols, i);
    let sub_rows = filter_rows(rows, RowOp::Specialize(kind));
    let sub_cols = specialize_columns(cols, kind);
    lemma_opened_shape(sub_rows, sub_cols);
    let st = opened(sub_rows, sub_cols);
    let branch = branch_at(rows, cols, i);
    assert(column_wf(cols[last]));
    // The branch has the shape of the columns, the first column holding the
    // constructor alone.
    let single = match c {
        ColumnView::Union(vs, _) => ColumnView::Union(seq![variant_shapes(vs)[i]], false),
        _ => shape(c),
    };
    assert(branch.len() == cols.len() && (forall|j: int|
        0 <= j < last ==> erased(#[trigger] branch[j]) == shape(cols[j])) && erased(branch.last())
        == single) by {
        match c {
            ColumnView::Tuple(cs) => {
                let m = cs.len();
                assert(kind == KindView::Tuple(m));
                assert(sub_cols == cols.drop_last() + cs.reverse());
                let fields = st.skip(last).reverse();
                assert(branch == st.take(last).push(ColumnView::Tuple(fields)));
                assert forall|j: int| 0 <= j < last implies erased(#[trigger] branch[j]) == shape(
                    cols[j],
                ) by {
                    assert(branch[j] == st[j]);
                    assert(sub_cols[j] == cols[j]);
                }
                assert(erased_all(fields) =~= shapes(cs)) by {
                    assert forall|i: int| 0 <= i < m implies erased_all(fields)[i] == shapes(cs)[i] by {
                        assert(fields[i] == st[last + m - 1 - i]);
                        assert(sub_cols[last + m - 1 - i] == cs[i]);
                    }
                }
            },
            ColumnView::Union(vs, _) => {
                let v = vs[i];
                assert(kind == KindView::Variant(v.name, v.payload is Some));
                if v.payload is Some {
                    assert(v.name.len() > 0);
                    lemma_variant_index(vs, v.name);
                    let k = variant_index(vs, v.name)->0;
                    if k != i {
                        assert(vs[k].name == vs[i].name);
                    }
                    assert(sub_cols == cols.drop_last().push(v.payload->0));
                    assert(branch == st.drop_last().push(
                        ColumnView::Union(
                            seq![VariantView { name: v.name, payload: Some(st.last()) }],
                            rows_wild(rows),
                        ),
                    ));
                    assert(erased_variants(seq![VariantView { name: v.name, payload: Some(st.last()) }])
                        =~= seq![variant_shapes(vs)[i]]);
                    assert forall|j: int| 0 <= j < last implies erased(#[trigger] branch[j]) == shape(
                        cols[j],
                    ) by {
                        assert(branch[j] == st[j]);
                        assert(sub_cols[j] == cols[j]);
                    }
                } else {
                    if v.name.len() > 0 {
                        lemma_variant_index(vs, v.name);
                        let k = variant_index(vs, v.name)->0;
                        if k != i {
                            assert(vs[k].name == vs[i].name);
                        }
                    }
                    assert(sub_cols == cols.drop_last());
                    assert(branch == st.push(
                        ColumnView::Union(seq![VariantView { name: v.name, payload: None }], rows_wild(rows)),
                    ));
                    assert(erased_variants(seq![VariantView { name: v.name, payload: None }])
                        =~= seq![variant_shapes(vs)[i]]);
                    assert forall|j: int| 0 <= j < last implies erased(#[trigger] branch[j]) == shape(
                        cols[j],
                    ) by {
                        assert(branch[j] == st[j]);
                        assert(sub_cols[j] == cols[j]);
                    }
                }
            },
            _ => {},
        }
    }
}

pub proof fn lemma_opened_upto_shape(rows: Seq<Seq<PatternView>>, cols: Seq<ColumnView>, n: nat)
    requires
        openable(cols),
        cols.len() > 0,
        constructors(cols.last()) is Some,
        1 <= n <= constructors(cols.last())->0.len(),
    ensures
        opened_upto(rows, cols, n).len() == cols.len(),
        forall|j: int|
            0 <= j < cols.len() - 1 ==> erased(#[trigger] opened_upto(rows, cols, n)[j]) == shape(
                cols[j],
            ),
        erased(opened_upto(rows, cols, n).last()) == partial_shape(cols.last(), n),
        opened_upto(rows, cols, n) == if n == 1 {
            branch_at(rows, cols, 0)
        } else {
            zip_merge(opened_upto(rows, cols, (n - 1) as nat), branch_at(rows, cols, n - 1))
        },
        branch_at(rows, cols, n - 1).len() == cols.len(),
        n > 1 ==> forall|j: int|
            0 <= j < cols.len() ==> (#[trigger] merge(
                opened_upto(rows, cols, (n - 1) as nat)[j],
                branch_at(rows, cols, n - 1)[j],
            )) is Some,
        openable(specialize_columns(cols, constructors(cols.last())->0[n - 1])),
        specialize_columns(cols, constructors(cols.last())->0[n - 1]).len() == cols.len() - 1
            + crate::ir::exhaust::arity(constructors(cols.last())->0[n - 1]),
    decreases total(column_sizes(cols)), 0nat, n,
{
    let ks = constructors(cols.last())->0;
    let last = cols.len() - 1;
    let c = cols.last();
    lemma_constructor_size(cols, n - 1);
    lemma_branch_shape(rows, cols, n - 1);
    let branch = branch_at(rows, cols, n - 1);
    if n == 1 {
        assert(opened_upto(rows, cols, n) == branch);
        if let ColumnView::Union(vs, _) = c {
            assert(variant_shapes(vs.take(1)) =~= seq![variant_shapes(vs)[0]]);
        }
    } else {
        lemma_opened_upto_shape(rows, cols, (n - 1) as nat);
        let prev = opened_upto(rows, cols, (n - 1) as nat);
        assert(opened_upto(rows, cols, n) == zip_merge(prev, branch));
        assert(c is Union) by {
            if c is Tuple {
                assert(ks.len() == 1);
            }
        }
        assert(column_wf(cols[last]));
        assert forall|j: int| 0 <= j < last implies column_wf(#[trigger] cols[j]) by {}
        lemma_merge_branch(prev, branch, cols, n);
    }
}

/// Opening changes only which unions are open: with its unions marked
/// closed again, the opened column is the column with every string, open
/// union and wildcard in it turned into a wildcard.
pub proof fn law_opening_keeps_shape(rows: Seq<Seq<PatternView>>, column: ColumnView)
    requires
        openable(seq![column]),
    ensures
        opened(rows, seq![column]).len() == 1,
        erased(opened(rows, seq![column]).last()) == shape(column),
{
    lemma_opened_shape(rows, seq![column]);
    assert(seq![column][0] == column);
}

} // verus!
