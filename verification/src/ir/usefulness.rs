//! What the pattern matrix algorithms compute: whether a row of patterns is
//! useful against the rows above it, and which patterns no row covers.
//!
//! Both recurse on the first pattern of the row (or the first column) and
//! stop because a measure of the row and the columns shrinks at each step.
use vstd::prelude::*;

use crate::ir::exhaust::{
    apply_op, arity, can_specialize, constructors, filter_rows, lemma_variant_index,
    specialize_columns, variant_index, wild_columns, wilds, ColumnView, KindView, PatternView,
    RowOp, VariantView,
};

verus! {

/// The sum of a sequence of sizes.
pub open spec fn total(s: Seq<nat>) -> nat
    decreases s.len(),
{
    if s.len() == 0 {
        0
    } else {
        total(s.drop_last()) + s.last()
    }
}

/// `n` sizes of one.
pub open spec fn ones(n: nat) -> Seq<nat> {
    Seq::new(n, |i: int| 1nat)
}

/// The size of a pattern: one for its head, one for each field it takes,
/// plus the sizes of its sub-patterns.
pub open spec fn pattern_size(p: PatternView) -> nat
    decreases p, 0nat,
{
    match p {
        PatternView::Wild => 1,
        PatternView::Cons(kind, fields) => 1 + arity(kind) + total(pattern_sizes(fields)),
    }
}

pub open spec fn pattern_sizes(s: Seq<PatternView>) -> Seq<nat>
    decreases s, 1nat,
{
    Seq::new(
        s.len(),
        |i: int|
            if 0 <= i < s.len() {
                pattern_size(s[i])
            } else {
                0
            },
    )
}

/// The size of a column: one for itself, one for each field or variant,
/// plus the sizes of its sub-columns.
pub open spec fn column_size(c: ColumnView) -> nat
    decreases c, 0nat,
{
    match c {
        ColumnView::Wild | ColumnView::Str => 1,
        ColumnView::Tuple(cs) => 1 + cs.len() + total(column_sizes(cs)),
        ColumnView::Union(vs, _) => 1 + vs.len() + total(payload_sizes(vs)),
    }
}

pub open spec fn column_sizes(s: Seq<ColumnView>) -> Seq<nat>
    decreases s, 1nat,
{
    Seq::new(
        s.len(),
        |i: int|
            if 0 <= i < s.len() {
                column_size(s[i])
            } else {
                0
            },
    )
}

pub open spec fn payload_sizes(vs: Seq<VariantView>) -> Seq<nat>
    decreases vs, 1nat,
{
    Seq::new(
        vs.len(),
        |i: int|
            if 0 <= i < vs.len() {
                match vs[i].payload {
                    Some(c) => column_size(c),
                    None => 0,
                }
            } else {
                0
            },
    )
}

/// What shrinks at each step of the recursion over a row and its columns.
pub open spec fn row_measure(row: Seq<PatternView>, cols: Seq<ColumnView>) -> nat {
    total(pattern_sizes(row)) + total(column_sizes(cols))
}

proof fn lemma_total_add(a: Seq<nat>, b: Seq<nat>)
    ensures
        total(a + b) == total(a) + total(b),
    decreases b.len(),
{
    if b.len() == 0 {
        assert(a + b =~= a);
    } else {
        assert((a + b).drop_last() =~= a + b.drop_last());
        lemma_total_add(a, b.drop_last());
    }
}

proof fn lemma_total_reverse(s: Seq<nat>)
    ensures
        total(s.reverse()) == total(s),
    decreases s.len(),
{
    if s.len() > 0 {
        assert(s.reverse() =~= seq![s.last()] + s.drop_last().reverse());
        lemma_total_add(seq![s.last()], s.drop_last().reverse());
        lemma_total_reverse(s.drop_last());
        lemma_total_single(s.last());
    }
}

proof fn lemma_total_single(x: nat)
    ensures
        total(seq![x]) == x,
{
    assert(seq![x].drop_last() =~= Seq::<nat>::empty());
    assert(total(Seq::<nat>::empty()) == 0);
}

proof fn lemma_columns_single(c: ColumnView)
    ensures
        total(column_sizes(seq![c])) == column_size(c),
{
    assert(column_sizes(seq![c]) =~= seq![column_size(c)]);
    lemma_total_single(column_size(c));
}

proof fn lemma_total_ones(n: nat)
    ensures
        total(ones(n)) == n,
    decreases n,
{
    if n > 0 {
        assert(ones(n).drop_last() =~= ones((n - 1) as nat));
        lemma_total_ones((n - 1) as nat);
    }
}

proof fn lemma_total_ge(s: Seq<nat>, i: int)
    requires
        0 <= i < s.len(),
    ensures
        s[i] <= total(s),
    decreases s.len(),
{
    if i < s.len() - 1 {
        lemma_total_ge(s.drop_last(), i);
    }
}

proof fn lemma_patterns_split(row: Seq<PatternView>)
    requires
        row.len() > 0,
    ensures
        total(pattern_sizes(row)) == total(pattern_sizes(row.drop_last())) + pattern_size(
            row.last(),
        ),
{
    assert(pattern_sizes(row).drop_last() =~= pattern_sizes(row.drop_last()));
}

proof fn lemma_patterns_append(a: Seq<PatternView>, b: Seq<PatternView>)
    ensures
        total(pattern_sizes(a + b)) == total(pattern_sizes(a)) + total(pattern_sizes(b)),
{
    assert(pattern_sizes(a + b) =~= pattern_sizes(a) + pattern_sizes(b));
    lemma_total_add(pattern_sizes(a), pattern_sizes(b));
}

proof fn lemma_patterns_reverse(s: Seq<PatternView>)
    ensures
        total(pattern_sizes(s.reverse())) == total(pattern_sizes(s)),
{
    assert(pattern_sizes(s.reverse()) =~= pattern_sizes(s).reverse());
    lemma_total_reverse(pattern_sizes(s));
}

proof fn lemma_patterns_wilds(n: nat)
    ensures
        total(pattern_sizes(wilds(n))) == n,
{
    assert(pattern_sizes(wilds(n)) =~= ones(n));
    lemma_total_ones(n);
}

pub proof fn lemma_columns_split(cols: Seq<ColumnView>)
    requires
        cols.len() > 0,
    ensures
        total(column_sizes(cols)) == total(column_sizes(cols.drop_last())) + column_size(
            cols.last(),
        ),
{
    assert(column_sizes(cols).drop_last() =~= column_sizes(cols.drop_last()));
}

proof fn lemma_columns_append(a: Seq<ColumnView>, b: Seq<ColumnView>)
    ensures
        total(column_sizes(a + b)) == total(column_sizes(a)) + total(column_sizes(b)),
{
    assert(column_sizes(a + b) =~= column_sizes(a) + column_sizes(b));
    lemma_total_add(column_sizes(a), column_sizes(b));
}

proof fn lemma_columns_reverse(s: Seq<ColumnView>)
    ensures
        total(column_sizes(s.reverse())) == total(column_sizes(s)),
{
    assert(column_sizes(s.reverse()) =~= column_sizes(s).reverse());
    lemma_total_reverse(column_sizes(s));
}

proof fn lemma_columns_wild(n: nat)
    ensures
        total(column_sizes(wild_columns(n))) == n,
{
    assert(column_sizes(wild_columns(n)) =~= ones(n));
    lemma_total_ones(n);
}

/// Specializing a union first column to a named variant keeps at most the
/// payload of the first variant of that name.
proof fn lemma_payload_step(cols: Seq<ColumnView>, name: Seq<char>)
    requires
        cols.len() > 0,
        cols.last() is Union,
        name.len() > 0,
        variant_index(cols.last()->Union_0, name) is Some,
    ensures
        total(column_sizes(specialize_columns(cols, KindView::Variant(name, true)))) <= total(
            column_sizes(cols.drop_last()),
        ) + total(payload_sizes(cols.last()->Union_0)),
        forall|b: bool|
            #[trigger] specialize_columns(cols, KindView::Variant(name, b)) == specialize_columns(
                cols,
                KindView::Variant(name, true),
            ),
{
    let vs = cols.last()->Union_0;
    let rest = cols.drop_last();
    lemma_variant_index(vs, name);
    let k = variant_index(vs, name)->0;
    lemma_total_ge(payload_sizes(vs), k);
    let out = specialize_columns(cols, KindView::Variant(name, true));
    match vs[k].payload {
        Some(p) => {
            assert(out == rest.push(p));
            assert(rest.push(p) =~= rest + seq![p]);
            lemma_columns_append(rest, seq![p]);
            lemma_columns_single(p);
        },
        None => {
            assert(out == rest);
        },
    }
}

/// Specializing the columns adds at most the constructor's fields and
/// removes at least the first column.
proof fn lemma_specialize_size(cols: Seq<ColumnView>, kind: KindView)
    requires
        can_specialize(cols, kind),
    ensures
        total(column_sizes(specialize_columns(cols, kind))) + 1 <= total(column_sizes(cols))
            + arity(kind),
{
    let rest = cols.drop_last();
    let out = specialize_columns(cols, kind);
    lemma_columns_split(cols);
    match cols.last() {
        ColumnView::Wild => {
            lemma_columns_append(rest, wild_columns(arity(kind)));
            lemma_columns_wild(arity(kind));
            assert(out == rest + wild_columns(arity(kind)));
            assert(column_size(cols.last()) == 1);
        },
        ColumnView::Str => {
            assert(out == rest);
        },
        ColumnView::Tuple(fields) => {
            lemma_columns_append(rest, fields.reverse());
            lemma_columns_reverse(fields);
            assert(out == rest + fields.reverse());
            assert(column_size(cols.last()) == 1 + fields.len() + total(column_sizes(fields)));
        },
        ColumnView::Union(vs, _) => {
            assert(column_size(cols.last()) == 1 + vs.len() + total(payload_sizes(vs)));
            if let KindView::Variant(name, _) = kind {
                if name.len() > 0 {
                    lemma_payload_step(cols, name);
                } else {
                    assert(out == rest);
                }
            }
        },
    }
}

/// Specializing the columns to one of the first column's own constructors
/// removes more than that constructor's fields add.
pub proof fn lemma_constructor_size(cols: Seq<ColumnView>, i: int)
    requires
        cols.len() > 0,
        constructors(cols.last()) is Some,
        0 <= i < constructors(cols.last())->0.len(),
    ensures
        can_specialize(cols, constructors(cols.last())->0[i]),
        total(column_sizes(specialize_columns(cols, constructors(cols.last())->0[i]))) + arity(
            constructors(cols.last())->0[i],
        ) + 1 <= total(column_sizes(cols)),
{
    let ks = constructors(cols.last())->0;
    let kind = ks[i];
    let rest = cols.drop_last();
    lemma_columns_split(cols);
    match cols.last() {
        ColumnView::Tuple(fields) => {
            lemma_columns_append(rest, fields.reverse());
            lemma_columns_reverse(fields);
        },
        ColumnView::Union(vs, _) => {
            assert(kind == KindView::Variant(vs[i].name, vs[i].payload is Some));
            assert(column_size(cols.last()) == 1 + vs.len() + total(payload_sizes(vs)));
            lemma_variant_index(vs, vs[i].name);
            if vs[i].name.len() > 0 {
                lemma_payload_step(cols, vs[i].name);
            } else {
                assert(specialize_columns(cols, kind) == rest);
            }
        },
        _ => {},
    }
}

/// The step on a constructor pattern shrinks the measure.
pub proof fn lemma_cons_shrinks(row: Seq<PatternView>, cols: Seq<ColumnView>)
    requires
        row.len() > 0,
        row.last() is Cons,
        can_specialize(cols, row.last()->Cons_0),
    ensures
        row_measure(
            row.drop_last() + row.last()->Cons_1.reverse(),
            specialize_columns(cols, row.last()->Cons_0),
        ) < row_measure(row, cols),
{
    let kind = row.last()->Cons_0;
    let fields = row.last()->Cons_1;
    lemma_patterns_split(row);
    lemma_patterns_append(row.drop_last(), fields.reverse());
    lemma_patterns_reverse(fields);
    lemma_specialize_size(cols, kind);
}

/// The step past a wildcard over a column without listed constructors
/// shrinks the measure.
pub proof fn lemma_tail_shrinks(row: Seq<PatternView>, cols: Seq<ColumnView>)
    requires
        row.len() > 0,
        cols.len() > 0,
    ensures
        row_measure(row.drop_last(), cols.drop_last()) < row_measure(row, cols),
{
    lemma_patterns_split(row);
    lemma_columns_split(cols);
}

/// The step that expands a wildcard into each constructor of the first
/// column shrinks the measure.
pub proof fn lemma_expand_shrinks(row: Seq<PatternView>, cols: Seq<ColumnView>)
    requires
        row.len() > 0,
        cols.len() > 0,
        row.last() is Wild,
        constructors(cols.last()) is Some,
    ensures
        forall|i: int|
            0 <= i < constructors(cols.last())->0.len() ==> #[trigger] row_measure(
                row.drop_last() + wilds(arity(constructors(cols.last())->0[i])),
                specialize_columns(cols, constructors(cols.last())->0[i]),
            ) < row_measure(row, cols),
{
    let ks = constructors(cols.last())->0;
    assert forall|i: int| 0 <= i < ks.len() implies #[trigger] row_measure(
        row.drop_last() + wilds(arity(ks[i])),
        specialize_columns(cols, ks[i]),
    ) < row_measure(row, cols) by {
        lemma_patterns_split(row);
        lemma_patterns_append(row.drop_last(), wilds(arity(ks[i])));
        lemma_patterns_wilds(arity(ks[i]));
        lemma_constructor_size(cols, i);
    }
}

/// Whether `row` is useful against `rows`, over columns `cols` (the first of
/// each kept last): some values it matches match no row of `rows`.
///
/// With no pattern left, the row is useful when no row is left either. A
/// constructor first keeps the rows that can start with it; a wildcard first
/// over a column whose constructors cannot be listed keeps the rows that
/// start with a wildcard, and over one whose constructors can be listed is
/// useful when it is for one of them.
pub open spec fn useful(
    rows: Seq<Seq<PatternView>>,
    cols: Seq<ColumnView>,
    row: Seq<PatternView>,
) -> bool
    decreases row_measure(row, cols),
{
    if row.len() == 0 {
        forall|i: int| 0 <= i < rows.len() ==> rows[i].len() > 0
    } else if cols.len() == 0 {
        false
    } else {
        match row.last() {
            PatternView::Cons(kind, fields) => if can_specialize(cols, kind) {
                proof {
                    lemma_cons_shrinks(row, cols);
                }
                useful(
                    filter_rows(rows, RowOp::Specialize(kind)),
                    specialize_columns(cols, kind),
                    row.drop_last() + fields.reverse(),
                )
            } else {
                false
            },
            PatternView::Wild => match constructors(cols.last()) {
                None => {
                    proof {
                        lemma_tail_shrinks(row, cols);
                    }
                    useful(filter_rows(rows, RowOp::Default), cols.drop_last(), row.drop_last())
                },
                Some(ks) => {
                    proof {
                        lemma_expand_shrinks(row, cols);
                    }
                    exists|i: int|
                        0 <= i < ks.len() && useful(
                            filter_rows(rows, RowOp::Specialize(ks[i])),
                            specialize_columns(cols, ks[i]),
                            row.drop_last() + wilds(arity(ks[i])),
                        )
                },
            },
        }
    }
}

/// Whether the unions in `c` keep their variants apart: distinct names, no
/// payload under an empty name, and the same for every column inside.
pub open spec fn column_wf(c: ColumnView) -> bool
    decreases c,
{
    match c {
        ColumnView::Wild | ColumnView::Str => true,
        ColumnView::Tuple(cs) => forall|i: int| 0 <= i < cs.len() ==> column_wf(#[trigger] cs[i]),
        ColumnView::Union(vs, _) => {
            &&& forall|i: int, j: int|
                0 <= i < j < vs.len() ==> #[trigger] vs[i].name != #[trigger] vs[j].name
            &&& forall|i: int|
                0 <= i < vs.len() ==> (#[trigger] vs[i].name.len() == 0 ==> vs[i].payload is None)
            &&& forall|i: int|
                0 <= i < vs.len() ==> (#[trigger] vs[i].payload matches Some(p) ==> column_wf(p))
        },
    }
}

/// Whether pattern `p` lines up with column `c`, so that specializing both
/// to the same constructor keeps them in step: each constructor has as many
/// fields as it takes, a tuple has as many as the column, and a named
/// variant names one of the column's variants and has a payload exactly
/// when that variant has one.
pub open spec fn fits(p: PatternView, c: ColumnView) -> bool
    decreases p,
{
    match p {
        PatternView::Wild => true,
        PatternView::Cons(kind, fields) => {
            &&& fields.len() == arity(kind)
            &&& match c {
                ColumnView::Wild => forall|i: int|
                    0 <= i < fields.len() ==> fits(#[trigger] fields[i], ColumnView::Wild),
                ColumnView::Str => kind is Str,
                ColumnView::Tuple(cs) => {
                    &&& kind == KindView::Tuple(cs.len())
                    &&& forall|i: int| 0 <= i < fields.len() ==> fits(#[trigger] fields[i], cs[i])
                },
                ColumnView::Union(vs, _) => match kind {
                    KindView::Variant(name, has) => if name.len() == 0 {
                        !has
                    } else {
                        match variant_index(vs, name) {
                            Some(k) => (vs[k].payload is Some) == has && (has ==> fits(
                                fields[0],
                                vs[k].payload->0,
                            )),
                            None => false,
                        }
                    },
                    _ => false,
                },
            }
        },
    }
}

/// A row in step with its columns: one pattern per column, each fitting
/// its column, the columns well formed.
pub open spec fn aligned(row: Seq<PatternView>, cols: Seq<ColumnView>) -> bool {
    &&& row.len() == cols.len()
    &&& forall|i: int| 0 <= i < row.len() ==> fits(#[trigger] row[i], cols[i])
    &&& forall|i: int| 0 <= i < cols.len() ==> column_wf(#[trigger] cols[i])
}

/// A row in step with its columns stays so after the step on its first
/// pattern when that is a constructor.
pub proof fn lemma_aligned_cons(row: Seq<PatternView>, cols: Seq<ColumnView>)
    requires
        aligned(row, cols),
        row.len() > 0,
        row.last() is Cons,
    ensures
        can_specialize(cols, row.last()->Cons_0),
        aligned(
            row.drop_last() + row.last()->Cons_1.reverse(),
            specialize_columns(cols, row.last()->Cons_0),
        ),
{
    let kind = row.last()->Cons_0;
    let fields = row.last()->Cons_1;
    let n = row.len() - 1;
    let c = cols.last();
    assert(fits(row[n], cols[n]) && column_wf(cols[n]));
    let new_row = row.drop_last() + fields.reverse();
    let new_cols = specialize_columns(cols, kind);
    match c {
        ColumnView::Wild => {
            assert(new_cols == cols.drop_last() + wild_columns(arity(kind)));
            assert forall|i: int| 0 <= i < new_row.len() implies fits(
                #[trigger] new_row[i],
                new_cols[i],
            ) by {
                if i >= n {
                    assert(new_row[i] == fields[fields.len() - 1 - (i - n)]);
                }
            }
            assert forall|i: int| 0 <= i < new_cols.len() implies column_wf(
                #[trigger] new_cols[i],
            ) by {
                if i < n {
                    assert(column_wf(cols[i]));
                }
            }
        },
        ColumnView::Str => {
            assert(new_cols == cols.drop_last());
            assert(new_row =~= row.drop_last());
        },
        ColumnView::Tuple(cs) => {
            assert(new_cols == cols.drop_last() + cs.reverse());
            assert forall|i: int| 0 <= i < new_row.len() implies fits(
                #[trigger] new_row[i],
                new_cols[i],
            ) by {
                if i >= n {
                    let j = fields.len() - 1 - (i - n);
                    assert(new_row[i] == fields[j]);
                    assert(new_cols[i] == cs[j]);
                }
            }
            assert forall|i: int| 0 <= i < new_cols.len() implies column_wf(
                #[trigger] new_cols[i],
            ) by {
                if i < n {
                    assert(column_wf(cols[i]));
                } else {
                    let j = cs.len() - 1 - (i - n);
                    assert(new_cols[i] == cs[j]);
                }
            }
        },
        ColumnView::Union(vs, _) => {
            let name = kind->Variant_0;
            if name.len() == 0 {
                assert(new_cols == cols.drop_last());
                assert(new_row =~= row.drop_last());
            } else {
                lemma_variant_index(vs, name);
                let k = variant_index(vs, name)->0;
                match vs[k].payload {
                    Some(p) => {
                        assert(new_cols == cols.drop_last().push(p));
                        assert(new_row[n] == fields[0]);
                        assert(column_wf(p));
                        assert forall|i: int| 0 <= i < new_cols.len() implies column_wf(
                            #[trigger] new_cols[i],
                        ) by {
                            if i < n {
                                assert(column_wf(cols[i]));
                            }
                        }
                    },
                    None => {
                        assert(new_cols == cols.drop_last());
                        assert(new_row =~= row.drop_last());
                    },
                }
            }
        },
    }
}

/// A row in step with its columns stays so without its first pattern and
/// column.
pub proof fn lemma_aligned_tail(row: Seq<PatternView>, cols: Seq<ColumnView>)
    requires
        aligned(row, cols),
        row.len() > 0,
    ensures
        aligned(row.drop_last(), cols.drop_last()),
{
    assert forall|i: int| 0 <= i < cols.len() - 1 implies column_wf(
        #[trigger] cols.drop_last()[i],
    ) by {
        assert(column_wf(cols[i]));
    }
}

/// A row in step with its columns, starting with a wildcard, stays so after
/// expanding the wildcard for any constructor of the first column.
pub proof fn lemma_aligned_expand(row: Seq<PatternView>, cols: Seq<ColumnView>, i: int)
    requires
        aligned(row, cols),
        row.len() > 0,
        row.last() is Wild,
        constructors(cols.last()) is Some,
        0 <= i < constructors(cols.last())->0.len(),
    ensures
        can_specialize(cols, constructors(cols.last())->0[i]),
        aligned(
            row.drop_last() + wilds(arity(constructors(cols.last())->0[i])),
            specialize_columns(cols, constructors(cols.last())->0[i]),
        ),
{
    let kind = constructors(cols.last())->0[i];
    let n = row.len() - 1;
    let c = cols.last();
    assert(column_wf(cols[n]));
    lemma_constructor_size(cols, i);
    let new_row = row.drop_last() + wilds(arity(kind));
    let new_cols = specialize_columns(cols, kind);
    match c {
        ColumnView::Tuple(cs) => {
            assert(new_cols == cols.drop_last() + cs.reverse());
            assert forall|j: int| 0 <= j < new_cols.len() implies column_wf(
                #[trigger] new_cols[j],
            ) by {
                if j < n {
                    assert(column_wf(cols[j]));
                } else {
                    let m = cs.len() - 1 - (j - n);
                    assert(new_cols[j] == cs[m]);
                }
            }
        },
        ColumnView::Union(vs, _) => {
            let name = vs[i].name;
            assert(kind == KindView::Variant(name, vs[i].payload is Some));
            if name.len() == 0 {
                assert(vs[i].payload is None);
                assert(new_cols == cols.drop_last());
                assert(new_row =~= row.drop_last());
            } else {
                lemma_variant_index(vs, name);
                let k = variant_index(vs, name)->0;
                if k != i {
                    assert(vs[k].name == vs[i].name);
                    assert(false);
                }
                match vs[k].payload {
                    Some(p) => {
                        assert(new_cols == cols.drop_last().push(p));
                        assert(column_wf(p));
                        assert forall|j: int| 0 <= j < new_cols.len() implies column_wf(
                            #[trigger] new_cols[j],
                        ) by {
                            if j < n {
                                assert(column_wf(cols[j]));
                            }
                        }
                    },
                    None => {
                        assert(new_cols == cols.drop_last());
                        assert(new_row =~= row.drop_last());
                    },
                }
            }
        },
        _ => {},
    }
}

/// Whether every column is well formed.
pub open spec fn columns_wf(cols: Seq<ColumnView>) -> bool {
    forall|i: int| 0 <= i < cols.len() ==> column_wf(#[trigger] cols[i])
}

/// A row of wildcards is in step with well formed columns.
pub proof fn lemma_wilds_aligned(cols: Seq<ColumnView>)
    requires
        columns_wf(cols),
    ensures
        aligned(wilds(cols.len()), cols),
{
}

/// The stack `stack` of patterns (the first last) with the top
/// `arity(kind)` patterns folded into one `kind` constructor, the topmost
/// becoming its first field.
pub open spec fn rebuild(stack: Seq<PatternView>, kind: KindView) -> Seq<PatternView> {
    let m = stack.len() - arity(kind);
    stack.take(m).push(PatternView::Cons(kind, stack.skip(m).reverse()))
}

/// The patterns, one per column (the first kept last), that no row of
/// `rows` covers, built constructor by constructor: with no column left
/// there is one, the empty one, exactly when no row is left; a first column
/// whose constructors cannot be listed is a wildcard over what the rows
/// starting with a wildcard leave; otherwise each constructor of the column
/// in turn heads what the rows that can start with it leave.
pub open spec fn missing(rows: Seq<Seq<PatternView>>, cols: Seq<ColumnView>) -> Seq<
    Seq<PatternView>,
>
    decreases total(column_sizes(cols)), 1nat, 0nat,
{
    if cols.len() == 0 {
        if forall|i: int| 0 <= i < rows.len() ==> rows[i].len() > 0 {
            seq![Seq::empty()]
        } else {
            Seq::empty()
        }
    } else {
        match constructors(cols.last()) {
            None => {
                proof {
                    lemma_columns_split(cols);
                }
                missing(filter_rows(rows, RowOp::Default), cols.drop_last()).map_values(
                    |s: Seq<PatternView>| s.push(PatternView::Wild),
                )
            },
            Some(ks) => missing_upto(rows, cols, ks.len()),
        }
    }
}

/// What `missing` gives for the first `n` constructors of the first column.
pub open spec fn missing_upto(rows: Seq<Seq<PatternView>>, cols: Seq<ColumnView>, n: nat) -> Seq<
    Seq<PatternView>,
>
    decreases total(column_sizes(cols)), 0nat, n,
{
    if cols.len() > 0 && constructors(cols.last()) is Some && 0 < n <= constructors(
        cols.last(),
    )->0.len() {
        let kind = constructors(cols.last())->0[n - 1];
        proof {
            lemma_constructor_size(cols, n - 1);
        }
        missing_upto(rows, cols, (n - 1) as nat) + missing(
            filter_rows(rows, RowOp::Specialize(kind)),
            specialize_columns(cols, kind),
        ).map_values(|s: Seq<PatternView>| rebuild(s, kind))
    } else {
        Seq::empty()
    }
}

/// Specializing well formed columns to a constructor of the first keeps
/// them well formed, and the first column gives way to as many columns as
/// the constructor takes.
pub proof fn lemma_expand_columns(cols: Seq<ColumnView>, i: int)
    requires
        columns_wf(cols),
        cols.len() > 0,
        constructors(cols.last()) is Some,
        0 <= i < constructors(cols.last())->0.len(),
    ensures
        can_specialize(cols, constructors(cols.last())->0[i]),
        columns_wf(specialize_columns(cols, constructors(cols.last())->0[i])),
        specialize_columns(cols, constructors(cols.last())->0[i]).len() == cols.len() - 1 + arity(
            constructors(cols.last())->0[i],
        ),
{
    let kind = constructors(cols.last())->0[i];
    let row = wilds(cols.len());
    lemma_wilds_aligned(cols);
    lemma_aligned_expand(row, cols, i);
    let new_cols = specialize_columns(cols, kind);
    let new_row = row.drop_last() + wilds(arity(kind));
    assert(aligned(new_row, new_cols));
    assert forall|j: int| 0 <= j < new_cols.len() implies column_wf(#[trigger] new_cols[j]) by {}
}

/// Every pattern `missing` gives has one entry per column.
pub proof fn lemma_missing_len(rows: Seq<Seq<PatternView>>, cols: Seq<ColumnView>)
    requires
        columns_wf(cols),
    ensures
        forall|j: int|
            0 <= j < missing(rows, cols).len() ==> #[trigger] missing(rows, cols)[j].len()
                == cols.len(),
    decreases total(column_sizes(cols)), 1nat, 0nat,
{
    if cols.len() > 0 {
        match constructors(cols.last()) {
            None => {
                lemma_columns_split(cols);
                let rest = cols.drop_last();
                assert(columns_wf(rest)) by {
                    assert forall|i: int| 0 <= i < rest.len() implies column_wf(#[trigger] rest[i]) by {
                        assert(column_wf(cols[i]));
                    }
                }
                let sub_rows = filter_rows(rows, RowOp::Default);
                lemma_missing_len(sub_rows, rest);
                let m = missing(sub_rows, rest);
                assert(missing(rows, cols) == m.map_values(
                    |s: Seq<PatternView>| s.push(PatternView::Wild),
                ));
                assert forall|j: int| 0 <= j < missing(rows, cols).len() implies #[trigger] missing(
                    rows,
                    cols,
                )[j].len() == cols.len() by {
                    assert(m[j].len() == rest.len());
                }
            },
            Some(ks) => {
                lemma_missing_upto_len(rows, cols, ks.len());
                assert(missing(rows, cols) == missing_upto(rows, cols, ks.len()));
            },
        }
    } else {
        assert forall|j: int| 0 <= j < missing(rows, cols).len() implies #[trigger] missing(
            rows,
            cols,
        )[j].len() == cols.len() by {
            assert(missing(rows, cols)[j] == Seq::<PatternView>::empty());
        }
    }
}

proof fn lemma_missing_upto_len(rows: Seq<Seq<PatternView>>, cols: Seq<ColumnView>, n: nat)
    requires
        columns_wf(cols),
        cols.len() > 0,
        constructors(cols.last()) is Some,
        n <= constructors(cols.last())->0.len(),
    ensures
        forall|j: int|
            0 <= j < missing_upto(rows, cols, n).len() ==> #[trigger] missing_upto(
                rows,
                cols,
                n,
            )[j].len() == cols.len(),
    decreases total(column_sizes(cols)), 0nat, n,
{
    if n > 0 {
        let kind = constructors(cols.last())->0[n - 1];
        lemma_missing_upto_len(rows, cols, (n - 1) as nat);
        lemma_constructor_size(cols, n - 1);
        lemma_expand_columns(cols, n - 1);
        let sub_rows = filter_rows(rows, RowOp::Specialize(kind));
        let sub_cols = specialize_columns(cols, kind);
        lemma_missing_len(sub_rows, sub_cols);
        let first = missing_upto(rows, cols, (n - 1) as nat);
        let second = missing(sub_rows, sub_cols).map_values(|s: Seq<PatternView>| rebuild(s, kind));
        assert(missing_upto(rows, cols, n) == first + second);
        assert forall|j: int| 0 <= j < (first + second).len() implies #[trigger] (first
            + second)[j].len() == cols.len() by {
            if j >= first.len() {
                let s = missing(sub_rows, sub_cols)[j - first.len()];
                assert(s.len() == sub_cols.len());
                assert(second[j - first.len()] == rebuild(s, kind));
            }
        }
    }
}

/// Without its first column, well formed columns stay well formed.
proof fn lemma_columns_wf_tail(cols: Seq<ColumnView>)
    requires
        columns_wf(cols),
        cols.len() > 0,
    ensures
        columns_wf(cols.drop_last()),
{
    assert forall|i: int| 0 <= i < cols.len() - 1 implies column_wf(
        #[trigger] cols.drop_last()[i],
    ) by {
        assert(column_wf(cols[i]));
    }
}

/// Some pattern is missing exactly when a row of wildcards is useful.
proof fn lemma_missing_iff_useful(rows: Seq<Seq<PatternView>>, cols: Seq<ColumnView>)
    requires
        columns_wf(cols),
    ensures
        (missing(rows, cols).len() > 0) == useful(rows, cols, wilds(cols.len())),
    decreases total(column_sizes(cols)), 1nat, 0nat,
{
    let row = wilds(cols.len());
    if cols.len() > 0 {
        assert(row.last() == PatternView::Wild);
        assert(row.drop_last() =~= wilds((cols.len() - 1) as nat));
        match constructors(cols.last()) {
            None => {
                lemma_columns_split(cols);
                lemma_columns_wf_tail(cols);
                lemma_missing_iff_useful(filter_rows(rows, RowOp::Default), cols.drop_last());
            },
            Some(ks) => {
                lemma_missing_upto_iff_useful(rows, cols, ks.len());
                assert(missing(rows, cols) == missing_upto(rows, cols, ks.len()));
            },
        }
    }
}

proof fn lemma_missing_upto_iff_useful(rows: Seq<Seq<PatternView>>, cols: Seq<ColumnView>, n: nat)
    requires
        columns_wf(cols),
        cols.len() > 0,
        constructors(cols.last()) is Some,
        n <= constructors(cols.last())->0.len(),
    ensures
        (missing_upto(rows, cols, n).len() > 0) == exists|i: int|
            0 <= i < n && useful(
                filter_rows(rows, RowOp::Specialize(constructors(cols.last())->0[i])),
                specialize_columns(cols, constructors(cols.last())->0[i]),
                wilds(cols.len()).drop_last() + wilds(arity(constructors(cols.last())->0[i])),
            ),
    decreases total(column_sizes(cols)), 0nat, n,
{
    if n > 0 {
        let ks = constructors(cols.last())->0;
        let kind = ks[n - 1];
        lemma_missing_upto_iff_useful(rows, cols, (n - 1) as nat);
        lemma_constructor_size(cols, n - 1);
        lemma_expand_columns(cols, n - 1);
        let sub_rows = filter_rows(rows, RowOp::Specialize(kind));
        let sub_cols = specialize_columns(cols, kind);
        lemma_missing_iff_useful(sub_rows, sub_cols);
        assert(wilds(cols.len()).drop_last() + wilds(arity(kind)) =~= wilds(sub_cols.len()));
        let first = missing_upto(rows, cols, (n - 1) as nat);
        let second = missing(sub_rows, sub_cols).map_values(|s: Seq<PatternView>| rebuild(s, kind));
        assert(missing_upto(rows, cols, n) == first + second);
    }
}

/// Every pattern `missing` gives is useful against the rows.
proof fn lemma_missing_useful(rows: Seq<Seq<PatternView>>, cols: Seq<ColumnView>, j: int)
    requires
        columns_wf(cols),
        0 <= j < missing(rows, cols).len(),
    ensures
        useful(rows, cols, missing(rows, cols)[j]),
    decreases total(column_sizes(cols)), 1nat, 0nat,
{
    let s = missing(rows, cols)[j];
    lemma_missing_len(rows, cols);
    if cols.len() == 0 {
        assert(s.len() == 0);
    } else {
        match constructors(cols.last()) {
            None => {
                lemma_columns_split(cols);
                lemma_columns_wf_tail(cols);
                let sub_rows = filter_rows(rows, RowOp::Default);
                let sub = missing(sub_rows, cols.drop_last());
                assert(s == sub[j].push(PatternView::Wild));
                lemma_missing_useful(sub_rows, cols.drop_last(), j);
                assert(s.drop_last() =~= sub[j]);
            },
            Some(ks) => {
                assert(missing(rows, cols) == missing_upto(rows, cols, ks.len()));
                lemma_missing_upto_useful(rows, cols, ks.len(), j);
            },
        }
    }
}

proof fn lemma_missing_upto_useful(
    rows: Seq<Seq<PatternView>>,
    cols: Seq<ColumnView>,
    n: nat,
    j: int,
)
    requires
        columns_wf(cols),
        cols.len() > 0,
        constructors(cols.last()) is Some,
        n <= constructors(cols.last())->0.len(),
        0 <= j < missing_upto(rows, cols, n).len(),
    ensures
        useful(rows, cols, missing_upto(rows, cols, n)[j]),
    decreases total(column_sizes(cols)), 0nat, n,
{
    let ks = constructors(cols.last())->0;
    let kind = ks[n - 1];
    let first = missing_upto(rows, cols, (n - 1) as nat);
    let sub_rows = filter_rows(rows, RowOp::Specialize(kind));
    let sub_cols = specialize_columns(cols, kind);
    let second = missing(sub_rows, sub_cols).map_values(|s: Seq<PatternView>| rebuild(s, kind));
    assert(missing_upto(rows, cols, n) == first + second);
    if j < first.len() {
        lemma_missing_upto_useful(rows, cols, (n - 1) as nat, j);
    } else {
        lemma_constructor_size(cols, n - 1);
        lemma_expand_columns(cols, n - 1);
        lemma_missing_len(sub_rows, sub_cols);
        let t = missing(sub_rows, sub_cols)[j - first.len()];
        lemma_missing_useful(sub_rows, sub_cols, j - first.len());
        let s = rebuild(t, kind);
        assert(missing_upto(rows, cols, n)[j] == s);
        let m = t.len() - arity(kind);
        let fields = t.skip(m).reverse();
        assert(s.last() == PatternView::Cons(kind, fields));
        assert(s.drop_last() + fields.reverse() =~= t);
    }
}

/// A row the rows of `rows` lead to under `op` is among what `op` leaves.
proof fn lemma_filter_keeps(rows: Seq<Seq<PatternView>>, op: RowOp, j: int) -> (k: int)
    requires
        0 <= j < rows.len(),
        apply_op(op, rows[j]) is Some,
    ensures
        0 <= k < filter_rows(rows, op).len(),
        filter_rows(rows, op)[k] == apply_op(op, rows[j])->0,
    decreases rows.len(),
{
    let rest = filter_rows(rows.drop_last(), op);
    if j == rows.len() - 1 {
        rest.len() as int
    } else {
        assert(rows.drop_last()[j] == rows[j]);
        lemma_filter_keeps(rows.drop_last(), op, j)
    }
}

/// A row that repeats one of the rows is not useful against them.
proof fn lemma_repeated_row(
    rows: Seq<Seq<PatternView>>,
    cols: Seq<ColumnView>,
    row: Seq<PatternView>,
    j: int,
)
    requires
        aligned(row, cols),
        0 <= j < rows.len(),
        rows[j] == row,
    ensures
        !useful(rows, cols, row),
    decreases row_measure(row, cols),
{
    if row.len() > 0 {
        match row.last() {
            PatternView::Cons(kind, fields) => {
                lemma_aligned_cons(row, cols);
                lemma_cons_shrinks(row, cols);
                let op = RowOp::Specialize(kind);
                assert(apply_op(op, row) == Some(row.drop_last() + fields.reverse()));
                let k = lemma_filter_keeps(rows, op, j);
                lemma_repeated_row(
                    filter_rows(rows, op),
                    specialize_columns(cols, kind),
                    row.drop_last() + fields.reverse(),
                    k,
                );
            },
            PatternView::Wild => match constructors(cols.last()) {
                None => {
                    lemma_aligned_tail(row, cols);
                    lemma_tail_shrinks(row, cols);
                    let k = lemma_filter_keeps(rows, RowOp::Default, j);
                    lemma_repeated_row(
                        filter_rows(rows, RowOp::Default),
                        cols.drop_last(),
                        row.drop_last(),
                        k,
                    );
                },
                Some(ks) => {
                    lemma_expand_shrinks(row, cols);
                    assert forall|i: int| 0 <= i < ks.len() implies !useful(
                        filter_rows(rows, RowOp::Specialize(ks[i])),
                        specialize_columns(cols, ks[i]),
                        row.drop_last() + wilds(arity(ks[i])),
                    ) by {
                        lemma_aligned_expand(row, cols, i);
                        let op = RowOp::Specialize(ks[i]);
                        assert(apply_op(op, row) == Some(row.drop_last() + wilds(arity(ks[i]))));
                        let k = lemma_filter_keeps(rows, op, j);
                        lemma_repeated_row(
                            filter_rows(rows, op),
                            specialize_columns(cols, ks[i]),
                            row.drop_last() + wilds(arity(ks[i])),
                            k,
                        );
                    }
                },
            },
        }
    }
}

/// The arms leave some value unhandled exactly when a catch-all arm after
/// them would be reachable: `missing` gives some pattern for a well formed
/// column exactly when a wildcard row is useful against the rows.
pub proof fn law_exhaustive_iff_catch_all_unreachable(
    rows: Seq<Seq<PatternView>>,
    column: ColumnView,
)
    requires
        column_wf(column),
    ensures
        (missing(rows, seq![column]).len() == 0) == !useful(
            rows,
            seq![column],
            seq![PatternView::Wild],
        ),
{
    let cols = seq![column];
    assert(columns_wf(cols));
    lemma_missing_iff_useful(rows, cols);
    assert(wilds(1) =~= seq![PatternView::Wild]);
}

/// Every pattern reported as unhandled is one no arm handles: each pattern
/// `missing` gives for a well formed column is useful against the rows.
pub proof fn law_unhandled_patterns_are_unmatched(
    rows: Seq<Seq<PatternView>>,
    column: ColumnView,
    j: int,
)
    requires
        column_wf(column),
        0 <= j < missing(rows, seq![column]).len(),
    ensures
        missing(rows, seq![column])[j].len() == 1,
        useful(rows, seq![column], seq![missing(rows, seq![column])[j].last()]),
{
    let cols = seq![column];
    assert(columns_wf(cols));
    lemma_missing_len(rows, cols);
    lemma_missing_useful(rows, cols, j);
    let s = missing(rows, cols)[j];
    assert(s =~= seq![s.last()]);
}

/// An arm that repeats an earlier arm is unreachable: a row equal to one of
/// the rows is not useful against them.
pub proof fn law_repeated_arm_unreachable(
    rows: Seq<Seq<PatternView>>,
    column: ColumnView,
    pattern: PatternView,
    j: int,
)
    requires
        column_wf(column),
        fits(pattern, column),
        0 <= j < rows.len(),
        rows[j] == seq![pattern],
    ensures
        !useful(rows, seq![column], seq![pattern]),
{
    assert(aligned(seq![pattern], seq![column]));
    lemma_repeated_row(rows, seq![column], seq![pattern], j);
}

/// A row that a row of wildcards precedes is not useful against the rows.
proof fn lemma_wild_row_covers(
    rows: Seq<Seq<PatternView>>,
    cols: Seq<ColumnView>,
    row: Seq<PatternView>,
    j: int,
)
    requires
        aligned(row, cols),
        0 <= j < rows.len(),
        rows[j] == wilds(row.len()),
    ensures
        !useful(rows, cols, row),
    decreases row_measure(row, cols),
{
    if row.len() > 0 {
        let rest = wilds((row.len() - 1) as nat);
        assert(rows[j].last() == PatternView::Wild);
        assert(rows[j].drop_last() =~= rest);
        match row.last() {
            PatternView::Cons(kind, fields) => {
                lemma_aligned_cons(row, cols);
                lemma_cons_shrinks(row, cols);
                let op = RowOp::Specialize(kind);
                let next = row.drop_last() + fields.reverse();
                assert(fits(row.last(), cols.last()));
                assert(rest + wilds(arity(kind)) =~= wilds(next.len()));
                assert(apply_op(op, rows[j]) == Some(wilds(next.len())));
                let k = lemma_filter_keeps(rows, op, j);
                lemma_wild_row_covers(filter_rows(rows, op), specialize_columns(cols, kind), next, k);
            },
            PatternView::Wild => match constructors(cols.last()) {
                None => {
                    lemma_aligned_tail(row, cols);
                    lemma_tail_shrinks(row, cols);
                    assert(apply_op(RowOp::Default, rows[j]) == Some(rest));
                    let k = lemma_filter_keeps(rows, RowOp::Default, j);
                    lemma_wild_row_covers(
                        filter_rows(rows, RowOp::Default),
                        cols.drop_last(),
                        row.drop_last(),
                        k,
                    );
                },
                Some(ks) => {
                    lemma_expand_shrinks(row, cols);
                    assert forall|i: int| 0 <= i < ks.len() implies !useful(
                        filter_rows(rows, RowOp::Specialize(ks[i])),
                        specialize_columns(cols, ks[i]),
                        row.drop_last() + wilds(arity(ks[i])),
                    ) by {
                        lemma_aligned_expand(row, cols, i);
                        let op = RowOp::Specialize(ks[i]);
                        let next = row.drop_last() + wilds(arity(ks[i]));
                        assert(rest + wilds(arity(ks[i])) =~= wilds(next.len()));
                        assert(apply_op(op, rows[j]) == Some(wilds(next.len())));
                        let k = lemma_filter_keeps(rows, op, j);
                        lemma_wild_row_covers(
                            filter_rows(rows, op),
                            specialize_columns(cols, ks[i]),
                            next,
                            k,
                        );
                    }
                },
            },
        }
    }
}

/// No arm after a catch-all arm is reachable: against rows one of which is
/// a wildcard, no pattern of the column is useful.
pub proof fn law_catch_all_covers(
    rows: Seq<Seq<PatternView>>,
    column: ColumnView,
    pattern: PatternView,
    j: int,
)
    requires
        column_wf(column),
        fits(pattern, column),
        0 <= j < rows.len(),
        rows[j] == seq![PatternView::Wild],
    ensures
        !useful(rows, seq![column], seq![pattern]),
{
    assert(aligned(seq![pattern], seq![column]));
    assert(wilds(1) =~= seq![PatternView::Wild]);
    lemma_wild_row_covers(rows, seq![column], seq![pattern], j);
}

} // verus!
