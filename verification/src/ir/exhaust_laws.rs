//! What merging columns guarantees: the merged column describes every
//! pattern either column describes.
use vstd::prelude::*;

use crate::ir::exhaust::{
    column_of, lemma_variant_index, merge, merge_fields, merge_variants, variant_index, ColumnView, KindView,
    PatternView, VariantView,
};

verus! {

/// Whether the pattern `p` matches values of the shape `c`: a wildcard
/// matches any shape; a constructor needs a column of its kind with the same
/// number of fields (for a variant, one of that name with a payload exactly
/// when the pattern has one), its sub-patterns matching the sub-columns.
pub open spec fn conforms(p: PatternView, c: ColumnView) -> bool
    decreases p,
{
    match p {
        PatternView::Wild => true,
        PatternView::Cons(kind, fields) => match (kind, c) {
            (KindView::Str(..), ColumnView::Str) => fields.len() == 0,
            (KindView::Tuple(n), ColumnView::Tuple(cs)) => {
                &&& n == cs.len()
                &&& fields.len() == n
                &&& forall|i: int| 0 <= i < n ==> conforms(fields[i], cs[i])
            },
            (KindView::Variant(name, has_payload), ColumnView::Union(vs, _)) => exists|k: int|
                0 <= k < vs.len() && vs[k].name == name && if has_payload {
                    &&& fields.len() == 1
                    &&& vs[k].payload is Some
                    &&& conforms(fields[0], vs[k].payload->0)
                } else {
                    fields.len() == 0 && vs[k].payload is None
                },
            _ => false,
        },
    }
}

/// Every pattern that matches shape `c` matches shape `d`.
pub open spec fn covers(c: ColumnView, d: ColumnView) -> bool {
    forall|p: PatternView| #[trigger] conforms(p, c) ==> conforms(p, d)
}

/// A pattern built as the arms' patterns are: each constructor has as many
/// sub-patterns as it takes.
pub open spec fn well_formed(p: PatternView) -> bool
    decreases p,
{
    match p {
        PatternView::Wild => true,
        PatternView::Cons(kind, fields) => {
            &&& fields.len() == match kind {
                KindView::Str(..) => 0,
                KindView::Tuple(n) => n,
                KindView::Variant(_, has) => if has {
                    1nat
                } else {
                    0nat
                },
            }
            &&& forall|i: int| 0 <= i < fields.len() ==> well_formed(fields[i])
        },
    }
}

/// A variant of `vs` with the name of `v` whose payload covers `v`'s.
pub open spec fn has_counterpart(v: VariantView, vs: Seq<VariantView>) -> bool {
    exists|k: int|
        0 <= k < vs.len() && vs[k].name == v.name && match (v.payload, vs[k].payload) {
            (Some(a), Some(b)) => covers(a, b),
            (None, None) => true,
            _ => false,
        }
}

proof fn lemma_covers_refl(c: ColumnView)
    ensures
        covers(c, c),
{
}

proof fn lemma_covers_trans(a: ColumnView, b: ColumnView, c: ColumnView)
    requires
        covers(a, b),
        covers(b, c),
    ensures
        covers(a, c),
{
}

/// A union column covers another when each variant of the second has a
/// counterpart in the first.
proof fn lemma_union_covers(xs: Seq<VariantView>, xo: bool, vs: Seq<VariantView>, vo: bool)
    requires
        forall|k: int| 0 <= k < xs.len() ==> has_counterpart(#[trigger] xs[k], vs),
    ensures
        covers(ColumnView::Union(xs, xo), ColumnView::Union(vs, vo)),
{
    assert forall|p: PatternView| #[trigger]
        conforms(p, ColumnView::Union(xs, xo)) implies conforms(p, ColumnView::Union(vs, vo)) by {
        if let PatternView::Cons(kind, fields) = p {
            if let KindView::Variant(name, has) = kind {
                let k = choose|k: int|
                    0 <= k < xs.len() && xs[k].name == name && if has {
                        &&& fields.len() == 1
                        &&& xs[k].payload is Some
                        &&& conforms(fields[0], xs[k].payload->0)
                    } else {
                        fields.len() == 0 && xs[k].payload is None
                    };
                assert(has_counterpart(xs[k], vs));
                let j = choose|j: int|
                    0 <= j < vs.len() && vs[j].name == xs[k].name && match (
                        xs[k].payload,
                        vs[j].payload,
                    ) {
                        (Some(a), Some(b)) => covers(a, b),
                        (None, None) => true,
                        _ => false,
                    };
                if has {
                    assert(conforms(fields[0], xs[k].payload->0));
                    assert(conforms(fields[0], vs[j].payload->0));
                }
            }
        }
    }
}

proof fn lemma_merge(a: ColumnView, b: ColumnView)
    ensures
        merge(a, b) matches Some(m) ==> covers(a, m) && covers(b, m),
    decreases b, 0nat, 0nat,
{
    match merge(a, b) {
        None => {},
        Some(m) => {
            match b {
                ColumnView::Wild => {
                    lemma_covers_refl(a);
                },
                _ => match a {
                    ColumnView::Wild => {
                        lemma_covers_refl(b);
                    },
                    ColumnView::Str => {
                        lemma_covers_refl(a);
                    },
                    ColumnView::Tuple(xs) => {
                        if let ColumnView::Tuple(ys) = b {
                            lemma_merge_fields(xs, ys, 0);
                            let zs = merge_fields(xs, ys, 0)->0;
                            assert forall|p: PatternView| #[trigger] conforms(p, a) implies conforms(
                                p,
                                m,
                            ) by {
                                if let PatternView::Cons(kind, fields) = p {
                                    assert forall|i: int| 0 <= i < zs.len() implies conforms(
                                        fields[i],
                                        zs[i],
                                    ) by {
                                        assert(conforms(fields[i], xs[i]));
                                    }
                                }
                            }
                            assert forall|p: PatternView| #[trigger] conforms(p, b) implies conforms(
                                p,
                                m,
                            ) by {
                                if let PatternView::Cons(kind, fields) = p {
                                    assert forall|i: int| 0 <= i < zs.len() implies conforms(
                                        fields[i],
                                        zs[i],
                                    ) by {
                                        assert(conforms(fields[i], ys[i]));
                                    }
                                }
                            }
                        }
                    },
                    ColumnView::Union(xs, xo) => {
                        if let ColumnView::Union(ys, yo) = b {
                            let vs = merge_variants(xs, ys, 0)->0;
                            lemma_merge_variants(xs, ys, 0);
                            assert forall|k: int| 0 <= k < xs.len() implies has_counterpart(
                                #[trigger] xs[k],
                                vs,
                            ) by {
                                assert(has_counterpart(xs[k], xs)) by {
                                    match xs[k].payload {
                                        Some(c) => lemma_covers_refl(c),
                                        None => {},
                                    }
                                }
                            }
                            lemma_union_covers(xs, xo, vs, xo && yo);
                            lemma_union_covers(ys, yo, vs, xo && yo);
                        }
                    },
                },
            }
        },
    }
}

proof fn lemma_merge_fields(xs: Seq<ColumnView>, ys: Seq<ColumnView>, i: nat)
    ensures
        merge_fields(xs, ys, i) matches Some(zs) ==> {
            &&& i <= ys.len() ==> zs.len() == ys.len() - i
            &&& forall|j: int|
                0 <= j < zs.len() ==> merge(xs[i + j], ys[i + j]) == Some(#[trigger] zs[j])
                    && covers(xs[i + j], zs[j]) && covers(ys[i + j], zs[j])
        },
    decreases ys, 1nat, ys.len() - i,
{
    if i < ys.len() {
        lemma_merge(xs[i as int], ys[i as int]);
        lemma_merge_fields(xs, ys, i + 1);
        if let Some(zs) = merge_fields(xs, ys, i) {
            let rest = merge_fields(xs, ys, i + 1)->0;
            assert forall|j: int| 0 <= j < zs.len() implies merge(xs[i + j], ys[i + j]) == Some(
                #[trigger] zs[j],
            ) && covers(xs[i + j], zs[j]) && covers(ys[i + j], zs[j]) by {
                if j > 0 {
                    assert(zs[j] == rest[j - 1]);
                    assert(i + 1 + (j - 1) == i + j);
                }
            }
        }
    }
}

/// What `merge_variants` keeps: every variant of `acc` and of `ys` from the
/// `i`-th on has a counterpart in the result.
#[verifier::rlimit(50)]
proof fn lemma_merge_variants(acc: Seq<VariantView>, ys: Seq<VariantView>, i: nat)
    ensures
        merge_variants(acc, ys, i) matches Some(out) ==> {
            &&& forall|k: int| 0 <= k < acc.len() ==> has_counterpart(#[trigger] acc[k], out)
            &&& forall|j: int| i <= j < ys.len() ==> has_counterpart(#[trigger] ys[j], out)
        },
    decreases ys, 1nat, ys.len() - i,
{
    if i < ys.len() {
        let y = ys[i as int];
        match variant_index(acc, y.name) {
            None => {
                let acc2 = acc.push(y);
                lemma_merge_variants(acc2, ys, i + 1);
                if let Some(out) = merge_variants(acc, ys, i) {
                    assert forall|k: int| 0 <= k < acc.len() implies has_counterpart(
                        #[trigger] acc[k],
                        out,
                    ) by {
                        assert(acc2[k] == acc[k]);
                    }
                    assert forall|j: int| i <= j < ys.len() implies has_counterpart(
                        #[trigger] ys[j],
                        out,
                    ) by {
                        if j == i {
                            assert(acc2[acc.len() as int] == y);
                        }
                    }
                }
            },
            Some(k) => {
                lemma_variant_index(acc, y.name);
                assert(0 <= k < acc.len() && acc[k].name == y.name);
                match (acc[k].payload, y.payload) {
                    (Some(p), Some(q)) => {
                        lemma_merge(p, q);
                        if let Some(mm) = merge(p, q) {
                            let acc2 = acc.update(
                                k,
                                VariantView { name: acc[k].name, payload: Some(mm) },
                            );
                            lemma_merge_variants(acc2, ys, i + 1);
                            if let Some(out) = merge_variants(acc, ys, i) {
                                assert(has_counterpart(acc2[k], out));
                                let kk = choose|kk: int|
                                    0 <= kk < out.len() && out[kk].name == acc2[k].name && match (
                                        acc2[k].payload,
                                        out[kk].payload,
                                    ) {
                                        (Some(a), Some(b)) => covers(a, b),
                                        (None, None) => true,
                                        _ => false,
                                    };
                                lemma_covers_trans(p, mm, out[kk].payload->0);
                                lemma_covers_trans(q, mm, out[kk].payload->0);
                                assert forall|k2: int| 0 <= k2 < acc.len() implies has_counterpart(
                                    #[trigger] acc[k2],
                                    out,
                                ) by {
                                    if k2 != k {
                                        assert(acc2[k2] == acc[k2]);
                                    } else {
                                        assert(out[kk].name == acc[k].name);
                                    }
                                }
                                assert forall|j: int| i <= j < ys.len() implies has_counterpart(
                                    #[trigger] ys[j],
                                    out,
                                ) by {
                                    if j == i {
                                        assert(out[kk].name == y.name);
                                    }
                                }
                            }
                        }
                    },
                    (None, None) => {
                        lemma_merge_variants(acc, ys, i + 1);
                        if let Some(out) = merge_variants(acc, ys, i) {
                            assert(has_counterpart(acc[k], out));
                            assert forall|j: int| i <= j < ys.len() implies has_counterpart(
                                #[trigger] ys[j],
                                out,
                            ) by {
                                if j == i {
                                    let kk = choose|kk: int|
                                        0 <= kk < out.len() && out[kk].name == acc[k].name
                                            && match (acc[k].payload, out[kk].payload) {
                                            (Some(a), Some(b)) => covers(a, b),
                                            (None, None) => true,
                                            _ => false,
                                        };
                                    assert(out[kk].name == y.name);
                                }
                            }
                        }
                    },
                    _ => {},
                }
            },
        }
    } else {
        if let Some(out) = merge_variants(acc, ys, i) {
            assert forall|k: int| 0 <= k < acc.len() implies has_counterpart(#[trigger] acc[k], out) by {
                match acc[k].payload {
                    Some(c) => lemma_covers_refl(c),
                    None => {},
                }
            }
        }
    }
}

/// Merging columns loses no pattern: every pattern that matches either
/// column matches the merged one.
pub proof fn law_merge_covers(a: ColumnView, b: ColumnView, p: PatternView)
    requires
        merge(a, b) is Some,
        conforms(p, a) || conforms(p, b),
    ensures
        conforms(p, merge(a, b)->0),
{
    lemma_merge(a, b);
}

/// The column a pattern describes on its own matches that pattern.
pub proof fn law_pattern_fits_its_column(p: PatternView)
    requires
        well_formed(p),
    ensures
        conforms(p, column_of(p)),
    decreases p,
{
    if let PatternView::Cons(kind, fields) = p {
        match kind {
            KindView::Str(..) => {},
            KindView::Tuple(n) => {
                let c = column_of(p);
                assert forall|i: int| 0 <= i < n implies conforms(fields[i], c->Tuple_0[i]) by {
                    law_pattern_fits_its_column(fields[i]);
                }
            },
            KindView::Variant(name, has) => {
                let c = column_of(p);
                let vs = c->Union_0;
                if has {
                    law_pattern_fits_its_column(fields[0]);
                }
                assert(vs[0].name == name);
            },
        }
    }
}

} // verus!
