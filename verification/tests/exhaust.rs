use ka::diagnostic::{FileId, Span};
use ka::ir::exhaust::{
    Column, ColumnUnion, ColumnVariant, Columns, Constructor, ConstructorKind, Matrix, Pattern, Row,
};
use ka::ir::checking::{check_match, unhandled_note};
use ka::ir::{Pat, StrPat, TuplePat, Ty, VariantPat, WildPat};

fn span() -> Span {
    Span { file: FileId { index: 0 }, start: 0, end: 0 }
}

fn variant(name: &'static str) -> Pattern {
    Pattern::Cons(Constructor { kind: ConstructorKind::Variant(name, false), fields: Vec::new() })
}

fn variant_of(name: &'static str, payload: Pattern) -> Pattern {
    Pattern::Cons(Constructor { kind: ConstructorKind::Variant(name, true), fields: vec![payload] })
}

fn tuple(fields: Vec<Pattern>) -> Pattern {
    Pattern::Cons(Constructor { kind: ConstructorKind::Tuple(fields.len()), fields })
}

fn union(names: &[&'static str]) -> Column {
    Column::Union(ColumnUnion {
        variants: names.iter().map(|name| ColumnVariant { name, payload: None }).collect(),
        is_open: false,
    })
}

fn matrix(rows: Vec<Pattern>) -> Matrix {
    let mut matrix = Matrix::new();
    for pattern in rows {
        matrix.push(Row::new(pattern));
    }
    matrix
}

fn formatted(patterns: &[Pattern]) -> Vec<String> {
    patterns.iter().map(Pattern::format).collect()
}

#[test]
fn pattern_from_ir() {
    let pat = Pat::Tuple(TuplePat {
        fields: vec![
            Pat::Str(StrPat { string: "a", span: span() }),
            Pat::Variant(VariantPat {
                name: "some",
                payload: Some(Box::new(Pat::Wild(WildPat { ty: Ty::unit(), span: span() }))),
                ty: Ty::unit(),
                span: span(),
            }),
        ],
        ty: Ty::unit(),
        span: span(),
    });
    let pattern = Pattern::new(&pat);
    assert!(!pattern.is_wild());
    assert_eq!(pattern.format(), "\"a\", :some _");
    assert!(Pattern::new(&Pat::Wild(WildPat { ty: Ty::unit(), span: span() })).is_wild());
}

#[test]
fn format_nests_with_parentheses() {
    assert_eq!(Pattern::Wild.format(), "_");
    assert_eq!(variant("none").format(), ":none");
    assert_eq!(variant_of("some", variant_of("some", Pattern::Wild)).format(), ":some :some _");
    assert_eq!(tuple(vec![tuple(vec![Pattern::Wild, Pattern::Wild]), variant("x")]).format(), "(_, _), :x");
    assert_eq!(variant_of("pair", tuple(vec![Pattern::Wild, Pattern::Wild])).format(), ":pair (_, _)");
}

#[test]
fn column_from_pattern_and_merge() {
    let a = Column::from_pat(&variant("a"));
    let b = Column::from_pat(&variant("b"));
    let merged = a.merge(&b).unwrap();
    match &merged {
        Column::Union(union) => {
            let names: Vec<&str> = union.variants.iter().map(|v| v.name).collect();
            assert_eq!(names, vec!["a", "b"]);
            assert!(!union.is_open);
        }
        other => panic!("expected a union, got {other:?}"),
    }
    assert_eq!(merged.constructors().unwrap().len(), 2);
    assert!(Column::Wild.merge(&Column::Str).is_ok());
    assert!(Column::Str.merge(&union(&["a"])).is_err());
    let pair = Column::from_pat(&tuple(vec![Pattern::Wild, Pattern::Wild]));
    let triple = Column::from_pat(&tuple(vec![Pattern::Wild, Pattern::Wild, Pattern::Wild]));
    assert!(pair.merge(&triple).is_err());
    assert!(Column::Wild.constructors().is_none());
}

#[test]
fn merge_conflicting_payloads_fails() {
    let with = Column::from_pat(&variant_of("a", Pattern::Wild));
    let without = Column::from_pat(&variant("a"));
    assert!(with.merge(&without).is_err());
}

#[test]
fn rows_specialize_and_tail() {
    let row = Row::new(tuple(vec![variant("a"), Pattern::Wild]));
    let specialized = row.specialize(ConstructorKind::Tuple(2)).unwrap();
    assert!(specialized.first().unwrap().format() == ":a");
    assert!(row.specialize(ConstructorKind::Tuple(3)).is_none());
    let tail = specialized.tail().unwrap();
    assert!(tail.first().unwrap().is_wild());
    let empty = tail.tail().unwrap();
    assert!(empty.first().is_none());
    assert!(empty.tail().is_none());
}

#[test]
fn matrix_default_keeps_wild_rows() {
    let m = matrix(vec![variant("a"), Pattern::Wild, variant("b")]);
    assert!(m.is_wild());
    assert!(!matrix(vec![variant("a")]).is_wild());
    let columns = Columns::new(union(&["a", "b"]));
    assert!(columns.first().is_some());
    let after = columns.specialize(ConstructorKind::Variant("a", false));
    assert!(after.first().is_none());
    let specialized = m.specialize(ConstructorKind::Variant("a", false));
    assert!(!specialized.is_wild());
    assert!(!m.tail().is_wild());
}

#[test]
fn missing_variant_is_reported() {
    let column = union(&["true", "false"]);
    let m = matrix(vec![variant("true")]);
    let missing = m.unexhausted_pats(&column);
    assert_eq!(formatted(&missing), vec![":false"]);
    assert!(m.is_useful(&column, &Row::new(Pattern::Wild)));
    assert!(m.is_useful(&column, &Row::new(variant("false"))));
    assert!(!m.is_useful(&column, &Row::new(variant("true"))));
}

#[test]
fn exhaustive_match_reports_nothing() {
    let column = union(&["true", "false"]);
    let m = matrix(vec![variant("true"), variant("false")]);
    assert!(m.unexhausted_pats(&column).is_empty());
    assert!(!m.is_useful(&column, &Row::new(Pattern::Wild)));
}

#[test]
fn empty_match_misses_everything() {
    let column = union(&["a", "b", "c"]);
    let m = Matrix::new();
    assert_eq!(formatted(&m.unexhausted_pats(&column)), vec![":a", ":b", ":c"]);
    assert_eq!(formatted(&m.unexhausted_pats(&Column::Wild)), vec!["_"]);
    assert_eq!(formatted(&m.unexhausted_pats(&Column::Str)), vec!["_"]);
}

#[test]
fn wildcard_covers_everything() {
    let column = union(&["a", "b"]);
    let m = matrix(vec![Pattern::Wild]);
    assert!(m.unexhausted_pats(&column).is_empty());
    assert!(!m.is_useful(&column, &Row::new(variant("a"))));
    assert!(!m.is_useful(&column, &Row::new(Pattern::Wild)));
}

#[test]
fn tuples_report_the_missing_combination() {
    let column = Column::Tuple(vec![union(&["a", "b"]), union(&["c", "d"])]);
    let m = matrix(vec![
        tuple(vec![variant("a"), Pattern::Wild]),
        tuple(vec![variant("b"), variant("c")]),
    ]);
    assert_eq!(formatted(&m.unexhausted_pats(&column)), vec![":b, :d"]);
    assert!(m.is_useful(&column, &Row::new(tuple(vec![Pattern::Wild, variant("d")]))));
    assert!(!m.is_useful(&column, &Row::new(tuple(vec![variant("a"), variant("d")]))));
}

#[test]
fn payloads_are_checked_inside() {
    let column = Column::Union(ColumnUnion {
        variants: vec![
            ColumnVariant { name: "some", payload: Some(union(&["x", "y"])) },
            ColumnVariant { name: "none", payload: None },
        ],
        is_open: false,
    });
    let m = matrix(vec![variant_of("some", variant("x")), variant("none")]);
    assert_eq!(formatted(&m.unexhausted_pats(&column)), vec![":some :y"]);
}

#[test]
fn open_union_needs_a_wildcard() {
    let column = Column::Union(ColumnUnion {
        variants: vec![ColumnVariant { name: "a", payload: None }],
        is_open: true,
    });
    let m = matrix(vec![variant("a")]);
    assert_eq!(formatted(&m.unexhausted_pats(&column)), vec!["_"]);
    assert!(m.is_useful(&column, &Row::new(Pattern::Wild)));
}

#[test]
fn repeated_arm_is_not_useful() {
    let column = Column::Tuple(vec![union(&["a", "b"]), Column::Str]);
    let arm = || tuple(vec![variant("b"), Pattern::Wild]);
    let m = matrix(vec![tuple(vec![variant("a"), Pattern::Wild]), arm()]);
    assert!(!m.is_useful(&column, &Row::new(arm())));
}

#[test]
fn string_patterns_never_exhaust() {
    let str_a = Pattern::Cons(Constructor { kind: ConstructorKind::Str("a"), fields: Vec::new() });
    let m = matrix(vec![str_a]);
    assert_eq!(formatted(&m.unexhausted_pats(&Column::Str)), vec!["_"]);
    let str_a = Pattern::Cons(Constructor { kind: ConstructorKind::Str("a"), fields: Vec::new() });
    let str_b = Pattern::Cons(Constructor { kind: ConstructorKind::Str("b"), fields: Vec::new() });
    assert!(!m.is_useful(&Column::Str, &Row::new(str_a)));
    assert!(m.is_useful(&Column::Str, &Row::new(str_b)));
}

fn union_of(column: &Column) -> (Vec<&'static str>, bool) {
    match column {
        Column::Union(union) => (union.variants.iter().map(|v| v.name).collect(), union.is_open),
        other => panic!("expected a union, got {other:?}"),
    }
}

#[test]
fn opening_keeps_a_closed_union_closed() {
    let m = matrix(vec![variant("a"), variant("b")]);
    let closed = Column::from_pat(&variant("a")).merge(&Column::from_pat(&variant("b"))).unwrap();
    let opened = m.open_column(closed);
    assert_eq!(union_of(&opened), (vec!["a", "b"], false));
}

#[test]
fn opening_marks_a_union_open_under_a_wildcard() {
    let m = matrix(vec![variant("a"), Pattern::Wild]);
    let opened = m.open_column(union(&["a"]));
    assert_eq!(union_of(&opened), (vec!["a"], true));
    // An open union gives way to a wildcard arm: the match is exhaustive.
    assert!(m.unexhausted_pats(&opened).is_empty());
    // Without the wildcard, the open union is not exhausted.
    let m = matrix(vec![variant("a")]);
    let opened = m.open_column(Column::Union(ColumnUnion {
        variants: vec![ColumnVariant { name: "a", payload: None }],
        is_open: true,
    }));
    assert!(matches!(opened, Column::Wild));
}

#[test]
fn opening_goes_inside_tuples_and_payloads() {
    let m = matrix(vec![
        tuple(vec![variant("a"), Pattern::Wild]),
        tuple(vec![variant("b"), variant("c")]),
    ]);
    let column = Column::Tuple(vec![union(&["a", "b"]), union(&["c"])]);
    match m.open_column(column) {
        Column::Tuple(fields) => {
            assert_eq!(fields.len(), 2);
            assert_eq!(union_of(&fields[0]), (vec!["a", "b"], false));
            // Open under the first row's wildcard, closed under the second
            // row: merged, it stays open only where both are.
            assert_eq!(union_of(&fields[1]), (vec!["c"], false));
        }
        other => panic!("expected a tuple, got {other:?}"),
    }
    let m = matrix(vec![variant_of("some", variant("x")), variant("none")]);
    let column = Column::Union(ColumnUnion {
        variants: vec![
            ColumnVariant { name: "some", payload: Some(union(&["x"])) },
            ColumnVariant { name: "none", payload: None },
        ],
        is_open: false,
    });
    match m.open_column(column) {
        Column::Union(union) => {
            assert_eq!(union.variants.len(), 2);
            assert!(matches!(&union.variants[0].payload, Some(Column::Union(u)) if !u.is_open));
            assert!(union.variants[1].payload.is_none());
        }
        other => panic!("expected a union, got {other:?}"),
    }
    assert!(matches!(m.open_column(Column::Str), Column::Wild));
}

fn string(s: &'static str) -> Pattern {
    Pattern::Cons(Constructor { kind: ConstructorKind::Str(s), fields: Vec::new() })
}

#[test]
fn match_over_all_variants_is_clean() {
    let check = check_match(&vec![variant("a"), variant("b")]);
    assert!(check.invalid.is_empty());
    assert!(check.unreachable.is_empty());
    assert!(check.unhandled.is_empty());
    assert_eq!(union_of(&check.column), (vec!["a", "b"], false));
}

#[test]
fn match_on_strings_needs_a_catch_all() {
    let check = check_match(&vec![string("x"), string("y")]);
    assert!(check.invalid.is_empty());
    assert!(check.unreachable.is_empty());
    assert_eq!(formatted(&check.unhandled), vec!["_"]);
    // A string column cannot be listed case by case: it opens to a wildcard.
    assert!(matches!(check.column, Column::Wild));
    assert_eq!(
        unhandled_note(&check.unhandled),
        "ensure that all possible cases are handled\n\n        _\n\n"
    );
}

#[test]
fn match_arm_after_catch_all_is_unreachable() {
    let check = check_match(&vec![variant("a"), Pattern::Wild, variant("b"), variant("a")]);
    assert!(check.invalid.is_empty());
    assert_eq!(check.unreachable, vec![2, 3]);
    assert!(check.unhandled.is_empty());
    assert_eq!(union_of(&check.column), (vec!["a", "b"], true));
}

#[test]
fn match_repeated_arm_is_unreachable() {
    let check = check_match(&vec![variant("a"), variant("a"), variant("b")]);
    assert_eq!(check.unreachable, vec![1]);
    assert!(check.unhandled.is_empty());
}

#[test]
fn match_arm_of_another_shape_is_invalid() {
    let check = check_match(&vec![variant("a"), string("s"), tuple(vec![Pattern::Wild]), variant("b")]);
    assert_eq!(check.invalid, vec![1, 2]);
    assert!(check.unreachable.is_empty());
    assert!(check.unhandled.is_empty());
    assert_eq!(union_of(&check.column), (vec!["a", "b"], false));
}

#[test]
fn match_on_tuples_reports_missing_combinations() {
    let arms = vec![
        tuple(vec![variant("a"), variant("c")]),
        tuple(vec![variant("b"), Pattern::Wild]),
        tuple(vec![Pattern::Wild, variant("d")]),
    ];
    let check = check_match(&arms);
    assert!(check.invalid.is_empty());
    assert!(check.unreachable.is_empty());
    // The wildcard in the third arm leaves the first union open.
    assert_eq!(formatted(&check.unhandled), vec!["_, :c"]);
}

#[test]
fn match_with_no_arms_leaves_everything_unhandled() {
    let check = check_match(&Vec::new());
    assert!(matches!(check.column, Column::Wild));
    assert_eq!(formatted(&check.unhandled), vec!["_"]);
    assert_eq!(unhandled_note(&Vec::new()), "ensure that all possible cases are handled\n\n\n");
}

#[test]
fn note_lists_each_unhandled_pattern() {
    let note = unhandled_note(&vec![variant("a"), variant_of("b", Pattern::Wild)]);
    assert_eq!(note, "ensure that all possible cases are handled\n\n        :a\n        :b _\n\n");
}

#[test]
fn every_pattern_is_useful_against_no_arms() {
    let column = union(&["a", "b"]);
    let m = Matrix::new();
    assert!(m.is_useful(&column, &Row::new(variant("a"))));
    assert!(m.is_useful(&column, &Row::new(Pattern::Wild)));
    assert!(m.is_useful(&Column::Str, &Row::new(string("s"))));
}
