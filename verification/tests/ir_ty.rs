use ka::arena::Arena;
use ka::ir::{Bound, Numeric, RecordTy, Ty, TyField, UnionTy, Variant, Visibility, Visible};
use ka::mir;
use ka::diagnostic::{FileId, Span};
use ka::ir::lower::{BoundsInfo, Generic, Generics};
use ka::ir::{Expr, Pat, StrPat, WildPat};

#[test]
fn numeric_ordering() {
    assert!(Numeric::Int > Numeric::Nat);
    assert!(Numeric::Num > Numeric::Nat);
    assert!(Numeric::Num > Numeric::Int);
}

#[test]
fn numeric_wider_than_follows_the_order() {
    assert!(Numeric::Int.wider_than(&Numeric::Nat));
    assert!(Numeric::Num.wider_than(&Numeric::Int));
    assert!(!Numeric::Nat.wider_than(&Numeric::Nat));
    assert!(!Numeric::Nat.wider_than(&Numeric::Num));
}

#[test]
fn numeric_names() {
    assert_eq!(Numeric::Nat.as_str(), "nat");
    assert_eq!(Numeric::Int.as_str(), "int");
    assert_eq!(Numeric::Num.as_str(), "num");
}

#[test]
fn option_type_has_some_then_none() {
    let ty = Ty::option(Ty::Str);
    match ty {
        Ty::Union(union) => {
            assert_eq!(union.variants.len(), 2);
            assert_eq!(union.variants[0].name, "some");
            assert!(matches!(union.variants[0].payload, Some(Ty::Str)));
            assert_eq!(union.variants[1].name, "none");
            assert!(union.variants[1].payload.is_none());
        }
        _ => panic!("not a union"),
    }
}

#[test]
fn bool_type_has_true_then_false() {
    match Ty::bool() {
        Ty::Union(union) => {
            let names: Vec<&str> = union.variants.iter().map(|v| v.name).collect();
            assert_eq!(names, vec!["true", "false"]);
        }
        _ => panic!("not a union"),
    }
}

#[test]
fn lambda_monad_and_unit() {
    assert!(matches!(Ty::lambda(Ty::Str, Ty::unit()), Ty::Lambda(_)));
    assert!(matches!(Ty::monad(Ty::Str), Ty::Monad(_)));
    match Ty::unit() {
        Ty::Record(r) => assert!(r.fields.is_empty()),
        _ => panic!("not a record"),
    }
}

#[test]
fn record_get_finds_the_first_field() {
    let record = RecordTy {
        fields: vec![
            TyField { name: "a", ty: Ty::Str },
            TyField { name: "b", ty: Ty::Numeric(Numeric::Int) },
            TyField { name: "a", ty: Ty::Numeric(Numeric::Nat) },
        ],
    };
    assert!(matches!(record.get("a"), Some(Ty::Str)));
    assert!(matches!(record.get("b"), Some(Ty::Numeric(Numeric::Int))));
    assert!(record.get("c").is_none());
}

#[test]
fn union_get_tells_missing_from_payloadless() {
    let union = UnionTy {
        variants: vec![
            Variant { name: "some", payload: Some(Ty::Str) },
            Variant { name: "none", payload: None },
        ],
    };
    assert!(matches!(union.get("some"), Some(Some(Ty::Str))));
    assert!(matches!(union.get("none"), Some(None)));
    assert!(union.get("other").is_none());
}

#[test]
fn visible_constructors() {
    let mut arena: Arena<Bound> = Arena::new();
    let id = arena.add(Bound::Unbounded);
    let g = Visible::global(id);
    let l = Visible::local(id);
    assert!(g.is_global());
    assert!(!l.is_global());
    assert_eq!(l.vis, Visibility::Local);
    assert!(Visible::new(id, Visibility::Global).is_global());
}

#[test]
fn mir_unit_and_action() {
    match mir::Ty::unit() {
        mir::Ty::Record(fields) => assert!(fields.is_empty()),
        _ => panic!("not a record"),
    }
    assert!(matches!(mir::Ty::action(mir::Ty::Nat), mir::Ty::Action(_)));
}

#[test]
fn bound_names_count_in_letters() {
    assert_eq!(BoundsInfo::generate_name(0), "a");
    assert_eq!(BoundsInfo::generate_name(1), "b");
    assert_eq!(BoundsInfo::generate_name(25), "z");
    assert_eq!(BoundsInfo::generate_name(26), "aa");
    assert_eq!(BoundsInfo::generate_name(27), "ab");
    assert_eq!(BoundsInfo::generate_name(51), "az");
    assert_eq!(BoundsInfo::generate_name(52), "ba");
    assert_eq!(BoundsInfo::generate_name(701), "zz");
    assert_eq!(BoundsInfo::generate_name(702), "aaa");
    let info = BoundsInfo::new(3);
    assert!(!info.recursive);
    assert_eq!(info.occurences, 0);
    assert_eq!(info.name, "d");
}

#[test]
fn generics_start_empty() {
    let generics = Generics::dynamic();
    assert!(generics.as_slice().is_empty());
    let fixed = [Generic { name: "a", ty: Ty::Str }];
    let generics = Generics::Static(&fixed);
    assert_eq!(generics.as_slice().len(), 1);
    assert_eq!(generics.as_slice()[0].name, "a");
}

#[test]
fn pattern_and_expression_types() {
    let span = Span { file: FileId { index: 0 }, start: 0, end: 0 };
    assert!(matches!(Pat::Str(StrPat { string: "s", span }).ty(), Ty::Str));
    let wild = Pat::Wild(WildPat { ty: Ty::lambda(Ty::Str, Ty::unit()), span });
    match wild.ty() {
        Ty::Lambda(l) => {
            assert!(matches!(*l.input, Ty::Str));
            assert!(matches!(*l.output, Ty::Record(ref r) if r.fields.is_empty()));
        }
        other => panic!("expected a lambda, got {other:?}"),
    }
    assert!(matches!(Expr::unit().ty(), Ty::Record(r) if r.fields.is_empty()));
    assert!(matches!(Expr::Error(Ty::option(Ty::Str)).ty(), Ty::Union(u) if u.variants.len() == 2));
}

#[test]
fn visible_names_read_as_their_ids() {
    let mut arena: Arena<char> = Arena::new();
    let id = arena.add('x');
    let v = Visible::local(id);
    assert_eq!(v.index(), id.index());
    assert!(!v.is_global());
}
