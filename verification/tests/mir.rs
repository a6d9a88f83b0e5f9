use std::rc::Rc;

use ka::mir::writer::{constant_string, expr_string};
use ka::mir::{Constant, Constructor, Entry, Expr, Global, Intrinsic, Lambda, Let, Local, Ty};

fn local(index: usize) -> Expr {
    Expr::Local(Local { index, ty: Ty::Nat })
}

#[test]
fn mir_unit_is_the_empty_tuple() {
    match Expr::unit() {
        Expr::Construct(Constructor::Tuple(fields)) => assert!(fields.is_empty()),
        other => panic!("expected the empty tuple, got {other:?}"),
    }
    match Ty::action(Ty::unit()) {
        Ty::Action(output) => assert!(matches!(&*output, Ty::Record(fields) if fields.is_empty())),
        other => panic!("expected an action, got {other:?}"),
    }
}

#[test]
fn constants_carry_their_kind() {
    assert_eq!(constant_string(&Constant::Nat(5)), "5t");
    assert_eq!(constant_string(&Constant::Int(-3)), "-3i");
    assert_eq!(constant_string(&Constant::Int(i64::MIN)), "-9223372036854775808i");
    assert_eq!(constant_string(&Constant::Real("15")), "15r");
    assert_eq!(constant_string(&Constant::Bool(false)), "false");
    assert_eq!(constant_string(&Constant::Str("a\tb\n".to_string())), "\"a\\tb\\n\"");
}

#[test]
fn constructors_and_places() {
    let e = Expr::Construct(Constructor::Tuple(Rc::new(vec![
        Expr::Construct(Constructor::Variant(1, Rc::new(Expr::Payload(Rc::new(local(0)))))),
        Expr::Field(Rc::new(Expr::Global(Global { index: 2, ty: Ty::Nat })), 3),
        Expr::Is(Rc::new(local(4)), 5),
        Expr::unit(),
    ])));
    assert_eq!(expr_string(0, &e), "{:1 (*local0), global2.3, local4 is :5, {}}");
}

#[test]
fn a_program_writes_its_globals_then_its_output() {
    let lambda = Expr::Lambda(Lambda {
        captures: vec![local(0)],
        input: Local { index: 2, ty: Ty::Nat },
        output: Rc::new(Expr::Construct(Constructor::Pure(Rc::new(Expr::unit())))),
    });
    let entry = Entry {
        globals: vec![
            Expr::Constant(Constant::Nat(5)),
            Expr::Let(Let {
                input: Rc::new(Expr::Constant(Constant::Int(-3))),
                local: Local { index: 0, ty: Ty::Int },
                output: Rc::new(local(0)),
            }),
            lambda,
        ],
        output: Rc::new(Expr::If(
            Rc::new(Expr::Constant(Constant::Bool(true))),
            Rc::new(Expr::Call(
                Rc::new(Expr::Global(Global { index: 0, ty: Ty::Nat })),
                Rc::new(Expr::Constant(Constant::Str("a\nb".to_string()))),
            )),
            Rc::new(Expr::Intrinsic(
                Intrinsic::NatAdd,
                Rc::new(vec![local(1), Expr::Constant(Constant::Real("15"))]),
            )),
        )),
    };
    assert_eq!(
        ka::mir::writer::write(&entry),
        "global0 = 5t\n\n\
         global1 = let local0 = -3i in\n  local0\n\n\
         global2 = \\local2. [local0]\n  pure {}\n\n\
         if true then \n  (global0 \"a\\nb\")\nelse \n  (NatAdd local1 15r)"
    );
}
