use std::collections::HashMap;

use ka::arena::{Arena, Id};
use ka::diagnostic::{FileId, Span};
use ka::ir::{
    Arm, BinOp, BinaryExpr, BindPat, Expr, ExprField, Extern, Global, Intrinsic, IntrinsicExpr,
    LambdaExpr, LetExpr, MatchExpr, Pat, Program, RecordExpr, Scope, ScopeKind, TupleExpr,
    TuplePat, Ty, UnOp, UnaryExpr, Value, ValueExpr, Var, VarExpr, VarKind, VariantExpr,
    VariantPat, WildPat, WithExpr,
};
use ka::lua::{codegen, decimal_text, lua_escape};

fn span() -> Span {
    Span { file: FileId { index: 0 }, start: 0, end: 0 }
}

fn program() -> Program {
    Program {
        externs: Arena::new(),
        globals: Arena::new(),
        scopes: Arena::new(),
        vars: Arena::new(),
        aliases: Arena::new(),
        bounds: Arena::new(),
        subst: HashMap::new(),
    }
}

fn local(p: &mut Program, name: &'static str) -> Id<Var> {
    p.vars.add(Var { kind: VarKind::Local, name, ty: Ty::unit(), span: span() })
}

fn bind(id: Id<Var>) -> Pat {
    Pat::Bind(BindPat { var: id, ty: Ty::unit(), span: span() })
}

fn wild() -> Pat {
    Pat::Wild(WildPat { ty: Ty::unit(), span: span() })
}

fn var_expr(id: Id<Var>) -> Expr {
    Expr::Var(VarExpr { var: id, ty: Ty::unit() })
}

fn num(digits: &'static str) -> Expr {
    Expr::Value(ValueExpr { value: Value::Num(digits), ty: Ty::unit() })
}

fn variant(name: &'static str, payload: Option<Expr>) -> Expr {
    Expr::Variant(VariantExpr { name, payload: payload.map(Box::new), ty: Ty::unit() })
}

fn scope(p: &mut Program) -> Id<Scope> {
    p.scopes.add(Scope::new(ScopeKind::Lambda, None))
}

/// A program with one global that binds `name` to `expr`; gives the program
/// and the global's variable.
fn one_global(p: &mut Program, name: &'static str, expr: Expr) -> Id<Var> {
    let id = p.globals.reserve();
    let v = p.vars.add(Var { kind: VarKind::Global(id), name, ty: Ty::unit(), span: span() });
    p.globals.insert(id, Global { pat: bind(v), expr });
    v
}

#[test]
fn decimal_has_no_leading_zeros() {
    assert_eq!(decimal_text(0), "0");
    assert_eq!(decimal_text(7), "7");
    assert_eq!(decimal_text(1204), "1204");
}

#[test]
fn escape_doubles_every_backslash_last() {
    assert_eq!(lua_escape("plain"), "plain");
    assert_eq!(lua_escape("a\"b\n"), "a\\\\\"b\\\\n");
    assert_eq!(lua_escape("\\"), "\\\\");
}

#[test]
fn a_global_is_assigned_then_main_called() {
    let mut p = program();
    let main = one_global(&mut p, "main", num("1"));
    assert_eq!(
        codegen(&p, main, "-- prelude\n").as_deref(),
        Some("-- prelude\nglobal[0] = 1 global[0]()")
    );
}

#[test]
fn a_lambda_holds_the_statements_of_its_match() {
    let mut p = program();
    let y = local(&mut p, "y");
    let s = scope(&mut p);
    let body = Expr::Match(MatchExpr {
        input: Box::new(var_expr(y)),
        arms: vec![
            Arm {
                pat: Pat::Variant(VariantPat {
                    name: "true",
                    payload: None,
                    ty: Ty::unit(),
                    span: span(),
                }),
                expr: num("1"),
            },
            Arm { pat: wild(), expr: num("2") },
        ],
        ty: Ty::unit(),
    });
    let f = Expr::Lambda(LambdaExpr {
        scope: s,
        input: bind(y),
        output: Box::new(body),
        ty: Ty::unit(),
    });
    let main = one_global(&mut p, "main", f);
    assert_eq!(
        codegen(&p, main, "").as_deref(),
        Some(
            "global[0] = function(local0) local local1 = local0 local local2 \
             if local1 then local2 = 1 else local2 = 2 end return local2 end global[0]()"
        )
    );
}

#[test]
fn a_single_arm_match_opens_its_if_without_closing_it() {
    let mut p = program();
    let y = local(&mut p, "y");
    let s = scope(&mut p);
    let body = Expr::Match(MatchExpr {
        input: Box::new(var_expr(y)),
        arms: vec![Arm { pat: wild(), expr: num("3") }],
        ty: Ty::unit(),
    });
    let f = Expr::Lambda(LambdaExpr {
        scope: s,
        input: bind(y),
        output: Box::new(body),
        ty: Ty::unit(),
    });
    let main = one_global(&mut p, "main", f);
    assert_eq!(
        codegen(&p, main, "").as_deref(),
        Some(
            "global[0] = function(local0) local local1 = local0 local local2 \
             if true then local2 = 3 return local2 end global[0]()"
        )
    );
}

#[test]
fn values_variants_records_and_operators() {
    let mut p = program();
    let e = Expr::Tuple(TupleExpr {
        fields: vec![
            variant("true", None),
            variant("none", None),
            variant("some", Some(num("1"))),
            Expr::Binary(BinaryExpr {
                op: BinOp::Eq,
                lhs: Box::new(num("1")),
                rhs: Box::new(num("2")),
                ty: Ty::unit(),
            }),
            Expr::Binary(BinaryExpr {
                op: BinOp::Le,
                lhs: Box::new(num("1")),
                rhs: Box::new(num("2")),
                ty: Ty::unit(),
            }),
            Expr::Record(RecordExpr {
                fields: vec![ExprField { name: "a", expr: num("1") }],
                ty: Ty::unit(),
            }),
            Expr::Value(ValueExpr { value: Value::Str("hi".to_string()), ty: Ty::unit() }),
        ],
        ty: Ty::unit(),
    });
    let main = one_global(&mut p, "main", e);
    assert_eq!(
        codegen(&p, main, "").as_deref(),
        Some(
            "global[0] = { true, { ['variant'] = \"none\" }, \
             { ['variant'] = \"some\", ['payload'] = 1 }, eq(1, 2), (1 <= 2), { a = 1 }, \"hi\" } \
             global[0]()"
        )
    );
}

#[test]
fn with_copies_then_sets_each_field() {
    let mut p = program();
    let y = local(&mut p, "y");
    let s = scope(&mut p);
    let body = Expr::With(WithExpr {
        input: Box::new(var_expr(y)),
        fields: vec![ExprField { name: "a", expr: num("1") }],
        ty: Ty::unit(),
    });
    let f = Expr::Lambda(LambdaExpr {
        scope: s,
        input: bind(y),
        output: Box::new(body),
        ty: Ty::unit(),
    });
    let main = one_global(&mut p, "main", f);
    assert_eq!(
        codegen(&p, main, "").as_deref(),
        Some(
            "global[0] = function(local0) local local1 = copy(local0) local1.a = 1 \
             return local1 end global[0]()"
        )
    );
}

#[test]
fn intrinsics_and_externs() {
    let mut p = program();
    let ext = p.externs.add(Extern { id: "print", name: "print", ty: Ty::unit() });
    let pv = p.vars.add(Var { kind: VarKind::Extern(ext), name: "print", ty: Ty::unit(), span: span() });
    let e = Expr::Tuple(TupleExpr {
        fields: vec![
            var_expr(pv),
            Expr::Intrinsic(IntrinsicExpr {
                intrinsic: Intrinsic::StrFind,
                inputs: vec![num("1"), num("2")],
                ty: Ty::unit(),
            }),
            Expr::Intrinsic(IntrinsicExpr {
                intrinsic: Intrinsic::FormatNat,
                inputs: vec![num("5")],
                ty: Ty::unit(),
            }),
        ],
        ty: Ty::unit(),
    });
    let main = one_global(&mut p, "main", e);
    assert_eq!(
        codegen(&p, main, "").as_deref(),
        Some("global[0] = { extern['print'], strfind(1, 2), tostring(5) } global[0]()")
    );
}

#[test]
fn tuple_patterns_read_fields_from_one() {
    let mut p = program();
    let id = p.globals.reserve();
    let a = p.vars.add(Var { kind: VarKind::Global(id), name: "a", ty: Ty::unit(), span: span() });
    let b = p.vars.add(Var { kind: VarKind::Global(id), name: "b", ty: Ty::unit(), span: span() });
    let pat = Pat::Tuple(TuplePat { fields: vec![bind(a), bind(b)], ty: Ty::unit(), span: span() });
    let expr = Expr::Tuple(TupleExpr { fields: vec![num("1"), num("2")], ty: Ty::unit() });
    p.globals.insert(id, Global { pat, expr });
    assert_eq!(
        codegen(&p, b, "").as_deref(),
        Some("global[0] = { 1, 2 } global[0][2]()")
    );
}

#[test]
fn a_let_at_the_top_of_a_global_reads_its_local() {
    let mut p = program();
    let y = local(&mut p, "y");
    let e = Expr::Let(LetExpr {
        input: Box::new(num("1")),
        pat: bind(y),
        output: Box::new(var_expr(y)),
    });
    let main = one_global(&mut p, "main", e);
    assert_eq!(codegen(&p, main, "").as_deref(), Some("global[0] = local0 global[0]()"));
}

#[test]
fn code_generation_stops_on_what_has_no_code() {
    let mut p = program();
    let main = one_global(&mut p, "main", Expr::Error(Ty::unit()));
    assert_eq!(codegen(&p, main, ""), None);

    let mut p = program();
    let e = Expr::Unary(UnaryExpr { op: UnOp::Not, input: Box::new(num("1")), ty: Ty::unit() });
    let main = one_global(&mut p, "main", e);
    assert_eq!(codegen(&p, main, ""), None);

    let mut p = program();
    let e = Expr::Intrinsic(IntrinsicExpr {
        intrinsic: Intrinsic::NatXor,
        inputs: vec![num("1")],
        ty: Ty::unit(),
    });
    let main = one_global(&mut p, "main", e);
    assert_eq!(codegen(&p, main, ""), None);

    let mut p = program();
    let unbound = local(&mut p, "z");
    one_global(&mut p, "main", num("1"));
    assert_eq!(codegen(&p, unbound, ""), None);
}

#[test]
fn nested_lambdas_get_locals_of_their_own() {
    let mut p = program();
    let x = local(&mut p, "x");
    let y = local(&mut p, "y");
    let s1 = scope(&mut p);
    let s2 = scope(&mut p);
    let inner = Expr::Lambda(LambdaExpr {
        scope: s2,
        input: bind(y),
        output: Box::new(var_expr(y)),
        ty: Ty::unit(),
    });
    let outer = Expr::Lambda(LambdaExpr {
        scope: s1,
        input: bind(x),
        output: Box::new(inner),
        ty: Ty::unit(),
    });
    let main = one_global(&mut p, "main", outer);
    assert_eq!(
        codegen(&p, main, "").as_deref(),
        Some(
            "global[0] = function(local0)  return function(local1)  return local1 end end \
             global[0]()"
        )
    );
}
