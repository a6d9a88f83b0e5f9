use std::collections::HashMap;

use ka::arena::{Arena, Id};
use ka::diagnostic::{FileId, Span};
use ka::ir::writer::{expr_text, global_text, pat_text, program_text};
use ka::ir::{
    Arm, BindPat, CallExpr, Expr, Global, LambdaExpr, LetExpr, MatchExpr, Pat, Program, Scope,
    ScopeKind, TupleExpr, TuplePat, Ty, Value, ValueExpr, Var, VarExpr, VarKind, VariantExpr,
    VariantPat, WildPat,
};

fn span() -> Span {
    Span { file: FileId { index: 0 }, start: 0, end: 0 }
}

fn program() -> Program {
    Program {
        externs: Arena::new(),
        globals: Arena::new(),
        scopes: Arena::new(),
        vars: Arena::new(),
        aliases: Arena::new(),
        bounds: Arena::new(),
        subst: HashMap::new(),
    }
}

fn var(p: &mut Program, name: &'static str) -> Id<Var> {
    p.vars.add(Var { kind: VarKind::Local, name, ty: Ty::unit(), span: span() })
}

fn bind(id: Id<Var>) -> Pat {
    Pat::Bind(BindPat { var: id, ty: Ty::unit(), span: span() })
}

fn wild() -> Pat {
    Pat::Wild(WildPat { ty: Ty::unit(), span: span() })
}

fn var_expr(id: Id<Var>) -> Expr {
    Expr::Var(VarExpr { var: id, ty: Ty::unit() })
}

fn value(v: Value) -> Expr {
    Expr::Value(ValueExpr { value: v, ty: Ty::unit() })
}

#[test]
fn let_writes_its_body_a_level_deeper() {
    let mut p = program();
    let x = var(&mut p, "x");
    let e = Expr::Let(LetExpr {
        input: Box::new(value(Value::Num("1"))),
        pat: wild(),
        output: Box::new(Expr::Tuple(TupleExpr {
            fields: vec![var_expr(x), value(Value::Str("a\nb".to_string()))],
            ty: Ty::unit(),
        })),
    });
    let g = Global { pat: bind(x), expr: e };
    assert_eq!(global_text(&p, &g), "global x =\n  let _ = 1 in\n    (x, \"a\\nb\")\n\n");
}

#[test]
fn match_writes_each_arm_on_its_lines() {
    let mut p = program();
    let x = var(&mut p, "x");
    let y = var(&mut p, "y");
    let e = Expr::Match(MatchExpr {
        input: Box::new(var_expr(x)),
        arms: vec![
            Arm {
                pat: Pat::Variant(VariantPat {
                    name: "some",
                    payload: Some(Box::new(bind(y))),
                    ty: Ty::unit(),
                    span: span(),
                }),
                expr: var_expr(y),
            },
            Arm {
                pat: wild(),
                expr: Expr::Variant(VariantExpr { name: "none", payload: None, ty: Ty::unit() }),
            },
        ],
        ty: Ty::unit(),
    });
    assert_eq!(expr_text(&p, 0, &e), "match x\n  :some y ->\n    y\n  _ ->\n    :none");
}

#[test]
fn lambda_lists_its_captures() {
    let mut p = program();
    let f = var(&mut p, "f");
    let y = var(&mut p, "y");
    let mut scope = Scope::new(ScopeKind::Lambda, None);
    scope.captures.push(f);
    let scope = p.scopes.add(scope);
    let e = Expr::Lambda(LambdaExpr {
        scope,
        input: bind(y),
        output: Box::new(Expr::Call(CallExpr {
            lambda: Box::new(var_expr(f)),
            input: Box::new(var_expr(y)),
            ty: Ty::unit(),
        })),
        ty: Ty::unit(),
    });
    assert_eq!(expr_text(&p, 0, &e), "\\y. [f]\n  (f y)");
}

#[test]
fn tuple_patterns_have_no_parentheses() {
    let mut p = program();
    let a = var(&mut p, "a");
    let pat = Pat::Tuple(TuplePat { fields: vec![bind(a), wild()], ty: Ty::unit(), span: span() });
    assert_eq!(pat_text(&p, &pat), "a, _");
}

#[test]
fn program_writes_globals_in_order() {
    let mut p = program();
    let a = var(&mut p, "a");
    let b = var(&mut p, "b");
    p.globals.add(Global { pat: bind(a), expr: value(Value::Num("1")) });
    p.globals.add(Global { pat: bind(b), expr: var_expr(a) });
    assert_eq!(program_text(&p), "global a =\n  1\n\nglobal b =\n  a\n\n");
}
