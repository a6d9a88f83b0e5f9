//! Writing the intermediate representation as text: patterns, expressions
//! indented two spaces a level, and global definitions.
use vstd::prelude::*;

use crate::arena::{filled_positions, law_filled_ids_unique, slot, Id};
use crate::ir::exhaust::join;
use crate::ir::{Arm, Expr, Global, Pat, Program, Scope, Value, Var};
use crate::text::{chars_of, push_char, replace_all, replace_all_chars, string_of};

verus! {

/// Whether variable `id` exists.
pub open spec fn var_ok(vars: Seq<Option<Var>>, id: Id<Var>) -> bool {
    slot(vars, id.idx()) is Some
}

/// The name of variable `id`.
pub open spec fn written_var(vars: Seq<Option<Var>>, id: Id<Var>) -> Seq<char> {
    match slot(vars, id.idx()) {
        Some(v) => v.name@,
        None => Seq::empty(),
    }
}

/// The variables scope `id` captures.
pub open spec fn scope_captures(scopes: Seq<Option<Scope>>, id: Id<Scope>) -> Seq<Id<Var>> {
    match slot(scopes, id.idx()) {
        Some(s) => s.captures@,
        None => Seq::empty(),
    }
}

/// Whether scope `id` exists and every variable it captures does.
pub open spec fn captures_ok(vars: Seq<Option<Var>>, scopes: Seq<Option<Scope>>, id: Id<Scope>) -> bool {
    &&& slot(scopes, id.idx()) is Some
    &&& forall|k: int|
        0 <= k < scope_captures(scopes, id).len() ==> var_ok(
            vars,
            #[trigger] scope_captures(scopes, id)[k],
        )
}

/// Captured variables: their names in brackets, separated by commas.
pub open spec fn written_captures(vars: Seq<Option<Var>>, ids: Seq<Id<Var>>) -> Seq<char> {
    "["@ + join(ids.map_values(|id: Id<Var>| written_var(vars, id)), ", "@) + "]"@
}

/// A new line indented `indent` levels of two spaces.
pub open spec fn newline_at(indent: nat) -> Seq<char> {
    "\n"@ + Seq::new(2 * indent, |i: int| ' ')
}

/// A string's text with each new line written as a backslash and `n`.
pub open spec fn escaped(s: Seq<char>) -> Seq<char> {
    replace_all(s, seq!['\n'], seq!['\\', 'n'])
}

/// Whether every variable a pattern binds exists.
pub open spec fn pat_ok(vars: Seq<Option<Var>>, p: Pat) -> bool
    decreases p,
{
    match p {
        Pat::Bind(b) => var_ok(vars, b.var),
        Pat::Variant(v) => match v.payload {
            Some(b) => pat_ok(vars, *b),
            None => true,
        },
        Pat::Tuple(t) => forall|i: int| 0 <= i < t.fields@.len() ==> pat_ok(vars, #[trigger] t.fields@[i]),
        _ => true,
    }
}

/// How a pattern is written: a tuple's fields separated by commas, without
/// parentheses.
pub open spec fn written_pat(vars: Seq<Option<Var>>, p: Pat) -> Seq<char>
    decreases p, 0nat,
{
    match p {
        Pat::Wild(..) => "_"@,
        Pat::Bind(b) => written_var(vars, b.var),
        Pat::Str(s) => "\""@ + s.string@ + "\""@,
        Pat::Variant(v) => ":"@ + v.name@ + match v.payload {
            Some(b) => " "@ + written_pat(vars, *b),
            None => Seq::empty(),
        },
        Pat::Tuple(t) => join(written_pats(vars, t.fields@), ", "@),
        Pat::Error(..) => "{error}"@,
    }
}

pub open spec fn written_pats(vars: Seq<Option<Var>>, s: Seq<Pat>) -> Seq<Seq<char>>
    decreases s, 1nat,
{
    Seq::new(
        s.len(),
        |i: int|
            if 0 <= i < s.len() {
                written_pat(vars, s[i])
            } else {
                Seq::empty()
            },
    )
}

/// Whether an expression can be written at `indent`: it holds no `with`,
/// record, unary, binary, intrinsic, list or empty-list expression, every
/// variable and scope it names exists, and no line it starts is indented
/// past what `usize` counts.
pub open spec fn expr_ok(vars: Seq<Option<Var>>, scopes: Seq<Option<Scope>>, indent: nat, e: Expr) -> bool
    decreases e,
{
    match e {
        Expr::Value(..) | Expr::Error(..) => true,
        Expr::Var(x) => var_ok(vars, x.var),
        Expr::Let(x) => {
            &&& 2 * (indent + 1) <= usize::MAX
            &&& pat_ok(vars, x.pat)
            &&& expr_ok(vars, scopes, indent, *x.input)
            &&& expr_ok(vars, scopes, indent + 1, *x.output)
        },
        Expr::Bind(x) => {
            &&& 2 * (indent + 1) <= usize::MAX
            &&& pat_ok(vars, x.pat)
            &&& captures_ok(vars, scopes, x.scope)
            &&& expr_ok(vars, scopes, indent, *x.input)
            &&& expr_ok(vars, scopes, indent + 1, *x.output)
        },
        Expr::Pure(x) => expr_ok(vars, scopes, indent, *x.input),
        Expr::Call(x) => expr_ok(vars, scopes, indent, *x.lambda) && expr_ok(vars, scopes, indent, *x.input),
        Expr::Field(x) => expr_ok(vars, scopes, indent, *x.input),
        Expr::Lambda(x) => {
            &&& 2 * (indent + 1) <= usize::MAX
            &&& pat_ok(vars, x.input)
            &&& captures_ok(vars, scopes, x.scope)
            &&& expr_ok(vars, scopes, indent + 1, *x.output)
        },
        Expr::Variant(x) => match x.payload {
            Some(b) => expr_ok(vars, scopes, indent, *b),
            None => true,
        },
        Expr::Tuple(x) => forall|i: int|
            0 <= i < x.fields@.len() ==> expr_ok(vars, scopes, indent, #[trigger] x.fields@[i]),
        Expr::Match(x) => {
            &&& 2 * (indent + 2) <= usize::MAX
            &&& expr_ok(vars, scopes, indent, *x.input)
            &&& forall|i: int|
                0 <= i < x.arms@.len() ==> pat_ok(vars, (#[trigger] x.arms@[i]).pat) && expr_ok(
                    vars,
                    scopes,
                    indent + 2,
                    x.arms@[i].expr,
                )
        },
        _ => false,
    }
}

/// How an expression is written at `indent`: the body of a `let`, a `bind`
/// and a lambda on a new line one level deeper, each arm of a `match` on a
/// new line one level deeper and its expression on the next, two deeper.
pub open spec fn written_expr(
    vars: Seq<Option<Var>>,
    scopes: Seq<Option<Scope>>,
    indent: nat,
    e: Expr,
) -> Seq<char>
    decreases e, 0nat,
{
    match e {
        Expr::Value(x) => match x.value {
            Value::Num(digits) => digits@,
            Value::Str(s) => "\""@ + escaped(s@) + "\""@,
        },
        Expr::Var(x) => written_var(vars, x.var),
        Expr::Let(x) => "let "@ + written_pat(vars, x.pat) + " = "@ + written_expr(
            vars,
            scopes,
            indent,
            *x.input,
        ) + " in"@ + newline_at(indent + 1) + written_expr(vars, scopes, indent + 1, *x.output),
        Expr::Bind(x) => "bind "@ + written_pat(vars, x.pat) + " = "@ + written_expr(
            vars,
            scopes,
            indent,
            *x.input,
        ) + " in "@ + written_captures(vars, scope_captures(scopes, x.scope)) + newline_at(
            indent + 1,
        ) + written_expr(vars, scopes, indent + 1, *x.output),
        Expr::Pure(x) => "pure "@ + written_expr(vars, scopes, indent, *x.input),
        Expr::Call(x) => "("@ + written_expr(vars, scopes, indent, *x.lambda) + " "@ + written_expr(
            vars,
            scopes,
            indent,
            *x.input,
        ) + ")"@,
        Expr::Field(x) => written_expr(vars, scopes, indent, *x.input) + "."@ + x.name@,
        Expr::Lambda(x) => "\\"@ + written_pat(vars, x.input) + ". "@ + written_captures(
            vars,
            scope_captures(scopes, x.scope),
        ) + newline_at(indent + 1) + written_expr(vars, scopes, indent + 1, *x.output),
        Expr::Variant(x) => ":"@ + x.name@ + match x.payload {
            Some(b) => " "@ + written_expr(vars, scopes, indent, *b),
            None => Seq::empty(),
        },
        Expr::Tuple(x) => "("@ + join(written_exprs(vars, scopes, indent, x.fields@), ", "@) + ")"@,
        Expr::Match(x) => "match "@ + written_expr(vars, scopes, indent, *x.input) + join(
            written_arms(vars, scopes, indent, x.arms@),
            Seq::empty(),
        ),
        Expr::Error(..) => "{error}"@,
        _ => Seq::empty(),
    }
}

pub open spec fn written_exprs(
    vars: Seq<Option<Var>>,
    scopes: Seq<Option<Scope>>,
    indent: nat,
    s: Seq<Expr>,
) -> Seq<Seq<char>>
    decreases s, 1nat,
{
    Seq::new(
        s.len(),
        |i: int|
            if 0 <= i < s.len() {
                written_expr(vars, scopes, indent, s[i])
            } else {
                Seq::empty()
            },
    )
}

/// The arms of a `match` at `indent`, each on its own lines.
pub open spec fn written_arms(
    vars: Seq<Option<Var>>,
    scopes: Seq<Option<Scope>>,
    indent: nat,
    s: Seq<Arm>,
) -> Seq<Seq<char>>
    decreases s, 1nat,
{
    Seq::new(
        s.len(),
        |i: int|
            if 0 <= i < s.len() {
                newline_at(indent + 1) + written_pat(vars, s[i].pat) + " ->"@ + newline_at(indent + 2)
                    + written_expr(vars, scopes, indent + 2, s[i].expr)
            } else {
                Seq::empty()
            },
    )
}

/// A global definition: `global`, its pattern, `=`, its expression on the
/// next line one level deep, and a blank line.
pub open spec fn written_global(vars: Seq<Option<Var>>, scopes: Seq<Option<Scope>>, g: Global) -> Seq<
    char,
> {
    "global "@ + written_pat(vars, g.pat) + " ="@ + newline_at(1) + written_expr(vars, scopes, 1, g.expr)
        + "\n\n"@
}

/// A new line indented `indent` levels of two spaces.
pub fn line_text(indent: usize) -> (r: String)
    requires
        2 * indent <= usize::MAX,
    ensures
        r@ == newline_at(indent as nat),
{
    let mut s = String::from_str("\n");
    let n = indent * 2;
    let mut i: usize = 0;
    while i < n
        invariant
            i <= n,
            n == 2 * indent,
            s@ == "\n"@ + Seq::new(i as nat, |j: int| ' '),
        decreases n - i,
    {
        let ghost before = s@;
        push_char(&mut s, ' ');
        assert(s@ =~= "\n"@ + Seq::new((i + 1) as nat, |j: int| ' '));
        i = i + 1;
    }
    s
}

/// The name of variable `id`.
fn var_name(program: &Program, id: Id<Var>) -> (r: &'static str)
    requires
        var_ok(program.vars@, id),
    ensures
        r@ == written_var(program.vars@, id),
{
    match program.vars.get(id) {
        Some(var) => var.name,
        None => "",
    }
}

/// Captured variables: their names in brackets, separated by commas.
pub fn captures_text(program: &Program, ids: &Vec<Id<Var>>) -> (r: String)
    requires
        forall|k: int| 0 <= k < ids@.len() ==> var_ok(program.vars@, #[trigger] ids@[k]),
    ensures
        r@ == written_captures(program.vars@, ids@),
{
    let ghost parts = ids@.map_values(|id: Id<Var>| written_var(program.vars@, id));
    let mut f = String::new();
    let mut i: usize = 0;
    while i < ids.len()
        invariant
            i <= ids@.len(),
            parts == ids@.map_values(|id: Id<Var>| written_var(program.vars@, id)),
            forall|k: int| 0 <= k < ids@.len() ==> var_ok(program.vars@, #[trigger] ids@[k]),
            f@ == join(parts.take(i as int), ", "@),
        decreases ids@.len() - i,
    {
        let name = var_name(program, ids[i]);
        assert(parts.take(i + 1).drop_last() =~= parts.take(i as int));
        if i == 0 {
            f = String::from_str(name);
            assert(parts.take(1) =~= seq![parts[0]]);
        } else {
            f = f.concat(", ").concat(name);
        }
        i = i + 1;
    }
    assert(parts.take(ids@.len() as int) =~= parts);
    String::from_str("[").concat(f.as_str()).concat("]")
}

/// A string's text with each new line written as a backslash and `n`.
fn escaped_text(s: &str) -> (r: String)
    ensures
        r@ == escaped(s@),
{
    let chars = chars_of(s);
    let pat = ['\n'];
    let rep = ['\\', 'n'];
    assert(pat@ =~= seq!['\n']);
    assert(rep@ =~= seq!['\\', 'n']);
    let out = replace_all_chars(&chars, &pat, &rep);
    string_of(out.as_slice())
}

/// How a pattern is written: a tuple's fields separated by commas, without
/// parentheses.
pub fn pat_text(program: &Program, pat: &Pat) -> (r: String)
    requires
        pat_ok(program.vars@, *pat),
    ensures
        r@ == written_pat(program.vars@, *pat),
    decreases pat,
{
    match pat {
        Pat::Wild(..) => String::from_str("_"),
        Pat::Bind(b) => String::from_str(var_name(program, b.var)),
        Pat::Str(s) => String::from_str("\"").concat(s.string).concat("\""),
        Pat::Variant(v) => {
            let f = String::from_str(":").concat(v.name);
            match &v.payload {
                Some(payload) => {
                    let inner = pat_text(program, payload);
                    f.concat(" ").concat(inner.as_str())
                },
                None => {
                    assert(f@ =~= f@ + Seq::<char>::empty());
                    f
                },
            }
        },
        Pat::Tuple(t) => {
            let ghost parts = written_pats(program.vars@, t.fields@);
            let mut f = String::new();
            let mut i: usize = 0;
            while i < t.fields.len()
                invariant
                    *pat == Pat::Tuple(*t),
                    pat_ok(program.vars@, *pat),
                    parts == written_pats(program.vars@, t.fields@),
                    i <= t.fields@.len(),
                    f@ == join(parts.take(i as int), ", "@),
                decreases t.fields@.len() - i,
            {
                proof {
                    assert(decreases_to!(*pat => t.fields@[i as int]));
                    assert(pat_ok(program.vars@, t.fields@[i as int]));
                }
                let part = pat_text(program, &t.fields[i]);
                assert(parts.take(i + 1).drop_last() =~= parts.take(i as int));
                if i == 0 {
                    f = part;
                    assert(parts.take(1) =~= seq![parts[0]]);
                } else {
                    f = f.concat(", ").concat(part.as_str());
                }
                i = i + 1;
            }
            assert(parts.take(t.fields@.len() as int) =~= parts);
            f
        },
        Pat::Error(..) => String::from_str("{error}"),
    }
}

/// How an expression is written at `indent`.
pub fn expr_text(program: &Program, indent: usize, expr: &Expr) -> (r: String)
    requires
        expr_ok(program.vars@, program.scopes@, indent as nat, *expr),
    ensures
        r@ == written_expr(program.vars@, program.scopes@, indent as nat, *expr),
    decreases expr,
{
    let ghost vars = program.vars@;
    let ghost scopes = program.scopes@;
    match expr {
        Expr::Value(x) => match &x.value {
            Value::Num(digits) => String::from_str(digits),
            Value::Str(s) => {
                let e = escaped_text(s.as_str());
                String::from_str("\"").concat(e.as_str()).concat("\"")
            },
        },
        Expr::Var(x) => String::from_str(var_name(program, x.var)),
        Expr::Let(x) => {
            let pat = pat_text(program, &x.pat);
            let input = expr_text(program, indent, &x.input);
            let line = line_text(indent + 1);
            let output = expr_text(program, indent + 1, &x.output);
            String::from_str("let ").concat(pat.as_str()).concat(" = ").concat(input.as_str()).concat(
                " in",
            ).concat(line.as_str()).concat(output.as_str())
        },
        Expr::Bind(x) => {
            let pat = pat_text(program, &x.pat);
            let input = expr_text(program, indent, &x.input);
            let captures = match program.scopes.get(x.scope) {
                Some(scope) => {
                    proof {
                        assert(scope.captures@ == scope_captures(scopes, x.scope));
                        assert forall|k: int| 0 <= k < scope.captures@.len() implies var_ok(
                            vars,
                            #[trigger] scope.captures@[k],
                        ) by {
                            assert(scope_captures(scopes, x.scope)[k] == scope.captures@[k]);
                        }
                    }
                    captures_text(program, &scope.captures)
                },
                None => String::new(),
            };
            let line = line_text(indent + 1);
            let output = expr_text(program, indent + 1, &x.output);
            String::from_str("bind ").concat(pat.as_str()).concat(" = ").concat(input.as_str()).concat(
                " in ",
            ).concat(captures.as_str()).concat(line.as_str()).concat(output.as_str())
        },
        Expr::Pure(x) => {
            let input = expr_text(program, indent, &x.input);
            String::from_str("pure ").concat(input.as_str())
        },
        Expr::Call(x) => {
            let lambda = expr_text(program, indent, &x.lambda);
            let input = expr_text(program, indent, &x.input);
            String::from_str("(").concat(lambda.as_str()).concat(" ").concat(input.as_str()).concat(
                ")",
            )
        },
        Expr::Field(x) => {
            let input = expr_text(program, indent, &x.input);
            input.concat(".").concat(x.name)
        },
        Expr::Lambda(x) => {
            let pat = pat_text(program, &x.input);
            let captures = match program.scopes.get(x.scope) {
                Some(scope) => {
                    proof {
                        assert(scope.captures@ == scope_captures(scopes, x.scope));
                        assert forall|k: int| 0 <= k < scope.captures@.len() implies var_ok(
                            vars,
                            #[trigger] scope.captures@[k],
                        ) by {
                            assert(scope_captures(scopes, x.scope)[k] == scope.captures@[k]);
                        }
                    }
                    captures_text(program, &scope.captures)
                },
                None => String::new(),
            };
            let line = line_text(indent + 1);
            let output = expr_text(program, indent + 1, &x.output);
            String::from_str("\\").concat(pat.as_str()).concat(". ").concat(captures.as_str()).concat(
                line.as_str(),
            ).concat(output.as_str())
        },
        Expr::Variant(x) => {
            let f = String::from_str(":").concat(x.name);
            match &x.payload {
                Some(payload) => {
                    let inner = expr_text(program, indent, payload);
                    f.concat(" ").concat(inner.as_str())
                },
                None => {
                    assert(f@ =~= f@ + Seq::<char>::empty());
                    f
                },
            }
        },
        Expr::Tuple(x) => {
            let ghost parts = written_exprs(vars, scopes, indent as nat, x.fields@);
            let mut f = String::new();
            let mut i: usize = 0;
            while i < x.fields.len()
                invariant
                    *expr == Expr::Tuple(*x),
                    vars == program.vars@,
                    scopes == program.scopes@,
                    expr_ok(vars, scopes, indent as nat, *expr),
                    parts == written_exprs(vars, scopes, indent as nat, x.fields@),
                    i <= x.fields@.len(),
                    f@ == join(parts.take(i as int), ", "@),
                decreases x.fields@.len() - i,
            {
                proof {
                    assert(decreases_to!(*expr => x.fields@[i as int]));
                    assert(expr_ok(vars, scopes, indent as nat, x.fields@[i as int]));
                }
                let part = expr_text(program, indent, &x.fields[i]);
                assert(parts.take(i + 1).drop_last() =~= parts.take(i as int));
                if i == 0 {
                    f = part;
                    assert(parts.take(1) =~= seq![parts[0]]);
                } else {
                    f = f.concat(", ").concat(part.as_str());
                }
                i = i + 1;
            }
            assert(parts.take(x.fields@.len() as int) =~= parts);
            String::from_str("(").concat(f.as_str()).concat(")")
        },
        Expr::Match(x) => {
            let ghost parts = written_arms(vars, scopes, indent as nat, x.arms@);
            let input = expr_text(program, indent, &x.input);
            let mut f = String::from_str("match ").concat(input.as_str());
            let ghost head = f@;
            let mut i: usize = 0;
            assert(parts.take(0) =~= Seq::<Seq<char>>::empty());
            assert(f@ =~= head + join(parts.take(0), Seq::empty()));
            while i < x.arms.len()
                invariant
                    *expr == Expr::Match(*x),
                    vars == program.vars@,
                    scopes == program.scopes@,
                    expr_ok(vars, scopes, indent as nat, *expr),
                    parts == written_arms(vars, scopes, indent as nat, x.arms@),
                    i <= x.arms@.len(),
                    f@ == head + join(parts.take(i as int), Seq::empty()),
                decreases x.arms@.len() - i,
            {
                let arm = &x.arms[i];
                proof {
                    assert(decreases_to!(*expr => x.arms@[i as int].expr));
                    assert(pat_ok(vars, x.arms@[i as int].pat));
                }
                let line1 = line_text(indent + 1);
                let pat = pat_text(program, &arm.pat);
                let line2 = line_text(indent + 2);
                let body = expr_text(program, indent + 2, &arm.expr);
                let part = line1.concat(pat.as_str()).concat(" ->").concat(line2.as_str()).concat(
                    body.as_str(),
                );
                assert(part@ == parts[i as int]);
                assert(parts.take(i + 1).drop_last() =~= parts.take(i as int));
                if i == 0 {
                    assert(parts.take(1) =~= seq![parts[0]]);
                }
                f = f.concat(part.as_str());
                assert(f@ =~= head + join(parts.take(i + 1), Seq::empty()));
                i = i + 1;
            }
            assert(parts.take(x.arms@.len() as int) =~= parts);
            f
        },
        Expr::Error(..) => String::from_str("{error}"),
        _ => String::new(),
    }
}

/// A global definition: `global`, its pattern, `=`, its expression on the
/// next line one level deep, and a blank line.
pub fn global_text(program: &Program, global: &Global) -> (r: String)
    requires
        pat_ok(program.vars@, global.pat),
        expr_ok(program.vars@, program.scopes@, 1, global.expr),
    ensures
        r@ == written_global(program.vars@, program.scopes@, *global),
{
    let pat = pat_text(program, &global.pat);
    let line = line_text(1);
    let e = expr_text(program, 1, &global.expr);
    String::from_str("global ").concat(pat.as_str()).concat(" =").concat(line.as_str()).concat(
        e.as_str(),
    ).concat("\n\n")
}

/// Whether every global of a program can be written.
pub open spec fn globals_ok(
    vars: Seq<Option<Var>>,
    scopes: Seq<Option<Scope>>,
    globals: Seq<Option<Global>>,
) -> bool {
    forall|i: int|
        0 <= i < globals.len() && (#[trigger] globals[i]) is Some ==> pat_ok(vars, globals[i]->0.pat)
            && expr_ok(vars, scopes, 1, globals[i]->0.expr)
}

/// The globals `ids` names, written one after another.
pub open spec fn written_program(
    vars: Seq<Option<Var>>,
    scopes: Seq<Option<Scope>>,
    globals: Seq<Option<Global>>,
    ids: Seq<Id<Global>>,
) -> Seq<char> {
    join(
        ids.map_values(|id: Id<Global>| written_global(vars, scopes, slot(globals, id.idx())->0)),
        Seq::empty(),
    )
}

/// The program: each global written, in the order of their ids.
pub fn program_text(program: &Program) -> (r: String)
    requires
        globals_ok(program.vars@, program.scopes@, program.globals@),
    ensures
        forall|ids: Seq<Id<Global>>|
            #[trigger] filled_positions(program.globals@, ids) ==> r@ == written_program(
                program.vars@,
                program.scopes@,
                program.globals@,
                ids,
            ),
{
    let ghost vars = program.vars@;
    let ghost scopes = program.scopes@;
    let ghost globals = program.globals@;
    let pairs = program.globals.iter();
    let ghost ids0 = pairs@.map_values(|p: (Id<Global>, &Global)| p.0);
    let ghost parts = ids0.map_values(
        |id: Id<Global>| written_global(vars, scopes, slot(globals, id.idx())->0),
    );
    let mut f = String::new();
    let mut i: usize = 0;
    assert(parts.take(0) =~= Seq::<Seq<char>>::empty());
    while i < pairs.len()
        invariant
            vars == program.vars@,
            scopes == program.scopes@,
            globals == program.globals@,
            globals_ok(vars, scopes, globals),
            ids0 == pairs@.map_values(|p: (Id<Global>, &Global)| p.0),
            parts == ids0.map_values(
                |id: Id<Global>| written_global(vars, scopes, slot(globals, id.idx())->0),
            ),
            filled_positions(globals, ids0),
            forall|k: int|
                0 <= k < pairs@.len() ==> Some(*(#[trigger] pairs@[k]).1) == globals[pairs@[k].0.idx() as int],
            i <= pairs@.len(),
            f@ == join(parts.take(i as int), Seq::empty()),
        decreases pairs@.len() - i,
    {
        let (id, global) = pairs[i];
        proof {
            assert(ids0[i as int] == id);
            assert(Some(*global) == globals[id.idx() as int]);
            assert(slot(globals, id.idx()) == Some(*global));
            assert(globals[id.idx() as int] is Some);
        }
        let text = global_text(program, global);
        assert(parts.take(i + 1).drop_last() =~= parts.take(i as int));
        if i == 0 {
            assert(parts.take(1) =~= seq![parts[0]]);
        }
        f = f.concat(text.as_str());
        assert(f@ =~= join(parts.take(i + 1), Seq::empty()));
        i = i + 1;
    }
    assert(parts.take(pairs@.len() as int) =~= parts);
    assert forall|ids: Seq<Id<Global>>| #[trigger] filled_positions(globals, ids) implies f@
        == written_program(vars, scopes, globals, ids) by {
        law_filled_ids_unique(globals, ids0, ids);
        assert(ids.map_values(
            |id: Id<Global>| written_global(vars, scopes, slot(globals, id.idx())->0),
        ) =~= parts);
    }
    f
}

/// A `let` is written starting with the keyword `let` and a `bind` with the
/// keyword `bind`, so the two never print alike.
pub proof fn law_let_and_bind_print_apart(
    vars: Seq<Option<Var>>,
    scopes: Seq<Option<Scope>>,
    indent: nat,
    e1: Expr,
    e2: Expr,
)
    requires
        e1 is Let,
        e2 is Bind,
    ensures
        written_expr(vars, scopes, indent, e1).take(4) == seq!['l', 'e', 't', ' '],
        written_expr(vars, scopes, indent, e2).take(5) == seq!['b', 'i', 'n', 'd', ' '],
        written_expr(vars, scopes, indent, e1) != written_expr(vars, scopes, indent, e2),
{
    reveal_strlit("let ");
    reveal_strlit("bind ");
    let t1 = written_expr(vars, scopes, indent, e1);
    let t2 = written_expr(vars, scopes, indent, e2);
    match e1 {
        Expr::Let(x) => {
            let rest = written_pat(vars, x.pat) + " = "@ + written_expr(vars, scopes, indent, *x.input)
                + " in"@ + newline_at(indent + 1) + written_expr(vars, scopes, indent + 1, *x.output);
            assert(t1 =~= "let "@ + rest);
            assert(t1.take(4) =~= seq!['l', 'e', 't', ' ']);
        },
        _ => {},
    }
    match e2 {
        Expr::Bind(x) => {
            let rest = written_pat(vars, x.pat) + " = "@ + written_expr(vars, scopes, indent, *x.input)
                + " in "@ + written_captures(vars, scope_captures(scopes, x.scope)) + newline_at(
                indent + 1,
            ) + written_expr(vars, scopes, indent + 1, *x.output);
            assert(t2 =~= "bind "@ + rest);
            assert(t2.take(5) =~= seq!['b', 'i', 'n', 'd', ' ']);
        },
        _ => {},
    }
    if t1 == t2 {
        assert(t1[0] == t1.take(4)[0]);
        assert(t2[0] == t2.take(5)[0]);
    }
}

/// A `pure`, a `match` and a lambda are written starting with `pure `,
/// `match ` and a backslash.
pub proof fn law_forms_start_with_their_keyword(
    vars: Seq<Option<Var>>,
    scopes: Seq<Option<Scope>>,
    indent: nat,
    e: Expr,
)
    ensures
        e is Pure ==> written_expr(vars, scopes, indent, e).take(5) == seq!['p', 'u', 'r', 'e', ' '],
        e is Match ==> written_expr(vars, scopes, indent, e).take(6) == seq![
            'm',
            'a',
            't',
            'c',
            'h',
            ' ',
        ],
        e is Lambda ==> written_expr(vars, scopes, indent, e).take(1) == seq!['\\'],
{
    reveal_strlit("pure ");
    reveal_strlit("match ");
    reveal_strlit("\\");
    let t = written_expr(vars, scopes, indent, e);
    match e {
        Expr::Pure(x) => {
            assert(t =~= "pure "@ + written_expr(vars, scopes, indent, *x.input));
            assert(t.take(5) =~= seq!['p', 'u', 'r', 'e', ' ']);
        },
        Expr::Match(x) => {
            let rest = written_expr(vars, scopes, indent, *x.input) + join(
                written_arms(vars, scopes, indent, x.arms@),
                Seq::empty(),
            );
            assert(t =~= "match "@ + rest);
            assert(t.take(6) =~= seq!['m', 'a', 't', 'c', 'h', ' ']);
        },
        Expr::Lambda(x) => {
            let rest = written_pat(vars, x.input) + ". "@ + written_captures(
                vars,
                scope_captures(scopes, x.scope),
            ) + newline_at(indent + 1) + written_expr(vars, scopes, indent + 1, *x.output);
            assert(t =~= "\\"@ + rest);
            assert(t.take(1) =~= seq!['\\']);
        },
        _ => {},
    }
}

} // verus!
