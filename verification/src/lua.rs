//! Lua code generation: a lowered program written as Lua source.
//!
//! Each expression becomes a Lua expression; what it needs first (a local
//! that holds a value, the test of a `match` arm) becomes a statement. The
//! statements of a function body are gathered in a scope and written before
//! its `return`.
use std::collections::HashMap;

use vstd::prelude::*;

use crate::arena::{filled_positions, law_filled_ids_unique, slot, Id};
use crate::ir::exhaust::join;
use crate::ir::{
    Arm, BinOp, Expr, ExprField, Extern, Global, Intrinsic, Pat, Program, Value, Var, VarKind,
};
use crate::text::{
    char_string, chars_of, push_char, replace_all, replace_all_chars, str_eq, string_of,
};

verus! {

broadcast use vstd::std_specs::hash::group_hash_axioms;

/// Where code generation stands: how many locals were handed out, the Lua
/// expression each bound variable reads as (keyed by the variable's index),
/// and the statements emitted so far.
pub struct LuaState {
    pub locals: nat,
    pub vars: Map<usize, Seq<char>>,
    pub stmts: Seq<Seq<char>>,
}

/// The state code generation starts from.
pub open spec fn fresh_state() -> LuaState {
    LuaState { locals: 0, vars: Map::empty(), stmts: Seq::empty() }
}

/// The decimal digit `d`.
pub open spec fn digit_char(d: nat) -> char {
    if d == 0 {
        '0'
    } else if d == 1 {
        '1'
    } else if d == 2 {
        '2'
    } else if d == 3 {
        '3'
    } else if d == 4 {
        '4'
    } else if d == 5 {
        '5'
    } else if d == 6 {
        '6'
    } else if d == 7 {
        '7'
    } else if d == 8 {
        '8'
    } else {
        '9'
    }
}

/// `n` in decimal, without leading zeros.
pub open spec fn decimal(n: nat) -> Seq<char>
    decreases n,
{
    if n < 10 {
        seq![digit_char(n)]
    } else {
        decimal(n / 10).push(digit_char(n % 10))
    }
}

/// The name of the `n`-th local.
pub open spec fn local_name(n: nat) -> Seq<char> {
    "local"@ + decimal(n)
}

/// A string's text inside Lua double quotes: new line, tab, carriage return
/// and NUL written with a backslash, a double quote after a backslash, and
/// then every backslash doubled.
pub open spec fn lua_escaped(s: Seq<char>) -> Seq<char> {
    let s1 = replace_all(s, seq!['\n'], seq!['\\', 'n']);
    let s2 = replace_all(s1, seq!['\t'], seq!['\\', 't']);
    let s3 = replace_all(s2, seq!['\r'], seq!['\\', 'r']);
    let s4 = replace_all(s3, seq!['\0'], seq!['\\', '0']);
    let s5 = replace_all(s4, seq!['"'], seq!['\\', '"']);
    replace_all(s5, seq!['\\'], seq!['\\', '\\'])
}

/// The state after one more local is handed out.
pub open spec fn bumped(s: LuaState) -> LuaState {
    LuaState { locals: s.locals + 1, vars: s.vars, stmts: s.stmts }
}

/// The state after statement `stmt` is emitted.
pub open spec fn emitted(s: LuaState, stmt: Seq<char>) -> LuaState {
    LuaState { locals: s.locals, vars: s.vars, stmts: s.stmts.push(stmt) }
}

/// The state with the variables bound as `vars` says.
pub open spec fn rebound(s: LuaState, vars: Map<usize, Seq<char>>) -> LuaState {
    LuaState { locals: s.locals, vars: vars, stmts: s.stmts }
}

/// The state with the statements from the `len`-th on taken away.
pub open spec fn closed_scope(s: LuaState, len: nat) -> LuaState {
    LuaState { locals: s.locals, vars: s.vars, stmts: s.stmts.take(len as int) }
}

/// The statements from the `len`-th on, separated by spaces.
pub open spec fn scope_text(s: LuaState, len: nat) -> Seq<char> {
    join(s.stmts.skip(len as int), " "@)
}

/// The variables a pattern binds when the value it matches is read as
/// `input`: a variant's payload as `input['payload']`, the `i`-th field of a
/// tuple (counted from zero) as `input[i + 1]`. `None` where the pattern
/// holds an error.
pub open spec fn bound_pat(vars: Map<usize, Seq<char>>, p: Pat, input: Seq<char>) -> Option<
    Map<usize, Seq<char>>,
>
    decreases p, 0nat, 0nat,
{
    match p {
        Pat::Wild(..) | Pat::Str(..) => Some(vars),
        Pat::Bind(b) => Some(vars.insert(b.var.idx() as usize, input)),
        Pat::Variant(v) => match v.payload {
            Some(b) => bound_pat(vars, *b, input + "['payload']"@),
            None => Some(vars),
        },
        Pat::Tuple(t) => bound_fields(vars, t.fields@, t.fields@.len(), input),
        Pat::Error(..) => None,
    }
}

/// The variables the first `n` fields of a tuple pattern bind.
pub open spec fn bound_fields(
    vars: Map<usize, Seq<char>>,
    fields: Seq<Pat>,
    n: nat,
    input: Seq<char>,
) -> Option<Map<usize, Seq<char>>>
    decreases fields, 1nat, n,
{
    if n == 0 || n > fields.len() {
        if n == 0 {
            Some(vars)
        } else {
            None
        }
    } else {
        match bound_fields(vars, fields, (n - 1) as nat, input) {
            Some(m) => bound_pat(m, fields[n - 1], input + "["@ + decimal(n) + "]"@),
            None => None,
        }
    }
}

/// The Lua test that a value read as `input` matches a pattern: `true`
/// and `false` variants test the value itself, a tuple the conjunction of
/// its fields' tests. `None` where the pattern holds an error.
pub open spec fn checked_pat(p: Pat, input: Seq<char>) -> Option<Seq<char>>
    decreases p, 0nat, 0nat,
{
    match p {
        Pat::Wild(..) | Pat::Bind(..) => Some("true"@),
        Pat::Str(x) => Some(input + " == \""@ + lua_escaped(x.string@) + "\""@),
        Pat::Variant(v) => if v.name@ == "true"@ && v.payload is None {
            Some(input)
        } else if v.name@ == "false"@ && v.payload is None {
            Some("not "@ + input)
        } else {
            match v.payload {
                Some(b) => match checked_pat(*b, input + "['payload']"@) {
                    Some(c) => Some(input + "['variant'] == \""@ + v.name@ + "\" and "@ + c),
                    None => None,
                },
                None => Some(input + "['variant'] == \""@ + v.name@ + "\""@),
            }
        },
        Pat::Tuple(t) => match checked_fields(t.fields@, t.fields@.len(), input) {
            Some(parts) => Some(join(parts, " and "@)),
            None => None,
        },
        Pat::Error(..) => None,
    }
}

/// The tests of the first `n` fields of a tuple pattern.
pub open spec fn checked_fields(fields: Seq<Pat>, n: nat, input: Seq<char>) -> Option<
    Seq<Seq<char>>,
>
    decreases fields, 1nat, n,
{
    if n == 0 || n > fields.len() {
        if n == 0 {
            Some(Seq::empty())
        } else {
            None
        }
    } else {
        match checked_fields(fields, (n - 1) as nat, input) {
            Some(parts) => match checked_pat(fields[n - 1], input + "["@ + decimal(n) + "]"@) {
                Some(c) => Some(parts.push(c)),
                None => None,
            },
            None => None,
        }
    }
}

/// How many inputs an intrinsic reads; `None` for one Lua has no code for.
pub open spec fn intrinsic_arity(i: Intrinsic) -> Option<nat> {
    match i {
        Intrinsic::Trace => None,
        Intrinsic::NatXor | Intrinsic::StrPrepend | Intrinsic::StrSplitAt | Intrinsic::StrFind => Some(
            2,
        ),
        _ => Some(1),
    }
}

/// The Lua code of an intrinsic applied to the code of its inputs.
pub open spec fn intrinsic_code(i: Intrinsic, a: Seq<Seq<char>>) -> Seq<char> {
    match i {
        Intrinsic::Dynamic => "dynamic("@ + a[0] + ")"@,
        Intrinsic::FormatNat | Intrinsic::FormatInt | Intrinsic::FormatReal => "tostring("@ + a[0]
            + ")"@,
        Intrinsic::HashStr => "hashstr("@ + a[0] + ")"@,
        Intrinsic::HashNat | Intrinsic::HashInt | Intrinsic::HashReal => "hashnum("@ + a[0] + ")"@,
        Intrinsic::NatXor => a[0] + " ^ "@ + a[1],
        Intrinsic::StrLength => "strlength("@ + a[0] + ")"@,
        Intrinsic::StrPrepend => a[0] + " .. "@ + a[1],
        Intrinsic::StrSplitAt => "strsplitat("@ + a[0] + ", "@ + a[1] + ")"@,
        Intrinsic::StrFind => "strfind("@ + a[0] + ", "@ + a[1] + ")"@,
        Intrinsic::Trace => Seq::empty(),
    }
}

/// The Lua operator of a binary expression around the code of its sides.
pub open spec fn binary_code(op: BinOp, l: Seq<char>, r: Seq<char>) -> Seq<char> {
    match op {
        BinOp::Add => "("@ + l + " + "@ + r + ")"@,
        BinOp::Sub => "("@ + l + " - "@ + r + ")"@,
        BinOp::Mul => "("@ + l + " * "@ + r + ")"@,
        BinOp::Div => "("@ + l + " / "@ + r + ")"@,
        BinOp::Gt => "("@ + l + " > "@ + r + ")"@,
        BinOp::Lt => "("@ + l + " < "@ + r + ")"@,
        BinOp::Ge => "("@ + l + " >= "@ + r + ")"@,
        BinOp::Le => "("@ + l + " <= "@ + r + ")"@,
        BinOp::And => "("@ + l + " and "@ + r + ")"@,
        BinOp::Or => "("@ + l + " or "@ + r + ")"@,
        BinOp::Eq => "eq("@ + l + ", "@ + r + ")"@,
        BinOp::Ne => "ne("@ + l + ", "@ + r + ")"@,
    }
}

/// The Lua code of a variant: `true` and `false` without payload as Lua's
/// booleans, any other as a table of its name and payload.
pub open spec fn variant_code(name: Seq<char>, payload: Option<Seq<char>>) -> Seq<char> {
    match payload {
        Some(p) => "{ ['variant'] = \""@ + name + "\", ['payload'] = "@ + p + " }"@,
        None => if name == "true"@ {
            "true"@
        } else if name == "false"@ {
            "false"@
        } else {
            "{ ['variant'] = \""@ + name + "\" }"@
        },
    }
}

/// The Lua code of an expression and the state after it, from state `s`;
/// `None` where code generation stops: a unary, list, empty-list or error
/// expression, an intrinsic with too few inputs, a pattern that holds an
/// error, a variable that is not bound, or a local past what `usize` counts.
pub open spec fn lua_expr(
    vars: Seq<Option<Var>>,
    externs: Seq<Option<Extern>>,
    s: LuaState,
    e: Expr,
) -> Option<(Seq<char>, LuaState)>
    decreases e, 0nat, 0nat,
{
    match e {
        Expr::Value(x) => match x.value {
            Value::Num(digits) => Some((digits@, s)),
            Value::Str(t) => Some(("\""@ + lua_escaped(t@) + "\""@, s)),
        },
        Expr::Var(x) => match slot(vars, x.var.idx()) {
            Some(v) => match v.kind {
                VarKind::Extern(id) => match slot(externs, id.idx()) {
                    Some(ext) => Some(("extern['"@ + ext.id@ + "']"@, s)),
                    None => None,
                },
                _ => if s.vars.contains_key(x.var.idx() as usize) {
                    Some((s.vars[x.var.idx() as usize], s))
                } else {
                    None
                },
            },
            None => None,
        },
        Expr::Let(x) => match lua_expr(vars, externs, s, *x.input) {
            Some((input, s1)) => if s1.locals < usize::MAX {
                let local = local_name(s1.locals);
                let s2 = emitted(bumped(s1), "local "@ + local + " = "@ + input);
                match bound_pat(s2.vars, x.pat, local) {
                    Some(m) => lua_expr(vars, externs, rebound(s2, m), *x.output),
                    None => None,
                }
            } else {
                None
            },
            None => None,
        },
        Expr::Bind(x) => match lua_expr(vars, externs, s, *x.input) {
            Some((input, s1)) => if s1.locals < usize::MAX {
                let len = s1.stmts.len();
                let local = local_name(s1.locals);
                let s2 = emitted(bumped(s1), "local "@ + local + " = "@ + input);
                match bound_pat(s2.vars, x.pat, local) {
                    Some(m) => match lua_expr(vars, externs, rebound(s2, m), *x.output) {
                        Some((output, s3)) => Some(
                            (
                                "function() "@ + scope_text(s3, len) + " return "@ + output
                                    + " end"@,
                                closed_scope(s3, len),
                            ),
                        ),
                        None => None,
                    },
                    None => None,
                }
            } else {
                None
            },
            None => None,
        },
        Expr::Pure(x) => match lua_expr(vars, externs, s, *x.input) {
            Some((input, s1)) => Some(("function() return "@ + input + " end"@, s1)),
            None => None,
        },
        Expr::Call(x) => match lua_expr(vars, externs, s, *x.lambda) {
            Some((lambda, s1)) => match lua_expr(vars, externs, s1, *x.input) {
                Some((input, s2)) => Some(("("@ + lambda + ")("@ + input + ")"@, s2)),
                None => None,
            },
            None => None,
        },
        Expr::With(x) => match lua_expr(vars, externs, s, *x.input) {
            Some((input, s1)) => if s1.locals < usize::MAX {
                let local = local_name(s1.locals);
                let s2 = emitted(bumped(s1), "local "@ + local + " = copy("@ + input + ")"@);
                match lua_with_fields(vars, externs, s2, local, x.fields@, x.fields@.len()) {
                    Some(s3) => Some((local, s3)),
                    None => None,
                }
            } else {
                None
            },
            None => None,
        },
        Expr::Field(x) => match lua_expr(vars, externs, s, *x.input) {
            Some((input, s1)) => Some((input + "."@ + x.name@, s1)),
            None => None,
        },
        Expr::Lambda(x) => if s.locals < usize::MAX {
            let local = local_name(s.locals);
            let s1 = bumped(s);
            match bound_pat(s1.vars, x.input, local) {
                Some(m) => {
                    let s2 = rebound(s1, m);
                    let len = s2.stmts.len();
                    match lua_expr(vars, externs, s2, *x.output) {
                        Some((output, s3)) => Some(
                            (
                                "function("@ + local + ") "@ + scope_text(s3, len) + " return "@
                                    + output + " end"@,
                                closed_scope(s3, len),
                            ),
                        ),
                        None => None,
                    }
                },
                None => None,
            }
        } else {
            None
        },
        Expr::Variant(x) => match x.payload {
            Some(b) => match lua_expr(vars, externs, s, *b) {
                Some((payload, s1)) => Some((variant_code(x.name@, Some(payload)), s1)),
                None => None,
            },
            None => Some((variant_code(x.name@, None), s)),
        },
        Expr::Record(x) => match lua_record_fields(vars, externs, s, x.fields@, x.fields@.len()) {
            Some((parts, s1)) => Some(("{ "@ + join(parts, ", "@) + " }"@, s1)),
            None => None,
        },
        Expr::Binary(x) => match lua_expr(vars, externs, s, *x.lhs) {
            Some((lhs, s1)) => match lua_expr(vars, externs, s1, *x.rhs) {
                Some((rhs, s2)) => Some((binary_code(x.op, lhs, rhs), s2)),
                None => None,
            },
            None => None,
        },
        Expr::Tuple(x) => match lua_exprs(vars, externs, s, x.fields@, x.fields@.len()) {
            Some((parts, s1)) => Some(("{ "@ + join(parts, ", "@) + " }"@, s1)),
            None => None,
        },
        Expr::Match(x) => match lua_expr(vars, externs, s, *x.input) {
            Some((input, s1)) => if s1.locals + 1 < usize::MAX {
                let local = local_name(s1.locals);
                let s2 = emitted(bumped(s1), "local "@ + local + " = "@ + input);
                let output = local_name(s2.locals);
                let s3 = emitted(bumped(s2), "local "@ + output);
                match lua_arms(vars, externs, s3, local, output, x.arms@, x.arms@.len()) {
                    Some(s4) => Some((output, s4)),
                    None => None,
                }
            } else {
                None
            },
            None => None,
        },
        Expr::Intrinsic(x) => match intrinsic_arity(x.intrinsic) {
            Some(k) => if k <= x.inputs@.len() {
                match lua_exprs(vars, externs, s, x.inputs@, k) {
                    Some((parts, s1)) => Some((intrinsic_code(x.intrinsic, parts), s1)),
                    None => None,
                }
            } else {
                None
            },
            None => None,
        },
        _ => None,
    }
}

/// The code of the first `n` expressions of `es`, one after another.
pub open spec fn lua_exprs(
    vars: Seq<Option<Var>>,
    externs: Seq<Option<Extern>>,
    s: LuaState,
    es: Seq<Expr>,
    n: nat,
) -> Option<(Seq<Seq<char>>, LuaState)>
    decreases es, 1nat, n,
{
    if n == 0 || n > es.len() {
        if n == 0 {
            Some((Seq::empty(), s))
        } else {
            None
        }
    } else {
        match lua_exprs(vars, externs, s, es, (n - 1) as nat) {
            Some((parts, s1)) => match lua_expr(vars, externs, s1, es[n - 1]) {
                Some((code, s2)) => Some((parts.push(code), s2)),
                None => None,
            },
            None => None,
        }
    }
}

/// The first `n` fields of a record, each as `name = code`.
pub open spec fn lua_record_fields(
    vars: Seq<Option<Var>>,
    externs: Seq<Option<Extern>>,
    s: LuaState,
    fields: Seq<ExprField>,
    n: nat,
) -> Option<(Seq<Seq<char>>, LuaState)>
    decreases fields, 1nat, n,
{
    if n == 0 || n > fields.len() {
        if n == 0 {
            Some((Seq::empty(), s))
        } else {
            None
        }
    } else {
        match lua_record_fields(vars, externs, s, fields, (n - 1) as nat) {
            Some((parts, s1)) => match lua_expr(vars, externs, s1, fields[n - 1].expr) {
                Some((code, s2)) => Some((parts.push(fields[n - 1].name@ + " = "@ + code), s2)),
                None => None,
            },
            None => None,
        }
    }
}

/// The first `n` fields of a `with` expression, each emitted as a statement
/// that sets the field of the copy `local`.
pub open spec fn lua_with_fields(
    vars: Seq<Option<Var>>,
    externs: Seq<Option<Extern>>,
    s: LuaState,
    local: Seq<char>,
    fields: Seq<ExprField>,
    n: nat,
) -> Option<LuaState>
    decreases fields, 1nat, n,
{
    if n == 0 || n > fields.len() {
        if n == 0 {
            Some(s)
        } else {
            None
        }
    } else {
        match lua_with_fields(vars, externs, s, local, fields, (n - 1) as nat) {
            Some(s1) => match lua_expr(vars, externs, s1, fields[n - 1].expr) {
                Some((code, s2)) => Some(
                    emitted(s2, local + "."@ + fields[n - 1].name@ + " = "@ + code),
                ),
                None => None,
            },
            None => None,
        }
    }
}

/// The first `n` arms of a `match` on the value in `local`, each emitted as
/// one branch of an `if` chain that sets `output`: the first arm opens it,
/// the last of several closes it with `else`.
pub open spec fn lua_arms(
    vars: Seq<Option<Var>>,
    externs: Seq<Option<Extern>>,
    s: LuaState,
    local: Seq<char>,
    output: Seq<char>,
    arms: Seq<Arm>,
    n: nat,
) -> Option<LuaState>
    decreases arms, 1nat, n,
{
    if n == 0 || n > arms.len() {
        if n == 0 {
            Some(s)
        } else {
            None
        }
    } else {
        let i = (n - 1) as nat;
        match lua_arms(vars, externs, s, local, output, arms, i) {
            Some(s1) => match bound_pat(s1.vars, arms[i as int].pat, local) {
                Some(m) => {
                    let s2 = rebound(s1, m);
                    let len = s2.stmts.len();
                    match lua_expr(vars, externs, s2, arms[i as int].expr) {
                        Some((body, s3)) => {
                            let s4 = emitted(s3, output + " = "@ + body);
                            let text = scope_text(s4, len);
                            let s5 = closed_scope(s4, len);
                            if i == 0 {
                                match checked_pat(arms[i as int].pat, local) {
                                    Some(c) => Some(emitted(s5, "if "@ + c + " then "@ + text)),
                                    None => None,
                                }
                            } else if i == arms.len() - 1 {
                                Some(emitted(s5, "else "@ + text + " end"@))
                            } else {
                                match checked_pat(arms[i as int].pat, local) {
                                    Some(c) => Some(
                                        emitted(s5, "elseif "@ + c + " then "@ + text),
                                    ),
                                    None => None,
                                }
                            }
                        },
                        None => None,
                    }
                },
                None => None,
            },
            None => None,
        }
    }
}

/// The decimal digit `d`.
fn digit(d: usize) -> (r: char)
    requires
        d < 10,
    ensures
        r == digit_char(d as nat),
{
    if d == 0 {
        '0'
    } else if d == 1 {
        '1'
    } else if d == 2 {
        '2'
    } else if d == 3 {
        '3'
    } else if d == 4 {
        '4'
    } else if d == 5 {
        '5'
    } else if d == 6 {
        '6'
    } else if d == 7 {
        '7'
    } else if d == 8 {
        '8'
    } else {
        '9'
    }
}

/// `n` in decimal, without leading zeros.
pub fn decimal_text(n: usize) -> (r: String)
    ensures
        r@ == decimal(n as nat),
    decreases n,
{
    if n < 10 {
        char_string(digit(n))
    } else {
        let mut t = decimal_text(n / 10);
        push_char(&mut t, digit(n % 10));
        t
    }
}

/// `s` with every occurrence of the single character `c` replaced by a
/// backslash and `e`.
fn escape_char(s: &Vec<char>, c: char, e: char) -> (r: Vec<char>)
    ensures
        r@ == replace_all(s@, seq![c], seq!['\\', e]),
{
    let pat = [c];
    let rep = ['\\', e];
    assert(pat@ =~= seq![c]);
    assert(rep@ =~= seq!['\\', e]);
    replace_all_chars(s, &pat, &rep)
}

/// A string's text inside Lua double quotes.
pub fn lua_escape(s: &str) -> (r: String)
    ensures
        r@ == lua_escaped(s@),
{
    let c0 = chars_of(s);
    let c1 = escape_char(&c0, '\n', 'n');
    let c2 = escape_char(&c1, '\t', 't');
    let c3 = escape_char(&c2, '\r', 'r');
    let c4 = escape_char(&c3, '\0', '0');
    let c5 = escape_char(&c4, '"', '"');
    let c6 = escape_char(&c5, '\\', '\\');
    string_of(c6.as_slice())
}

/// The texts of a sequence of strings.
pub open spec fn texts(v: Seq<String>) -> Seq<Seq<char>> {
    v.map_values(|t: String| t@)
}

/// The texts of a map of strings.
pub open spec fn text_map(m: Map<usize, String>) -> Map<usize, Seq<char>> {
    m.map_values(|t: String| t@)
}

/// A copy of `s`.
fn copy_text(s: &String) -> (r: String)
    ensures
        r@ == s@,
{
    String::from_str(s.as_str())
}

/// The code generator of one program.
struct Codegen<'a> {
    program: &'a Program,
    locals: usize,
    vars: HashMap<usize, String>,
    stmts: Vec<String>,
}

impl<'a> View for Codegen<'a> {
    type V = LuaState;

    closed spec fn view(&self) -> LuaState {
        LuaState {
            locals: self.locals as nat,
            vars: text_map(self.vars@),
            stmts: texts(self.stmts@),
        }
    }
}

impl<'a> Codegen<'a> {
    fn new(program: &'a Program) -> (r: Self)
        ensures
            r.program == program,
            r@ == fresh_state(),
    {
        let r = Codegen { program, locals: 0, vars: HashMap::new(), stmts: Vec::new() };
        assert(r@.vars =~= Map::<usize, Seq<char>>::empty());
        assert(r@.stmts =~= Seq::<Seq<char>>::empty());
        r
    }

    /// Hands out the next local; `None` where the count would pass what
    /// `usize` holds.
    fn add_local(&mut self) -> (r: Option<String>)
        ensures
            final(self).program == old(self).program,
            r is Some <==> old(self)@.locals < usize::MAX,
            r matches Some(t) ==> t@ == local_name(old(self)@.locals) && final(self)@ == bumped(
                old(self)@,
            ),
    {
        if self.locals == usize::MAX {
            return None;
        }
        let n = decimal_text(self.locals);
        let local = String::from_str("local").concat(n.as_str());
        self.locals = self.locals + 1;
        Some(local)
    }

    /// Emits statement `stmt`.
    fn emit(&mut self, stmt: String)
        ensures
            final(self).program == old(self).program,
            final(self)@ == emitted(old(self)@, stmt@),
    {
        let ghost before = self.stmts@;
        self.stmts.push(stmt);
        assert(texts(self.stmts@) =~= texts(before).push(stmt@));
    }

    /// Takes away the statements from the `len`-th on and gives them back
    /// separated by spaces.
    fn pop_scope(&mut self, len: usize) -> (r: String)
        requires
            len <= old(self)@.stmts.len(),
        ensures
            final(self).program == old(self).program,
            r@ == scope_text(old(self)@, len as nat),
            final(self)@ == closed_scope(old(self)@, len as nat),
    {
        let ghost parts = texts(self.stmts@).skip(len as int);
        let mut f = String::new();
        let mut i: usize = len;
        assert(parts.take(0) =~= Seq::<Seq<char>>::empty());
        while i < self.stmts.len()
            invariant
                len <= i <= self.stmts@.len(),
                parts == texts(self.stmts@).skip(len as int),
                f@ == join(parts.take(i - len), " "@),
            decreases self.stmts@.len() - i,
        {
            let ghost k = (i - len) as int;
            assert(parts[k] == self.stmts@[i as int]@);
            assert(parts.take(k + 1).drop_last() =~= parts.take(k));
            if i == len {
                f = copy_text(&self.stmts[i]);
                assert(parts.take(1) =~= seq![parts[0]]);
            } else {
                f = f.concat(" ").concat(self.stmts[i].as_str());
            }
            i = i + 1;
        }
        assert(parts.take(parts.len() as int) =~= parts);
        let ghost before = self.stmts@;
        self.stmts.truncate(len);
        assert(texts(self.stmts@) =~= texts(before).take(len as int));
        f
    }
}

/// What a call that gives code or stops gave, with the state after it.
pub open spec fn outcome(r: Option<String>, s: LuaState) -> Option<(Seq<char>, LuaState)> {
    match r {
        Some(t) => Some((t@, s)),
        None => None,
    }
}

/// What a call that gives pieces of code or stops gave, with the state
/// after it.
pub open spec fn parts_outcome(r: Option<Vec<String>>, s: LuaState) -> Option<
    (Seq<Seq<char>>, LuaState),
> {
    match r {
        Some(v) => Some((texts(v@), s)),
        None => None,
    }
}

/// What a call that succeeds or stops gave, with the state after it.
pub open spec fn state_outcome(ok: bool, s: LuaState) -> Option<LuaState> {
    if ok {
        Some(s)
    } else {
        None
    }
}

/// The text of a string that may be missing.
pub open spec fn opt_text(r: Option<String>) -> Option<Seq<char>> {
    match r {
        Some(t) => Some(t@),
        None => None,
    }
}

proof fn lemma_bound_fields_stops(
    vars: Map<usize, Seq<char>>,
    fields: Seq<Pat>,
    n: nat,
    m: nat,
    input: Seq<char>,
)
    requires
        n <= m <= fields.len(),
        bound_fields(vars, fields, n, input) is None,
    ensures
        bound_fields(vars, fields, m, input) is None,
    decreases m - n,
{
    if n < m {
        lemma_bound_fields_stops(vars, fields, n, (m - 1) as nat, input);
    }
}

proof fn lemma_checked_fields_stops(fields: Seq<Pat>, n: nat, m: nat, input: Seq<char>)
    requires
        n <= m <= fields.len(),
        checked_fields(fields, n, input) is None,
    ensures
        checked_fields(fields, m, input) is None,
    decreases m - n,
{
    if n < m {
        lemma_checked_fields_stops(fields, n, (m - 1) as nat, input);
    }
}

proof fn lemma_exprs_stop(
    vars: Seq<Option<Var>>,
    externs: Seq<Option<Extern>>,
    s: LuaState,
    es: Seq<Expr>,
    n: nat,
    m: nat,
)
    requires
        n <= m <= es.len(),
        lua_exprs(vars, externs, s, es, n) is None,
    ensures
        lua_exprs(vars, externs, s, es, m) is None,
    decreases m - n,
{
    if n < m {
        lemma_exprs_stop(vars, externs, s, es, n, (m - 1) as nat);
    }
}

proof fn lemma_record_fields_stop(
    vars: Seq<Option<Var>>,
    externs: Seq<Option<Extern>>,
    s: LuaState,
    fields: Seq<ExprField>,
    n: nat,
    m: nat,
)
    requires
        n <= m <= fields.len(),
        lua_record_fields(vars, externs, s, fields, n) is None,
    ensures
        lua_record_fields(vars, externs, s, fields, m) is None,
    decreases m - n,
{
    if n < m {
        lemma_record_fields_stop(vars, externs, s, fields, n, (m - 1) as nat);
    }
}

proof fn lemma_with_fields_stop(
    vars: Seq<Option<Var>>,
    externs: Seq<Option<Extern>>,
    s: LuaState,
    local: Seq<char>,
    fields: Seq<ExprField>,
    n: nat,
    m: nat,
)
    requires
        n <= m <= fields.len(),
        lua_with_fields(vars, externs, s, local, fields, n) is None,
    ensures
        lua_with_fields(vars, externs, s, local, fields, m) is None,
    decreases m - n,
{
    if n < m {
        lemma_with_fields_stop(vars, externs, s, local, fields, n, (m - 1) as nat);
    }
}

proof fn lemma_arms_stop(
    vars: Seq<Option<Var>>,
    externs: Seq<Option<Extern>>,
    s: LuaState,
    local: Seq<char>,
    output: Seq<char>,
    arms: Seq<Arm>,
    n: nat,
    m: nat,
)
    requires
        n <= m <= arms.len(),
        lua_arms(vars, externs, s, local, output, arms, n) is None,
    ensures
        lua_arms(vars, externs, s, local, output, arms, m) is None,
    decreases m - n,
{
    if n < m {
        lemma_arms_stop(vars, externs, s, local, output, arms, n, (m - 1) as nat);
    }
}

/// The pieces `parts` separated by `sep`.
fn join_texts(parts: &Vec<String>, sep: &str) -> (r: String)
    ensures
        r@ == join(texts(parts@), sep@),
{
    let ghost ps = texts(parts@);
    let mut f = String::new();
    let mut i: usize = 0;
    assert(ps.take(0) =~= Seq::<Seq<char>>::empty());
    while i < parts.len()
        invariant
            i <= parts@.len(),
            ps == texts(parts@),
            f@ == join(ps.take(i as int), sep@),
        decreases parts@.len() - i,
    {
        assert(ps[i as int] == parts@[i as int]@);
        assert(ps.take(i + 1).drop_last() =~= ps.take(i as int));
        if i == 0 {
            f = copy_text(&parts[i]);
            assert(ps.take(1) =~= seq![ps[0]]);
        } else {
            f = f.concat(sep).concat(parts[i].as_str());
        }
        i = i + 1;
    }
    assert(ps.take(ps.len() as int) =~= ps);
    f
}

/// The Lua test that a value read as `input` matches `pat`.
fn check(pat: &Pat, input: &String) -> (r: Option<String>)
    ensures
        opt_text(r) == checked_pat(*pat, input@),
    decreases pat,
{
    match pat {
        Pat::Wild(..) | Pat::Bind(..) => Some(String::from_str("true")),
        Pat::Str(x) => {
            let e = lua_escape(x.string);
            Some(copy_text(input).concat(" == \"").concat(e.as_str()).concat("\""))
        },
        Pat::Variant(v) => {
            if str_eq(v.name, "true") && v.payload.is_none() {
                return Some(copy_text(input));
            } else if str_eq(v.name, "false") && v.payload.is_none() {
                return Some(String::from_str("not ").concat(input.as_str()));
            }
            match &v.payload {
                Some(payload) => {
                    let inner = copy_text(input).concat("['payload']");
                    match check(payload, &inner) {
                        Some(c) => Some(
                            copy_text(input).concat("['variant'] == \"").concat(v.name).concat(
                                "\" and ",
                            ).concat(c.as_str()),
                        ),
                        None => None,
                    }
                },
                None => Some(
                    copy_text(input).concat("['variant'] == \"").concat(v.name).concat("\""),
                ),
            }
        },
        Pat::Tuple(t) => {
            let mut parts: Vec<String> = Vec::new();
            let mut i: usize = 0;
            while i < t.fields.len()
                invariant
                    *pat == Pat::Tuple(*t),
                    i <= t.fields@.len(),
                    checked_fields(t.fields@, i as nat, input@) == Some(texts(parts@)),
                decreases t.fields@.len() - i,
            {
                proof {
                    assert(decreases_to!(*pat => t.fields@[i as int]));
                }
                let idx = decimal_text(i + 1);
                let inner = copy_text(input).concat("[").concat(idx.as_str()).concat("]");
                match check(&t.fields[i], &inner) {
                    Some(c) => {
                        let ghost before = parts@;
                        parts.push(c);
                        assert(texts(parts@) =~= texts(before).push(c@));
                    },
                    None => {
                        proof {
                            lemma_checked_fields_stops(
                                t.fields@,
                                (i + 1) as nat,
                                t.fields@.len(),
                                input@,
                            );
                        }
                        return None;
                    },
                }
                i = i + 1;
            }
            Some(join_texts(&parts, " and "))
        },
        Pat::Error(..) => None,
    }
}

impl<'a> Codegen<'a> {
    /// Binds the variables of `pat` to the value read as `input`.
    fn bind(&mut self, pat: &Pat, input: String) -> (ok: bool)
        ensures
            final(self).program == old(self).program,
            state_outcome(ok, final(self)@) == match bound_pat(old(self)@.vars, *pat, input@) {
                Some(m) => Some(rebound(old(self)@, m)),
                None => None,
            },
        decreases pat,
    {
        match pat {
            Pat::Wild(..) | Pat::Str(..) => true,
            Pat::Bind(b) => {
                let k = b.var.index();
                let ghost before = self.vars@;
                let ghost t = input@;
                self.vars.insert(k, input);
                assert(text_map(self.vars@) =~= text_map(before).insert(k, t));
                true
            },
            Pat::Variant(v) => match &v.payload {
                Some(payload) => self.bind(payload, input.concat("['payload']")),
                None => true,
            },
            Pat::Tuple(t) => {
                let ghost s0 = self@;
                let mut i: usize = 0;
                while i < t.fields.len()
                    invariant
                        *pat == Pat::Tuple(*t),
                        i <= t.fields@.len(),
                        self.program == old(self).program,
                        s0 == old(self)@,
                        bound_fields(s0.vars, t.fields@, i as nat, input@) == Some(self@.vars),
                        self@ == rebound(s0, self@.vars),
                    decreases t.fields@.len() - i,
                {
                    proof {
                        assert(decreases_to!(*pat => t.fields@[i as int]));
                    }
                    let idx = decimal_text(i + 1);
                    let inner = copy_text(&input).concat("[").concat(idx.as_str()).concat("]");
                    if !self.bind(&t.fields[i], inner) {
                        proof {
                            lemma_bound_fields_stops(
                                s0.vars,
                                t.fields@,
                                (i + 1) as nat,
                                t.fields@.len(),
                                input@,
                            );
                        }
                        return false;
                    }
                    i = i + 1;
                }
                true
            },
            Pat::Error(..) => false,
        }
    }
}

impl<'a> Codegen<'a> {
    /// The code of the first `n` expressions of `es`, one after another.
    fn exprs(&mut self, es: &Vec<Expr>, n: usize) -> (r: Option<Vec<String>>)
        requires
            n <= es@.len(),
        ensures
            final(self).program == old(self).program,
            parts_outcome(r, final(self)@) == lua_exprs(
                old(self).program.vars@,
                old(self).program.externs@,
                old(self)@,
                es@,
                n as nat,
            ),
            r is Some ==> old(self)@.stmts.len() <= final(self)@.stmts.len(),
            r matches Some(v) ==> v@.len() == n,
        decreases es, 0nat,
    {
        let ghost vars = self.program.vars@;
        let ghost externs = self.program.externs@;
        let ghost s0 = self@;
        let mut parts: Vec<String> = Vec::new();
        let mut i: usize = 0;
        while i < n
            invariant
                i <= n <= es@.len(),
                self.program == old(self).program,
                vars == self.program.vars@,
                externs == self.program.externs@,
                s0 == old(self)@,
                lua_exprs(vars, externs, s0, es@, i as nat) == Some((texts(parts@), self@)),
                parts@.len() == i,
                s0.stmts.len() <= self@.stmts.len(),
            decreases n - i,
        {
            proof {
                assert(decreases_to!(es => es@[i as int]));
            }
            match self.expr(&es[i]) {
                Some(code) => {
                    let ghost before = parts@;
                    parts.push(code);
                    assert(texts(parts@) =~= texts(before).push(code@));
                },
                None => {
                    proof {
                        lemma_exprs_stop(vars, externs, s0, es@, (i + 1) as nat, n as nat);
                    }
                    return None;
                },
            }
            i = i + 1;
        }
        Some(parts)
    }

    /// The fields of a record, each as `name = code`.
    fn record_fields(&mut self, fields: &Vec<ExprField>) -> (r: Option<Vec<String>>)
        ensures
            final(self).program == old(self).program,
            parts_outcome(r, final(self)@) == lua_record_fields(
                old(self).program.vars@,
                old(self).program.externs@,
                old(self)@,
                fields@,
                fields@.len(),
            ),
            r is Some ==> old(self)@.stmts.len() <= final(self)@.stmts.len(),
        decreases fields, 0nat,
    {
        let ghost vars = self.program.vars@;
        let ghost externs = self.program.externs@;
        let ghost s0 = self@;
        let mut parts: Vec<String> = Vec::new();
        let mut i: usize = 0;
        while i < fields.len()
            invariant
                i <= fields@.len(),
                self.program == old(self).program,
                vars == self.program.vars@,
                externs == self.program.externs@,
                s0 == old(self)@,
                lua_record_fields(vars, externs, s0, fields@, i as nat) == Some(
                    (texts(parts@), self@),
                ),
                s0.stmts.len() <= self@.stmts.len(),
            decreases fields@.len() - i,
        {
            proof {
                assert(decreases_to!(fields => fields@[i as int].expr));
            }
            let field = &fields[i];
            match self.expr(&field.expr) {
                Some(code) => {
                    let part = String::from_str(field.name).concat(" = ").concat(code.as_str());
                    let ghost before = parts@;
                    parts.push(part);
                    assert(texts(parts@) =~= texts(before).push(part@));
                },
                None => {
                    proof {
                        lemma_record_fields_stop(
                            vars,
                            externs,
                            s0,
                            fields@,
                            (i + 1) as nat,
                            fields@.len(),
                        );
                    }
                    return None;
                },
            }
            i = i + 1;
        }
        Some(parts)
    }

    /// The fields of a `with` expression, each emitted as a statement that
    /// sets the field of the copy `local`.
    fn with_fields(&mut self, local: &String, fields: &Vec<ExprField>) -> (ok: bool)
        ensures
            final(self).program == old(self).program,
            state_outcome(ok, final(self)@) == lua_with_fields(
                old(self).program.vars@,
                old(self).program.externs@,
                old(self)@,
                local@,
                fields@,
                fields@.len(),
            ),
            ok ==> old(self)@.stmts.len() <= final(self)@.stmts.len(),
        decreases fields, 0nat,
    {
        let ghost vars = self.program.vars@;
        let ghost externs = self.program.externs@;
        let ghost s0 = self@;
        let mut i: usize = 0;
        while i < fields.len()
            invariant
                i <= fields@.len(),
                self.program == old(self).program,
                vars == self.program.vars@,
                externs == self.program.externs@,
                s0 == old(self)@,
                lua_with_fields(vars, externs, s0, local@, fields@, i as nat) == Some(self@),
                s0.stmts.len() <= self@.stmts.len(),
            decreases fields@.len() - i,
        {
            proof {
                assert(decreases_to!(fields => fields@[i as int].expr));
            }
            let field = &fields[i];
            match self.expr(&field.expr) {
                Some(code) => {
                    let stmt = copy_text(local).concat(".").concat(field.name).concat(" = ").concat(
                        code.as_str(),
                    );
                    self.emit(stmt);
                },
                None => {
                    proof {
                        lemma_with_fields_stop(
                            vars,
                            externs,
                            s0,
                            local@,
                            fields@,
                            (i + 1) as nat,
                            fields@.len(),
                        );
                    }
                    return false;
                },
            }
            i = i + 1;
        }
        true
    }

    /// The arms of a `match` on the value in `local`, emitted as an `if`
    /// chain that sets `output`.
    fn arms(&mut self, local: &String, output: &String, arms: &Vec<Arm>) -> (ok: bool)
        ensures
            final(self).program == old(self).program,
            state_outcome(ok, final(self)@) == lua_arms(
                old(self).program.vars@,
                old(self).program.externs@,
                old(self)@,
                local@,
                output@,
                arms@,
                arms@.len(),
            ),
            ok ==> old(self)@.stmts.len() <= final(self)@.stmts.len(),
        decreases arms, 0nat,
    {
        let ghost vars = self.program.vars@;
        let ghost externs = self.program.externs@;
        let ghost s0 = self@;
        let mut i: usize = 0;
        while i < arms.len()
            invariant
                i <= arms@.len(),
                self.program == old(self).program,
                vars == self.program.vars@,
                externs == self.program.externs@,
                s0 == old(self)@,
                lua_arms(vars, externs, s0, local@, output@, arms@, i as nat) == Some(self@),
                s0.stmts.len() <= self@.stmts.len(),
            decreases arms@.len() - i,
        {
            proof {
                assert(decreases_to!(arms => arms@[i as int].expr));
            }
            let arm = &arms[i];
            let ghost s1 = self@;
            if !self.bind(&arm.pat, copy_text(local)) {
                proof {
                    lemma_arms_stop(
                        vars,
                        externs,
                        s0,
                        local@,
                        output@,
                        arms@,
                        (i + 1) as nat,
                        arms@.len(),
                    );
                }
                return false;
            }
            let len = self.stmts.len();
            let body = match self.expr(&arm.expr) {
                Some(code) => code,
                None => {
                    proof {
                        lemma_arms_stop(
                            vars,
                            externs,
                            s0,
                            local@,
                            output@,
                            arms@,
                            (i + 1) as nat,
                            arms@.len(),
                        );
                    }
                    return false;
                },
            };
            self.emit(copy_text(output).concat(" = ").concat(body.as_str()));
            let text = self.pop_scope(len);
            if i == 0 {
                match check(&arm.pat, local) {
                    Some(c) => {
                        self.emit(
                            String::from_str("if ").concat(c.as_str()).concat(" then ").concat(
                                text.as_str(),
                            ),
                        );
                    },
                    None => {
                        proof {
                            lemma_arms_stop(
                                vars,
                                externs,
                                s0,
                                local@,
                                output@,
                                arms@,
                                (i + 1) as nat,
                                arms@.len(),
                            );
                        }
                        return false;
                    },
                }
            } else if i == arms.len() - 1 {
                self.emit(String::from_str("else ").concat(text.as_str()).concat(" end"));
            } else {
                match check(&arm.pat, local) {
                    Some(c) => {
                        self.emit(
                            String::from_str("elseif ").concat(c.as_str()).concat(" then ").concat(
                                text.as_str(),
                            ),
                        );
                    },
                    None => {
                        proof {
                            lemma_arms_stop(
                                vars,
                                externs,
                                s0,
                                local@,
                                output@,
                                arms@,
                                (i + 1) as nat,
                                arms@.len(),
                            );
                        }
                        return false;
                    },
                }
            }
            i = i + 1;
        }
        true
    }

    /// The Lua code of `expr`, emitting the statements it needs first.
    #[verifier::rlimit(80)]
    fn expr(&mut self, expr: &Expr) -> (r: Option<String>)
        ensures
            final(self).program == old(self).program,
            outcome(r, final(self)@) == lua_expr(
                old(self).program.vars@,
                old(self).program.externs@,
                old(self)@,
                *expr,
            ),
            r is Some ==> old(self)@.stmts.len() <= final(self)@.stmts.len(),
        decreases expr, 0nat,
    {
        let program = self.program;
        match expr {
            Expr::Value(x) => match &x.value {
                Value::Num(digits) => Some(String::from_str(digits)),
                Value::Str(t) => {
                    let e = lua_escape(t.as_str());
                    Some(String::from_str("\"").concat(e.as_str()).concat("\""))
                },
            },
            Expr::Var(x) => match program.vars.get(x.var) {
                Some(var) => match var.kind {
                    VarKind::Extern(id) => match program.externs.get(id) {
                        Some(ext) => Some(String::from_str("extern['").concat(ext.id).concat("']")),
                        None => None,
                    },
                    VarKind::Global(..) | VarKind::Local => {
                        let k = x.var.index();
                        match self.vars.get(&k) {
                            Some(t) => Some(copy_text(t)),
                            None => None,
                        }
                    },
                },
                None => None,
            },
            Expr::Let(x) => {
                let input = match self.expr(&x.input) {
                    Some(t) => t,
                    None => return None,
                };
                let local = match self.add_local() {
                    Some(t) => t,
                    None => return None,
                };
                self.emit(
                    String::from_str("local ").concat(local.as_str()).concat(" = ").concat(
                        input.as_str(),
                    ),
                );
                if !self.bind(&x.pat, local) {
                    return None;
                }
                self.expr(&x.output)
            },
            Expr::Bind(x) => {
                let input = match self.expr(&x.input) {
                    Some(t) => t,
                    None => return None,
                };
                let len = self.stmts.len();
                let local = match self.add_local() {
                    Some(t) => t,
                    None => return None,
                };
                self.emit(
                    String::from_str("local ").concat(local.as_str()).concat(" = ").concat(
                        input.as_str(),
                    ),
                );
                if !self.bind(&x.pat, local) {
                    return None;
                }
                let output = match self.expr(&x.output) {
                    Some(t) => t,
                    None => return None,
                };
                let stmts = self.pop_scope(len);
                Some(
                    String::from_str("function() ").concat(stmts.as_str()).concat(" return ").concat(
                        output.as_str(),
                    ).concat(" end"),
                )
            },
            Expr::Pure(x) => match self.expr(&x.input) {
                Some(input) => Some(
                    String::from_str("function() return ").concat(input.as_str()).concat(" end"),
                ),
                None => None,
            },
            Expr::Call(x) => {
                let lambda = match self.expr(&x.lambda) {
                    Some(t) => t,
                    None => return None,
                };
                let input = match self.expr(&x.input) {
                    Some(t) => t,
                    None => return None,
                };
                Some(
                    String::from_str("(").concat(lambda.as_str()).concat(")(").concat(
                        input.as_str(),
                    ).concat(")"),
                )
            },
            Expr::With(x) => {
                let input = match self.expr(&x.input) {
                    Some(t) => t,
                    None => return None,
                };
                let local = match self.add_local() {
                    Some(t) => t,
                    None => return None,
                };
                self.emit(
                    String::from_str("local ").concat(local.as_str()).concat(" = copy(").concat(
                        input.as_str(),
                    ).concat(")"),
                );
                if !self.with_fields(&local, &x.fields) {
                    return None;
                }
                Some(local)
            },
            Expr::Field(x) => match self.expr(&x.input) {
                Some(input) => Some(input.concat(".").concat(x.name)),
                None => None,
            },
            Expr::Lambda(x) => {
                let local = match self.add_local() {
                    Some(t) => t,
                    None => return None,
                };
                if !self.bind(&x.input, copy_text(&local)) {
                    return None;
                }
                let len = self.stmts.len();
                let output = match self.expr(&x.output) {
                    Some(t) => t,
                    None => return None,
                };
                let stmts = self.pop_scope(len);
                Some(
                    String::from_str("function(").concat(local.as_str()).concat(") ").concat(
                        stmts.as_str(),
                    ).concat(" return ").concat(output.as_str()).concat(" end"),
                )
            },
            Expr::Variant(x) => match &x.payload {
                Some(payload) => match self.expr(payload) {
                    Some(p) => Some(
                        String::from_str("{ ['variant'] = \"").concat(x.name).concat(
                            "\", ['payload'] = ",
                        ).concat(p.as_str()).concat(" }"),
                    ),
                    None => None,
                },
                None => {
                    if str_eq(x.name, "true") {
                        Some(String::from_str("true"))
                    } else if str_eq(x.name, "false") {
                        Some(String::from_str("false"))
                    } else {
                        Some(
                            String::from_str("{ ['variant'] = \"").concat(x.name).concat("\" }"),
                        )
                    }
                },
            },
            Expr::Record(x) => match self.record_fields(&x.fields) {
                Some(parts) => {
                    let inner = join_texts(&parts, ", ");
                    Some(String::from_str("{ ").concat(inner.as_str()).concat(" }"))
                },
                None => None,
            },
            Expr::Binary(x) => {
                let lhs = match self.expr(&x.lhs) {
                    Some(t) => t,
                    None => return None,
                };
                let rhs = match self.expr(&x.rhs) {
                    Some(t) => t,
                    None => return None,
                };
                Some(binary_text(x.op, &lhs, &rhs))
            },
            Expr::Tuple(x) => match self.exprs(&x.fields, x.fields.len()) {
                Some(parts) => {
                    let inner = join_texts(&parts, ", ");
                    Some(String::from_str("{ ").concat(inner.as_str()).concat(" }"))
                },
                None => None,
            },
            Expr::Match(x) => {
                let input = match self.expr(&x.input) {
                    Some(t) => t,
                    None => return None,
                };
                let local = match self.add_local() {
                    Some(t) => t,
                    None => return None,
                };
                self.emit(
                    String::from_str("local ").concat(local.as_str()).concat(" = ").concat(
                        input.as_str(),
                    ),
                );
                let output = match self.add_local() {
                    Some(t) => t,
                    None => return None,
                };
                self.emit(String::from_str("local ").concat(output.as_str()));
                if !self.arms(&local, &output, &x.arms) {
                    return None;
                }
                Some(output)
            },
            Expr::Intrinsic(x) => {
                let k: usize = match x.intrinsic {
                    Intrinsic::Trace => return None,
                    Intrinsic::NatXor | Intrinsic::StrPrepend | Intrinsic::StrSplitAt
                    | Intrinsic::StrFind => 2,
                    _ => 1,
                };
                if k > x.inputs.len() {
                    return None;
                }
                match self.exprs(&x.inputs, k) {
                    Some(parts) => Some(intrinsic_text(x.intrinsic, &parts)),
                    None => None,
                }
            },
            _ => None,
        }
    }
}

/// The Lua operator of a binary expression around the code of its sides.
fn binary_text(op: BinOp, l: &String, r: &String) -> (t: String)
    ensures
        t@ == binary_code(op, l@, r@),
{
    let (open, mid, close) = match op {
        BinOp::Add => ("(", " + ", ")"),
        BinOp::Sub => ("(", " - ", ")"),
        BinOp::Mul => ("(", " * ", ")"),
        BinOp::Div => ("(", " / ", ")"),
        BinOp::Gt => ("(", " > ", ")"),
        BinOp::Lt => ("(", " < ", ")"),
        BinOp::Ge => ("(", " >= ", ")"),
        BinOp::Le => ("(", " <= ", ")"),
        BinOp::And => ("(", " and ", ")"),
        BinOp::Or => ("(", " or ", ")"),
        BinOp::Eq => ("eq(", ", ", ")"),
        BinOp::Ne => ("ne(", ", ", ")"),
    };
    String::from_str(open).concat(l.as_str()).concat(mid).concat(r.as_str()).concat(close)
}

/// The Lua code of an intrinsic applied to the code of its inputs.
fn intrinsic_text(i: Intrinsic, a: &Vec<String>) -> (t: String)
    requires
        intrinsic_arity(i) matches Some(k) && k <= a@.len(),
    ensures
        t@ == intrinsic_code(i, texts(a@)),
{
    let ghost ts = texts(a@);
    assert(ts[0] == a@[0]@);
    match i {
        Intrinsic::Dynamic => String::from_str("dynamic(").concat(a[0].as_str()).concat(")"),
        Intrinsic::FormatNat | Intrinsic::FormatInt | Intrinsic::FormatReal => String::from_str(
            "tostring(",
        ).concat(a[0].as_str()).concat(")"),
        Intrinsic::HashStr => String::from_str("hashstr(").concat(a[0].as_str()).concat(")"),
        Intrinsic::HashNat | Intrinsic::HashInt | Intrinsic::HashReal => String::from_str(
            "hashnum(",
        ).concat(a[0].as_str()).concat(")"),
        Intrinsic::NatXor => {
            assert(ts[1] == a@[1]@);
            copy_text(&a[0]).concat(" ^ ").concat(a[1].as_str())
        },
        Intrinsic::StrLength => String::from_str("strlength(").concat(a[0].as_str()).concat(")"),
        Intrinsic::StrPrepend => {
            assert(ts[1] == a@[1]@);
            copy_text(&a[0]).concat(" .. ").concat(a[1].as_str())
        },
        Intrinsic::StrSplitAt => {
            assert(ts[1] == a@[1]@);
            String::from_str("strsplitat(").concat(a[0].as_str()).concat(", ").concat(
                a[1].as_str(),
            ).concat(")")
        },
        Intrinsic::StrFind => {
            assert(ts[1] == a@[1]@);
            String::from_str("strfind(").concat(a[0].as_str()).concat(", ").concat(
                a[1].as_str(),
            ).concat(")")
        },
        Intrinsic::Trace => String::new(),
    }
}

/// The Lua name of the global in slot `index`.
pub open spec fn global_slot(index: nat) -> Seq<char> {
    "global["@ + decimal(index) + "]"@
}

/// The variables the patterns of the globals in the first `n` of the slots
/// `idxs` bind, each to its global's Lua name.
pub open spec fn bound_globals(
    vars: Map<usize, Seq<char>>,
    globals: Seq<Option<Global>>,
    idxs: Seq<nat>,
    n: nat,
) -> Option<Map<usize, Seq<char>>>
    decreases n,
{
    if n == 0 || n > idxs.len() {
        if n == 0 {
            Some(vars)
        } else {
            None
        }
    } else {
        match bound_globals(vars, globals, idxs, (n - 1) as nat) {
            Some(m) => bound_pat(
                m,
                slot(globals, idxs[n - 1])->0.pat,
                global_slot(idxs[n - 1]),
            ),
            None => None,
        }
    }
}

/// The assignments of the globals in the first `n` of the slots `idxs`,
/// each followed by a space.
pub open spec fn lua_globals(
    vars: Seq<Option<Var>>,
    externs: Seq<Option<Extern>>,
    s: LuaState,
    globals: Seq<Option<Global>>,
    idxs: Seq<nat>,
    n: nat,
) -> Option<(Seq<char>, LuaState)>
    decreases n,
{
    if n == 0 || n > idxs.len() {
        if n == 0 {
            Some((Seq::empty(), s))
        } else {
            None
        }
    } else {
        match lua_globals(vars, externs, s, globals, idxs, (n - 1) as nat) {
            Some((text, s1)) => match lua_expr(vars, externs, s1, slot(globals, idxs[n - 1])->0.expr) {
                Some((code, s2)) => Some((text + global_slot(idxs[n - 1]) + " = "@ + code + " "@, s2)),
                None => None,
            },
            None => None,
        }
    }
}

/// The Lua program: the prelude, the assignment of every global (the
/// globals taken in the order of `ids`, their patterns bound first), and a
/// call of the function `main` reads as. `None` where code generation stops.
pub open spec fn lua_program(
    vars: Seq<Option<Var>>,
    externs: Seq<Option<Extern>>,
    globals: Seq<Option<Global>>,
    ids: Seq<Id<Global>>,
    main: Id<Var>,
    prelude: Seq<char>,
) -> Option<Seq<char>> {
    let idxs = ids.map_values(|id: Id<Global>| id.idx());
    match bound_globals(Map::empty(), globals, idxs, idxs.len()) {
        Some(m) => match lua_globals(vars, externs, rebound(fresh_state(), m), globals, idxs, idxs.len()) {
            Some((text, s)) => if s.vars.contains_key(main.idx() as usize) {
                Some(prelude + text + s.vars[main.idx() as usize] + "()"@)
            } else {
                None
            },
            None => None,
        },
        None => None,
    }
}

proof fn lemma_bound_globals_stop(
    vars: Map<usize, Seq<char>>,
    globals: Seq<Option<Global>>,
    idxs: Seq<nat>,
    n: nat,
    m: nat,
)
    requires
        n <= m <= idxs.len(),
        bound_globals(vars, globals, idxs, n) is None,
    ensures
        bound_globals(vars, globals, idxs, m) is None,
    decreases m - n,
{
    if n < m {
        lemma_bound_globals_stop(vars, globals, idxs, n, (m - 1) as nat);
    }
}

proof fn lemma_globals_stop(
    vars: Seq<Option<Var>>,
    externs: Seq<Option<Extern>>,
    s: LuaState,
    globals: Seq<Option<Global>>,
    idxs: Seq<nat>,
    n: nat,
    m: nat,
)
    requires
        n <= m <= idxs.len(),
        lua_globals(vars, externs, s, globals, idxs, n) is None,
    ensures
        lua_globals(vars, externs, s, globals, idxs, m) is None,
    decreases m - n,
{
    if n < m {
        lemma_globals_stop(vars, externs, s, globals, idxs, n, (m - 1) as nat);
    }
}

/// The Lua name of the global `id`.
fn global_name(id: Id<Global>) -> (r: String)
    ensures
        r@ == global_slot(id.idx()),
{
    let n = decimal_text(id.index());
    String::from_str("global[").concat(n.as_str()).concat("]")
}

/// The program as Lua source, after `prelude`: every global assigned, then
/// `main` called. `None` where code generation stops (see `lua_expr`), or
/// where `main` is not bound by the pattern of a global.
pub fn codegen(program: &Program, main: Id<Var>, prelude: &str) -> (r: Option<String>)
    ensures
        forall|ids: Seq<Id<Global>>|
            #[trigger] filled_positions(program.globals@, ids) ==> opt_text(r) == lua_program(
                program.vars@,
                program.externs@,
                program.globals@,
                ids,
                main,
                prelude@,
            ),
{
    let ghost vars = program.vars@;
    let ghost externs = program.externs@;
    let ghost globals = program.globals@;
    let mut cg = Codegen::new(program);
    let pairs = program.globals.iter();
    let ghost ids0 = pairs@.map_values(|p: (Id<Global>, &Global)| p.0);
    let ghost idxs = ids0.map_values(|id: Id<Global>| id.idx());
    let ghost r: Option<String> = None;
    let mut i: usize = 0;
    while i < pairs.len()
        invariant
            cg.program == program,
            vars == program.vars@,
            externs == program.externs@,
            globals == program.globals@,
            ids0 == pairs@.map_values(|p: (Id<Global>, &Global)| p.0),
            idxs == ids0.map_values(|id: Id<Global>| id.idx()),
            filled_positions(globals, ids0),
            forall|k: int|
                0 <= k < pairs@.len() ==> Some(*(#[trigger] pairs@[k]).1) == globals[pairs@[k].0.idx() as int],
            i <= pairs@.len(),
            bound_globals(Map::empty(), globals, idxs, i as nat) == Some(cg@.vars),
            cg@ == rebound(fresh_state(), cg@.vars),
        decreases pairs@.len() - i,
    {
        let (id, global) = pairs[i];
        proof {
            assert(ids0[i as int] == id);
            assert(idxs[i as int] == id.idx());
            assert(Some(*global) == globals[id.idx() as int]);
            assert(slot(globals, id.idx()) == Some(*global));
        }
        let name = global_name(id);
        if !cg.bind(&global.pat, name) {
            proof {
                lemma_bound_globals_stop(Map::empty(), globals, idxs, (i + 1) as nat, idxs.len());
                assert forall|ids: Seq<Id<Global>>| #[trigger]
                    filled_positions(globals, ids) implies lua_program(
                    vars,
                    externs,
                    globals,
                    ids,
                    main,
                    prelude@,
                ) is None by {
                    law_filled_ids_unique(globals, ids0, ids);
                    assert(ids.map_values(|id: Id<Global>| id.idx()) =~= idxs);
                }
            }
            return None;
        }
        i = i + 1;
    }
    let ghost s0 = cg@;
    assert(idxs.len() == i);
    let mut body = String::new();
    i = 0;
    while i < pairs.len()
        invariant
            cg.program == program,
            vars == program.vars@,
            externs == program.externs@,
            globals == program.globals@,
            ids0 == pairs@.map_values(|p: (Id<Global>, &Global)| p.0),
            idxs == ids0.map_values(|id: Id<Global>| id.idx()),
            filled_positions(globals, ids0),
            forall|k: int|
                0 <= k < pairs@.len() ==> Some(*(#[trigger] pairs@[k]).1) == globals[pairs@[k].0.idx() as int],
            i <= pairs@.len(),
            lua_globals(vars, externs, s0, globals, idxs, i as nat) == Some((body@, cg@)),
            bound_globals(Map::empty(), globals, idxs, idxs.len()) == Some(s0.vars),
            s0 == rebound(fresh_state(), s0.vars),
        decreases pairs@.len() - i,
    {
        let (id, global) = pairs[i];
        proof {
            assert(ids0[i as int] == id);
            assert(idxs[i as int] == id.idx());
            assert(Some(*global) == globals[id.idx() as int]);
            assert(slot(globals, id.idx()) == Some(*global));
        }
        match cg.expr(&global.expr) {
            Some(code) => {
                let name = global_name(id);
                body = body.concat(name.as_str()).concat(" = ").concat(code.as_str()).concat(" ");
            },
            None => {
                proof {
                    lemma_globals_stop(vars, externs, s0, globals, idxs, (i + 1) as nat, idxs.len());
                    assert forall|ids: Seq<Id<Global>>| #[trigger]
                        filled_positions(globals, ids) implies lua_program(
                        vars,
                        externs,
                        globals,
                        ids,
                        main,
                        prelude@,
                    ) is None by {
                        law_filled_ids_unique(globals, ids0, ids);
                        assert(ids.map_values(|id: Id<Global>| id.idx()) =~= idxs);
                    }
                }
                return None;
            },
        }
        i = i + 1;
    }
    let k = main.index();
    let r = match cg.vars.get(&k) {
        Some(t) => Some(String::from_str(prelude).concat(body.as_str()).concat(t.as_str()).concat("()")),
        None => None,
    };
    proof {
        assert forall|ids: Seq<Id<Global>>| #[trigger]
            filled_positions(globals, ids) implies opt_text(r) == lua_program(
            vars,
            externs,
            globals,
            ids,
            main,
            prelude@,
        ) by {
            law_filled_ids_unique(globals, ids0, ids);
            assert(ids.map_values(|id: Id<Global>| id.idx()) =~= idxs);
            assert(idxs.len() == pairs@.len());
        }
    }
    r
}

/// Whether `t` holds the statements of `s` first, in order, and maybe more
/// after them, and has handed out at least the locals `s` had.
pub open spec fn extends(s: LuaState, t: LuaState) -> bool {
    &&& s.locals <= t.locals
    &&& s.stmts.len() <= t.stmts.len()
    &&& t.stmts.take(s.stmts.len() as int) == s.stmts
}

proof fn lemma_extends_trans(a: LuaState, b: LuaState, c: LuaState)
    requires
        extends(a, b),
        extends(b, c),
    ensures
        extends(a, c),
{
    assert(c.stmts.take(a.stmts.len() as int) =~= c.stmts.take(b.stmts.len() as int).take(
        a.stmts.len() as int,
    ));
}

proof fn lemma_emitted_extends(s: LuaState, stmt: Seq<char>)
    ensures
        extends(s, emitted(s, stmt)),
{
    assert(emitted(s, stmt).stmts.take(s.stmts.len() as int) =~= s.stmts);
}

/// Closing the scope opened at `s1` leaves the statements of `s1`.
proof fn lemma_closed_scope(s1: LuaState, s3: LuaState)
    requires
        extends(s1, s3),
    ensures
        closed_scope(s3, s1.stmts.len()).stmts == s1.stmts,
{
}

/// Code generation only adds statements: those emitted before stay, in
/// their order, ahead of any it emits. And it never takes a local back, so
/// the name of each local it hands out (see `law_local_names_distinct`) is
/// new.
pub proof fn law_code_keeps_earlier_statements(
    vars: Seq<Option<Var>>,
    externs: Seq<Option<Extern>>,
    s: LuaState,
    e: Expr,
)
    ensures
        lua_expr(vars, externs, s, e) matches Some((_, t)) ==> extends(s, t),
    decreases e, 0nat, 0nat,
{
    match e {
        Expr::Let(x) => {
            law_code_keeps_earlier_statements(vars, externs, s, *x.input);
            if let Some((input, s1)) = lua_expr(vars, externs, s, *x.input) {
                if s1.locals < usize::MAX {
                    let local = local_name(s1.locals);
                    let s2 = emitted(bumped(s1), "local "@ + local + " = "@ + input);
                    lemma_emitted_extends(bumped(s1), "local "@ + local + " = "@ + input);
                    lemma_extends_trans(s, s1, s2);
                    if let Some(m) = bound_pat(s2.vars, x.pat, local) {
                        law_code_keeps_earlier_statements(vars, externs, rebound(s2, m), *x.output);
                        if let Some((_, t)) = lua_expr(vars, externs, rebound(s2, m), *x.output) {
                            lemma_extends_trans(s, rebound(s2, m), t);
                        }
                    }
                }
            }
        },
        Expr::Bind(x) => {
            law_code_keeps_earlier_statements(vars, externs, s, *x.input);
            if let Some((input, s1)) = lua_expr(vars, externs, s, *x.input) {
                if s1.locals < usize::MAX {
                    let local = local_name(s1.locals);
                    let s2 = emitted(bumped(s1), "local "@ + local + " = "@ + input);
                    lemma_emitted_extends(bumped(s1), "local "@ + local + " = "@ + input);
                    if let Some(m) = bound_pat(s2.vars, x.pat, local) {
                        law_code_keeps_earlier_statements(vars, externs, rebound(s2, m), *x.output);
                        if let Some((_, t)) = lua_expr(vars, externs, rebound(s2, m), *x.output) {
                            lemma_extends_trans(s1, rebound(s2, m), t);
                            lemma_closed_scope(s1, t);
                            assert(closed_scope(t, s1.stmts.len()).stmts == s1.stmts);
                        }
                    }
                }
            }
        },
        Expr::Pure(x) => {
            law_code_keeps_earlier_statements(vars, externs, s, *x.input);
        },
        Expr::Call(x) => {
            law_code_keeps_earlier_statements(vars, externs, s, *x.lambda);
            if let Some((_, s1)) = lua_expr(vars, externs, s, *x.lambda) {
                law_code_keeps_earlier_statements(vars, externs, s1, *x.input);
                if let Some((_, s2)) = lua_expr(vars, externs, s1, *x.input) {
                    lemma_extends_trans(s, s1, s2);
                }
            }
        },
        Expr::With(x) => {
            law_code_keeps_earlier_statements(vars, externs, s, *x.input);
            if let Some((input, s1)) = lua_expr(vars, externs, s, *x.input) {
                if s1.locals < usize::MAX {
                    let local = local_name(s1.locals);
                    let s2 = emitted(bumped(s1), "local "@ + local + " = copy("@ + input + ")"@);
                    lemma_emitted_extends(bumped(s1), "local "@ + local + " = copy("@ + input + ")"@);
                    lemma_extends_trans(s, s1, s2);
                    lemma_with_fields_keep(vars, externs, s2, local, x.fields@, x.fields@.len());
                    if let Some(s3) = lua_with_fields(vars, externs, s2, local, x.fields@, x.fields@.len()) {
                        lemma_extends_trans(s, s2, s3);
                    }
                }
            }
        },
        Expr::Field(x) => {
            law_code_keeps_earlier_statements(vars, externs, s, *x.input);
        },
        Expr::Lambda(x) => {
            if s.locals < usize::MAX {
                let local = local_name(s.locals);
                let s1 = bumped(s);
                if let Some(m) = bound_pat(s1.vars, x.input, local) {
                    let s2 = rebound(s1, m);
                    law_code_keeps_earlier_statements(vars, externs, s2, *x.output);
                    if let Some((_, t)) = lua_expr(vars, externs, s2, *x.output) {
                        lemma_closed_scope(s2, t);
                        assert(closed_scope(t, s2.stmts.len()).stmts == s.stmts);
                        assert(s.stmts.take(s.stmts.len() as int) =~= s.stmts);
                    }
                }
            } 
        },
        Expr::Variant(x) => {
            if let Some(b) = x.payload {
                law_code_keeps_earlier_statements(vars, externs, s, *b);
            } else {
                assert(s.stmts.take(s.stmts.len() as int) =~= s.stmts);
            }
        },
        Expr::Record(x) => {
            lemma_record_fields_keep(vars, externs, s, x.fields@, x.fields@.len());
        },
        Expr::Binary(x) => {
            law_code_keeps_earlier_statements(vars, externs, s, *x.lhs);
            if let Some((_, s1)) = lua_expr(vars, externs, s, *x.lhs) {
                law_code_keeps_earlier_statements(vars, externs, s1, *x.rhs);
                if let Some((_, s2)) = lua_expr(vars, externs, s1, *x.rhs) {
                    lemma_extends_trans(s, s1, s2);
                }
            }
        },
        Expr::Tuple(x) => {
            lemma_exprs_keep(vars, externs, s, x.fields@, x.fields@.len());
        },
        Expr::Match(x) => {
            law_code_keeps_earlier_statements(vars, externs, s, *x.input);
            if let Some((input, s1)) = lua_expr(vars, externs, s, *x.input) {
                if s1.locals + 1 < usize::MAX {
                    let local = local_name(s1.locals);
                    let s2 = emitted(bumped(s1), "local "@ + local + " = "@ + input);
                    let output = local_name(s2.locals);
                    let s3 = emitted(bumped(s2), "local "@ + output);
                    lemma_emitted_extends(bumped(s1), "local "@ + local + " = "@ + input);
                    lemma_emitted_extends(bumped(s2), "local "@ + output);
                    lemma_extends_trans(s, s1, s2);
                    lemma_extends_trans(s, s2, s3);
                    lemma_arms_keep(vars, externs, s3, local, output, x.arms@, x.arms@.len());
                    if let Some(s4) = lua_arms(vars, externs, s3, local, output, x.arms@, x.arms@.len()) {
                        lemma_extends_trans(s, s3, s4);
                    }
                }
            }
        },
        Expr::Intrinsic(x) => {
            if let Some(k) = intrinsic_arity(x.intrinsic) {
                if k <= x.inputs@.len() {
                    lemma_exprs_keep(vars, externs, s, x.inputs@, k);
                }
            }
        },
        _ => {
            assert(s.stmts.take(s.stmts.len() as int) =~= s.stmts);
        },
    }
}

proof fn lemma_exprs_keep(
    vars: Seq<Option<Var>>,
    externs: Seq<Option<Extern>>,
    s: LuaState,
    es: Seq<Expr>,
    n: nat,
)
    ensures
        lua_exprs(vars, externs, s, es, n) matches Some((_, t)) ==> extends(s, t),
    decreases es, 1nat, n,
{
    if n == 0 {
        assert(s.stmts.take(s.stmts.len() as int) =~= s.stmts);
    } else if n <= es.len() {
        lemma_exprs_keep(vars, externs, s, es, (n - 1) as nat);
        if let Some((_, s1)) = lua_exprs(vars, externs, s, es, (n - 1) as nat) {
            law_code_keeps_earlier_statements(vars, externs, s1, es[n - 1]);
            if let Some((_, s2)) = lua_expr(vars, externs, s1, es[n - 1]) {
                lemma_extends_trans(s, s1, s2);
            }
        }
    }
}

proof fn lemma_record_fields_keep(
    vars: Seq<Option<Var>>,
    externs: Seq<Option<Extern>>,
    s: LuaState,
    fields: Seq<ExprField>,
    n: nat,
)
    ensures
        lua_record_fields(vars, externs, s, fields, n) matches Some((_, t)) ==> extends(s, t),
    decreases fields, 1nat, n,
{
    if n == 0 {
        assert(s.stmts.take(s.stmts.len() as int) =~= s.stmts);
    } else if n <= fields.len() {
        lemma_record_fields_keep(vars, externs, s, fields, (n - 1) as nat);
        if let Some((_, s1)) = lua_record_fields(vars, externs, s, fields, (n - 1) as nat) {
            law_code_keeps_earlier_statements(vars, externs, s1, fields[n - 1].expr);
            if let Some((_, s2)) = lua_expr(vars, externs, s1, fields[n - 1].expr) {
                lemma_extends_trans(s, s1, s2);
            }
        }
    }
}

proof fn lemma_with_fields_keep(
    vars: Seq<Option<Var>>,
    externs: Seq<Option<Extern>>,
    s: LuaState,
    local: Seq<char>,
    fields: Seq<ExprField>,
    n: nat,
)
    ensures
        lua_with_fields(vars, externs, s, local, fields, n) matches Some(t) ==> extends(s, t),
    decreases fields, 1nat, n,
{
    if n == 0 {
        assert(s.stmts.take(s.stmts.len() as int) =~= s.stmts);
    } else if n <= fields.len() {
        lemma_with_fields_keep(vars, externs, s, local, fields, (n - 1) as nat);
        if let Some(s1) = lua_with_fields(vars, externs, s, local, fields, (n - 1) as nat) {
            law_code_keeps_earlier_statements(vars, externs, s1, fields[n - 1].expr);
            if let Some((code, s2)) = lua_expr(vars, externs, s1, fields[n - 1].expr) {
                lemma_extends_trans(s, s1, s2);
                let stmt = local + "."@ + fields[n - 1].name@ + " = "@ + code;
                lemma_emitted_extends(s2, stmt);
                lemma_extends_trans(s, s2, emitted(s2, stmt));
            }
        }
    }
}

proof fn lemma_arms_keep(
    vars: Seq<Option<Var>>,
    externs: Seq<Option<Extern>>,
    s: LuaState,
    local: Seq<char>,
    output: Seq<char>,
    arms: Seq<Arm>,
    n: nat,
)
    ensures
        lua_arms(vars, externs, s, local, output, arms, n) matches Some(t) ==> extends(s, t),
    decreases arms, 1nat, n,
{
    if n == 0 {
        assert(s.stmts.take(s.stmts.len() as int) =~= s.stmts);
    } else if n <= arms.len() {
        let i = (n - 1) as nat;
        lemma_arms_keep(vars, externs, s, local, output, arms, i);
        if let Some(s1) = lua_arms(vars, externs, s, local, output, arms, i) {
            if let Some(m) = bound_pat(s1.vars, arms[i as int].pat, local) {
                let s2 = rebound(s1, m);
                let len = s2.stmts.len();
                law_code_keeps_earlier_statements(vars, externs, s2, arms[i as int].expr);
                if let Some((body, s3)) = lua_expr(vars, externs, s2, arms[i as int].expr) {
                    let s4 = emitted(s3, output + " = "@ + body);
                    lemma_emitted_extends(s3, output + " = "@ + body);
                    lemma_extends_trans(s2, s3, s4);
                    lemma_closed_scope(s2, s4);
                    let s5 = closed_scope(s4, len);
                    assert(s5.stmts == s1.stmts);
                    let text = scope_text(s4, len);
                    lemma_emitted_extends(s5, "if "@ + checked_pat(arms[i as int].pat, local)->0 + " then "@ + text);
                    lemma_emitted_extends(s5, "else "@ + text + " end"@);
                    lemma_emitted_extends(s5, "elseif "@ + checked_pat(arms[i as int].pat, local)->0 + " then "@ + text);
                    assert(extends(s1, s5)) by {
                        assert(s1.stmts.take(s1.stmts.len() as int) =~= s1.stmts);
                    }
                    lemma_extends_trans(s, s1, s5);
                    lemma_extends_trans(s, s5, emitted(s5, "if "@ + checked_pat(arms[i as int].pat, local)->0 + " then "@ + text));
                    lemma_extends_trans(s, s5, emitted(s5, "else "@ + text + " end"@));
                    lemma_extends_trans(s, s5, emitted(s5, "elseif "@ + checked_pat(arms[i as int].pat, local)->0 + " then "@ + text));
                }
            }
        }
    }
}

/// A function keeps its statements in its body: the code of a lambda or a
/// `bind` leaves the statements outside it as they were.
pub proof fn law_functions_emit_nothing_outside(
    vars: Seq<Option<Var>>,
    externs: Seq<Option<Extern>>,
    s: LuaState,
    e: Expr,
)
    requires
        e is Lambda || e is Bind,
    ensures
        e is Lambda ==> (lua_expr(vars, externs, s, e) matches Some((_, t)) ==> t.stmts
            == s.stmts),
        e is Bind ==> (lua_expr(vars, externs, s, e) matches Some((_, t)) ==> (lua_expr(
            vars,
            externs,
            s,
            *e->Bind_0.input,
        ) matches Some((_, s1)) && t.stmts == s1.stmts)),
{
    law_code_keeps_earlier_statements(vars, externs, s, e);
    match e {
        Expr::Lambda(x) => {
            if s.locals < usize::MAX {
                let local = local_name(s.locals);
                if let Some(m) = bound_pat(bumped(s).vars, x.input, local) {
                    let s2 = rebound(bumped(s), m);
                    law_code_keeps_earlier_statements(vars, externs, s2, *x.output);
                }
            }
        },
        Expr::Bind(x) => {
            if let Some((input, s1)) = lua_expr(vars, externs, s, *x.input) {
                if s1.locals < usize::MAX {
                    let local = local_name(s1.locals);
                    let s2 = emitted(bumped(s1), "local "@ + local + " = "@ + input);
                    lemma_emitted_extends(bumped(s1), "local "@ + local + " = "@ + input);
                    if let Some(m) = bound_pat(s2.vars, x.pat, local) {
                        law_code_keeps_earlier_statements(vars, externs, rebound(s2, m), *x.output);
                        if let Some((_, t)) = lua_expr(vars, externs, rebound(s2, m), *x.output) {
                            lemma_extends_trans(s1, rebound(s2, m), t);
                        }
                    }
                }
            }
        },
        _ => {},
    }
}

proof fn lemma_decimal_nonempty(n: nat)
    ensures
        decimal(n).len() >= 1,
        n >= 10 ==> decimal(n).len() >= 2,
    decreases n,
{
    if n >= 10 {
        lemma_decimal_nonempty(n / 10);
    }
}

proof fn lemma_digit_char_injective(x: nat, y: nat)
    requires
        x < 10,
        y < 10,
        x != y,
    ensures
        digit_char(x) != digit_char(y),
{
}

/// Different numbers are written differently in decimal.
pub proof fn law_decimal_injective(a: nat, b: nat)
    requires
        a != b,
    ensures
        decimal(a) != decimal(b),
    decreases a + b,
{
    lemma_decimal_nonempty(a);
    lemma_decimal_nonempty(b);
    if a < 10 && b < 10 {
        lemma_digit_char_injective(a, b);
        assert(decimal(a)[0] != decimal(b)[0]);
    } else if a < 10 || b < 10 {
        assert(decimal(a).len() != decimal(b).len());
    } else {
        assert(decimal(a) == decimal(a / 10).push(digit_char(a % 10)));
        assert(decimal(b) == decimal(b / 10).push(digit_char(b % 10)));
        if a % 10 != b % 10 {
            lemma_digit_char_injective(a % 10, b % 10);
            assert(decimal(a).last() != decimal(b).last());
        } else {
            assert(a / 10 != b / 10);
            law_decimal_injective(a / 10, b / 10);
            assert(decimal(a).drop_last() =~= decimal(a / 10));
            assert(decimal(b).drop_last() =~= decimal(b / 10));
        }
    }
}

/// Two locals handed out at different counts have different names.
pub proof fn law_local_names_distinct(a: nat, b: nat)
    requires
        a != b,
    ensures
        local_name(a) != local_name(b),
{
    law_decimal_injective(a, b);
    reveal_strlit("local");
    if local_name(a) == local_name(b) {
        assert(local_name(a).skip(5) =~= decimal(a));
        assert(local_name(b).skip(5) =~= decimal(b));
    }
}

/// The Lua operator of an arithmetic, comparison or logical operation.
pub open spec fn lua_symbol(op: BinOp) -> Seq<char> {
    match op {
        BinOp::Add => seq!['+'],
        BinOp::Sub => seq!['-'],
        BinOp::Mul => seq!['*'],
        BinOp::Div => seq!['/'],
        BinOp::Gt => seq!['>'],
        BinOp::Lt => seq!['<'],
        BinOp::Ge => seq!['>', '='],
        BinOp::Le => seq!['<', '='],
        BinOp::And => seq!['a', 'n', 'd'],
        BinOp::Or => seq!['o', 'r'],
        BinOp::Eq => seq!['e', 'q'],
        BinOp::Ne => seq!['n', 'e'],
    }
}

/// A binary operation other than `==` and `!=` is written as its two sides
/// around the Lua operator of the same operation, in parentheses: `>`
/// gives ` > `, `<` gives ` < `, `>=` gives ` >= `, and so on; `==` and
/// `!=` call `eq` and `ne` on the two sides.
pub proof fn law_binary_uses_the_same_lua_operator(op: BinOp, l: Seq<char>, r: Seq<char>)
    ensures
        !(op is Eq || op is Ne) ==> binary_code(op, l, r) == seq!['('] + l + seq![' '] + lua_symbol(
            op,
        ) + seq![' '] + r + seq![')'],
        (op is Eq || op is Ne) ==> binary_code(op, l, r) == lua_symbol(op) + seq!['('] + l
            + seq![',', ' '] + r + seq![')'],
{
    reveal_strlit("(");
    reveal_strlit(")");
    reveal_strlit(" + ");
    reveal_strlit(" - ");
    reveal_strlit(" * ");
    reveal_strlit(" / ");
    reveal_strlit(" > ");
    reveal_strlit(" < ");
    reveal_strlit(" >= ");
    reveal_strlit(" <= ");
    reveal_strlit(" and ");
    reveal_strlit(" or ");
    reveal_strlit("eq(");
    reveal_strlit("ne(");
    reveal_strlit(", ");
    let lhs = seq!['('] + l + seq![' '] + lua_symbol(op) + seq![' '] + r + seq![')'];
    let call = lua_symbol(op) + seq!['('] + l + seq![',', ' '] + r + seq![')'];
    match op {
        BinOp::Eq | BinOp::Ne => {
            assert(binary_code(op, l, r) =~= call);
        },
        _ => {
            assert(binary_code(op, l, r) =~= lhs);
        },
    }
}

} // verus!
