//! Writing the mid-level representation as text: each global on its own
//! lines, then the expression the program runs, nested bodies indented two
//! spaces a level.
use vstd::prelude::*;

use crate::ir::exhaust::join;
use crate::ir::writer::{line_text, newline_at};
use crate::lua::{decimal, decimal_text};
use crate::mir::{Constant, Constructor, Entry, Expr, Intrinsic};
use crate::text::{chars_of, replace_all, replace_all_chars, string_of};

verus! {

/// The name of an intrinsic, as its variant is written.
pub open spec fn intrinsic_name(i: Intrinsic) -> Seq<char> {
    match i {
        Intrinsic::NatAdd => "NatAdd"@,
        Intrinsic::NatSub => "NatSub"@,
        Intrinsic::NatMul => "NatMul"@,
        Intrinsic::NatXor => "NatXor"@,
        Intrinsic::NatGt => "NatGt"@,
        Intrinsic::NatLt => "NatLt"@,
        Intrinsic::NatGe => "NatGe"@,
        Intrinsic::NatLe => "NatLe"@,
        Intrinsic::NatEq => "NatEq"@,
        Intrinsic::IntAdd => "IntAdd"@,
        Intrinsic::IntSub => "IntSub"@,
        Intrinsic::IntMul => "IntMul"@,
        Intrinsic::IntGt => "IntGt"@,
        Intrinsic::IntLt => "IntLt"@,
        Intrinsic::IntGe => "IntGe"@,
        Intrinsic::IntLe => "IntLe"@,
        Intrinsic::IntEq => "IntEq"@,
        Intrinsic::RealAdd => "RealAdd"@,
        Intrinsic::RealSub => "RealSub"@,
        Intrinsic::RealMul => "RealMul"@,
        Intrinsic::RealDiv => "RealDiv"@,
        Intrinsic::RealGt => "RealGt"@,
        Intrinsic::RealLt => "RealLt"@,
        Intrinsic::RealGe => "RealGe"@,
        Intrinsic::RealLe => "RealLe"@,
        Intrinsic::RealEq => "RealEq"@,
        Intrinsic::BoolNot => "BoolNot"@,
        Intrinsic::BoolAnd => "BoolAnd"@,
        Intrinsic::BoolOr => "BoolOr"@,
        Intrinsic::NatToInt => "NatToInt"@,
        Intrinsic::NatToReal => "NatToReal"@,
        Intrinsic::IntToNat => "IntToNat"@,
        Intrinsic::IntToReal => "IntToReal"@,
        Intrinsic::RealToNat => "RealToNat"@,
        Intrinsic::RealToInt => "RealToInt"@,
        Intrinsic::FormatNat => "FormatNat"@,
        Intrinsic::FormatInt => "FormatInt"@,
        Intrinsic::FormatReal => "FormatReal"@,
        Intrinsic::HashStr => "HashStr"@,
        Intrinsic::HashNat => "HashNat"@,
        Intrinsic::HashInt => "HashInt"@,
        Intrinsic::HashReal => "HashReal"@,
        Intrinsic::StrEq => "StrEq"@,
        Intrinsic::StrLength => "StrLength"@,
        Intrinsic::StrPrepend => "StrPrepend"@,
        Intrinsic::StrSplitAt => "StrSplitAt"@,
        Intrinsic::StrFind => "StrFind"@,
    }
}

/// The name of an intrinsic, as its variant is written.
pub fn intrinsic_name_text(i: Intrinsic) -> (r: &'static str)
    ensures
        r@ == intrinsic_name(i),
{
    match i {
        Intrinsic::NatAdd => "NatAdd",
        Intrinsic::NatSub => "NatSub",
        Intrinsic::NatMul => "NatMul",
        Intrinsic::NatXor => "NatXor",
        Intrinsic::NatGt => "NatGt",
        Intrinsic::NatLt => "NatLt",
        Intrinsic::NatGe => "NatGe",
        Intrinsic::NatLe => "NatLe",
        Intrinsic::NatEq => "NatEq",
        Intrinsic::IntAdd => "IntAdd",
        Intrinsic::IntSub => "IntSub",
        Intrinsic::IntMul => "IntMul",
        Intrinsic::IntGt => "IntGt",
        Intrinsic::IntLt => "IntLt",
        Intrinsic::IntGe => "IntGe",
        Intrinsic::IntLe => "IntLe",
        Intrinsic::IntEq => "IntEq",
        Intrinsic::RealAdd => "RealAdd",
        Intrinsic::RealSub => "RealSub",
        Intrinsic::RealMul => "RealMul",
        Intrinsic::RealDiv => "RealDiv",
        Intrinsic::RealGt => "RealGt",
        Intrinsic::RealLt => "RealLt",
        Intrinsic::RealGe => "RealGe",
        Intrinsic::RealLe => "RealLe",
        Intrinsic::RealEq => "RealEq",
        Intrinsic::BoolNot => "BoolNot",
        Intrinsic::BoolAnd => "BoolAnd",
        Intrinsic::BoolOr => "BoolOr",
        Intrinsic::NatToInt => "NatToInt",
        Intrinsic::NatToReal => "NatToReal",
        Intrinsic::IntToNat => "IntToNat",
        Intrinsic::IntToReal => "IntToReal",
        Intrinsic::RealToNat => "RealToNat",
        Intrinsic::RealToInt => "RealToInt",
        Intrinsic::FormatNat => "FormatNat",
        Intrinsic::FormatInt => "FormatInt",
        Intrinsic::FormatReal => "FormatReal",
        Intrinsic::HashStr => "HashStr",
        Intrinsic::HashNat => "HashNat",
        Intrinsic::HashInt => "HashInt",
        Intrinsic::HashReal => "HashReal",
        Intrinsic::StrEq => "StrEq",
        Intrinsic::StrLength => "StrLength",
        Intrinsic::StrPrepend => "StrPrepend",
        Intrinsic::StrSplitAt => "StrSplitAt",
        Intrinsic::StrFind => "StrFind",
    }
}

/// A signed integer in decimal, with a minus sign when negative.
pub open spec fn signed_decimal(n: int) -> Seq<char> {
    if n < 0 {
        "-"@ + decimal((-n) as nat)
    } else {
        decimal(n as nat)
    }
}

/// `n` in decimal.
fn u64_text(n: u64) -> (r: String)
    ensures
        r@ == decimal(n as nat),
    decreases n,
{
    if n < 10 {
        decimal_text(n as usize)
    } else {
        let mut t = u64_text(n / 10);
        let d = decimal_text((n % 10) as usize);
        assert(d@ == seq![crate::lua::digit_char((n % 10) as nat)]);
        t = t.concat(d.as_str());
        assert(t@ =~= decimal((n / 10) as nat).push(crate::lua::digit_char((n % 10) as nat)));
        t
    }
}

/// `n` in decimal, with a minus sign when negative.
fn i64_text(n: i64) -> (r: String)
    ensures
        r@ == signed_decimal(n as int),
{
    if n < 0 {
        let m: u64 = (-(n as i128)) as u64;
        String::from_str("-").concat(u64_text(m).as_str())
    } else {
        u64_text(n as u64)
    }
}

/// A string's text with each new line and tab written with a backslash.
pub open spec fn mir_escaped(s: Seq<char>) -> Seq<char> {
    replace_all(replace_all(s, seq!['\n'], seq!['\\', 'n']), seq!['\t'], seq!['\\', 't'])
}

/// How a constant is written: a natural number with `t` after it, an
/// integer with `i`, a real with `r`, a string in double quotes.
pub open spec fn constant_text(c: Constant) -> Seq<char> {
    match c {
        Constant::Nat(x) => decimal(x as nat) + "t"@,
        Constant::Int(x) => signed_decimal(x as int) + "i"@,
        Constant::Real(digits) => digits@ + "r"@,
        Constant::Bool(b) => if b {
            "true"@
        } else {
            "false"@
        },
        Constant::Str(s) => "\""@ + mir_escaped(s@) + "\""@,
    }
}

/// Whether no line an expression starts at `indent` is indented past what
/// `usize` counts.
pub open spec fn mir_fits(indent: nat, e: Expr) -> bool
    decreases e,
{
    match e {
        Expr::Construct(c) => match c {
            Constructor::Pure(b) => mir_fits(indent, *b),
            Constructor::Tuple(es) => forall|i: int|
                0 <= i < (*es)@.len() ==> mir_fits(indent, #[trigger] (*es)@[i]),
            Constructor::Variant(_, b) => mir_fits(indent, *b),
        },
        Expr::Let(x) => {
            &&& 2 * (indent + 1) <= usize::MAX
            &&& mir_fits(indent, *x.input)
            &&& mir_fits(indent + 1, *x.output)
        },
        Expr::Bind(x) => {
            &&& 2 * (indent + 1) <= usize::MAX
            &&& mir_fits(indent, *x.input)
            &&& forall|i: int|
                0 <= i < x.captures@.len() ==> mir_fits(indent, #[trigger] x.captures@[i])
            &&& mir_fits(indent + 1, *x.output)
        },
        Expr::Lambda(x) => {
            &&& 2 * (indent + 1) <= usize::MAX
            &&& forall|i: int|
                0 <= i < x.captures@.len() ==> mir_fits(indent, #[trigger] x.captures@[i])
            &&& mir_fits(indent + 1, *x.output)
        },
        Expr::Payload(b) => mir_fits(indent, *b),
        Expr::Field(b, _) => mir_fits(indent, *b),
        Expr::Is(b, _) => mir_fits(indent, *b),
        Expr::Call(f, x) => mir_fits(indent, *f) && mir_fits(indent, *x),
        Expr::If(c, a, b) => {
            &&& 2 * (indent + 1) <= usize::MAX
            &&& mir_fits(indent, *c)
            &&& mir_fits(indent + 1, *a)
            &&& mir_fits(indent + 1, *b)
        },
        Expr::Intrinsic(_, es) => forall|i: int|
            0 <= i < (*es)@.len() ==> mir_fits(indent, #[trigger] (*es)@[i]),
        _ => true,
    }
}

/// The pieces, each after a space.
pub open spec fn spaced(parts: Seq<Seq<char>>) -> Seq<char>
    decreases parts.len(),
{
    if parts.len() == 0 {
        Seq::empty()
    } else {
        spaced(parts.drop_last()) + " "@ + parts.last()
    }
}

/// How an expression is written at `indent`.
pub open spec fn mir_text(indent: nat, e: Expr) -> Seq<char>
    decreases e, 0nat,
{
    match e {
        Expr::Local(l) => "local"@ + decimal(l.index as nat),
        Expr::Global(g) => "global"@ + decimal(g.index as nat),
        Expr::Extern(x) => "extern["@ + x.id@ + "]"@,
        Expr::Constant(c) => constant_text(c),
        Expr::Construct(c) => match c {
            Constructor::Pure(b) => "pure "@ + mir_text(indent, *b),
            Constructor::Tuple(es) => "{"@ + join(mir_texts(indent, (*es)@), ", "@) + "}"@,
            Constructor::Variant(i, b) => ":"@ + decimal(i as nat) + " "@ + mir_text(indent, *b),
        },
        Expr::Let(x) => "let local"@ + decimal(x.local.index as nat) + " = "@ + mir_text(
            indent,
            *x.input,
        ) + " in"@ + newline_at(indent + 1) + mir_text(indent + 1, *x.output),
        Expr::Bind(x) => "bind local"@ + decimal(x.local.index as nat) + " <- "@ + mir_text(
            indent,
            *x.input,
        ) + " ["@ + join(mir_texts(indent, x.captures@), ", "@) + "]"@ + newline_at(indent + 1)
            + mir_text(indent + 1, *x.output),
        Expr::Lambda(x) => "\\local"@ + decimal(x.input.index as nat) + ". ["@ + join(
            mir_texts(indent, x.captures@),
            ", "@,
        ) + "]"@ + newline_at(indent + 1) + mir_text(indent + 1, *x.output),
        Expr::Payload(b) => "(*"@ + mir_text(indent, *b) + ")"@,
        Expr::Field(b, i) => mir_text(indent, *b) + "."@ + decimal(i as nat),
        Expr::Call(f, x) => "("@ + mir_text(indent, *f) + " "@ + mir_text(indent, *x) + ")"@,
        Expr::Is(b, v) => mir_text(indent, *b) + " is :"@ + decimal(v as nat),
        Expr::If(c, a, b) => "if "@ + mir_text(indent, *c) + " then "@ + newline_at(indent + 1)
            + mir_text(indent + 1, *a) + newline_at(indent) + "else "@ + newline_at(indent + 1)
            + mir_text(indent + 1, *b),
        Expr::Intrinsic(i, es) => "("@ + intrinsic_name(i) + spaced(mir_texts(indent, (*es)@))
            + ")"@,
    }
}

pub open spec fn mir_texts(indent: nat, s: Seq<Expr>) -> Seq<Seq<char>>
    decreases s, 1nat,
{
    Seq::new(
        s.len(),
        |i: int|
            if 0 <= i < s.len() {
                mir_text(indent, s[i])
            } else {
                Seq::empty()
            },
    )
}

/// A string's text with each new line and tab written with a backslash.
fn mir_escape(s: &str) -> (r: String)
    ensures
        r@ == mir_escaped(s@),
{
    let c0 = chars_of(s);
    let p1 = ['\n'];
    let r1 = ['\\', 'n'];
    let p2 = ['\t'];
    let r2 = ['\\', 't'];
    assert(p1@ =~= seq!['\n']);
    assert(r1@ =~= seq!['\\', 'n']);
    assert(p2@ =~= seq!['\t']);
    assert(r2@ =~= seq!['\\', 't']);
    let c1 = replace_all_chars(&c0, &p1, &r1);
    let c2 = replace_all_chars(&c1, &p2, &r2);
    string_of(c2.as_slice())
}

/// How a constant is written.
pub fn constant_string(c: &Constant) -> (r: String)
    ensures
        r@ == constant_text(*c),
{
    match c {
        Constant::Nat(x) => u64_text(*x).concat("t"),
        Constant::Int(x) => i64_text(*x).concat("i"),
        Constant::Real(digits) => String::from_str(digits).concat("r"),
        Constant::Bool(b) => if *b {
            String::from_str("true")
        } else {
            String::from_str("false")
        },
        Constant::Str(t) => {
            let e = mir_escape(t.as_str());
            String::from_str("\"").concat(e.as_str()).concat("\"")
        },
    }
}

/// The expressions of `v` at `indent`, separated by `sep`.
fn exprs_joined(indent: usize, v: &Vec<Expr>, sep: &str) -> (r: String)
    requires
        forall|i: int| 0 <= i < v@.len() ==> mir_fits(indent as nat, #[trigger] v@[i]),
    ensures
        r@ == join(mir_texts(indent as nat, v@), sep@),
    decreases v, 0nat,
{
    let ghost parts = mir_texts(indent as nat, v@);
    let mut f = String::new();
    let mut i: usize = 0;
    assert(parts.take(0) =~= Seq::<Seq<char>>::empty());
    while i < v.len()
        invariant
            i <= v@.len(),
            parts == mir_texts(indent as nat, v@),
            forall|i: int| 0 <= i < v@.len() ==> mir_fits(indent as nat, #[trigger] v@[i]),
            f@ == join(parts.take(i as int), sep@),
        decreases v@.len() - i,
    {
        proof {
            assert(decreases_to!(v => v@[i as int]));
        }
        let part = expr_string(indent, &v[i]);
        assert(parts.take(i + 1).drop_last() =~= parts.take(i as int));
        if i == 0 {
            f = part;
            assert(parts.take(1) =~= seq![parts[0]]);
        } else {
            f = f.concat(sep).concat(part.as_str());
        }
        i = i + 1;
    }
    assert(parts.take(v@.len() as int) =~= parts);
    f
}

/// The expressions of `v` at `indent`, each after a space.
fn exprs_spaced(indent: usize, v: &Vec<Expr>) -> (r: String)
    requires
        forall|i: int| 0 <= i < v@.len() ==> mir_fits(indent as nat, #[trigger] v@[i]),
    ensures
        r@ == spaced(mir_texts(indent as nat, v@)),
    decreases v, 0nat,
{
    let ghost parts = mir_texts(indent as nat, v@);
    let mut f = String::new();
    let mut i: usize = 0;
    assert(parts.take(0) =~= Seq::<Seq<char>>::empty());
    while i < v.len()
        invariant
            i <= v@.len(),
            parts == mir_texts(indent as nat, v@),
            forall|i: int| 0 <= i < v@.len() ==> mir_fits(indent as nat, #[trigger] v@[i]),
            f@ == spaced(parts.take(i as int)),
        decreases v@.len() - i,
    {
        proof {
            assert(decreases_to!(v => v@[i as int]));
        }
        let part = expr_string(indent, &v[i]);
        assert(parts.take(i + 1).drop_last() =~= parts.take(i as int));
        f = f.concat(" ").concat(part.as_str());
        i = i + 1;
    }
    assert(parts.take(v@.len() as int) =~= parts);
    f
}

/// How an expression is written at `indent`.
pub fn expr_string(indent: usize, e: &Expr) -> (r: String)
    requires
        mir_fits(indent as nat, *e),
    ensures
        r@ == mir_text(indent as nat, *e),
    decreases e, 1nat,
{
    match e {
        Expr::Local(l) => String::from_str("local").concat(decimal_text(l.index).as_str()),
        Expr::Global(g) => String::from_str("global").concat(decimal_text(g.index).as_str()),
        Expr::Extern(x) => String::from_str("extern[").concat(x.id).concat("]"),
        Expr::Constant(c) => constant_string(c),
        Expr::Construct(c) => match c {
            Constructor::Pure(b) => {
                let inner = expr_string(indent, b);
                String::from_str("pure ").concat(inner.as_str())
            },
            Constructor::Tuple(es) => {
                let v: &Vec<Expr> = &**es;
                proof {
                    assert(decreases_to!(*e => *v));
                }
                let inner = exprs_joined(indent, v, ", ");
                String::from_str("{").concat(inner.as_str()).concat("}")
            },
            Constructor::Variant(i, b) => {
                let inner = expr_string(indent, b);
                String::from_str(":").concat(decimal_text(*i).as_str()).concat(" ").concat(
                    inner.as_str(),
                )
            },
        },
        Expr::Let(x) => {
            let input = expr_string(indent, &x.input);
            let line = line_text(indent + 1);
            let output = expr_string(indent + 1, &x.output);
            String::from_str("let local").concat(decimal_text(x.local.index).as_str()).concat(
                " = ",
            ).concat(input.as_str()).concat(" in").concat(line.as_str()).concat(output.as_str())
        },
        Expr::Bind(x) => {
            let input = expr_string(indent, &x.input);
            let captures = exprs_joined(indent, &x.captures, ", ");
            let line = line_text(indent + 1);
            let output = expr_string(indent + 1, &x.output);
            String::from_str("bind local").concat(decimal_text(x.local.index).as_str()).concat(
                " <- ",
            ).concat(input.as_str()).concat(" [").concat(captures.as_str()).concat("]").concat(
                line.as_str(),
            ).concat(output.as_str())
        },
        Expr::Lambda(x) => {
            let captures = exprs_joined(indent, &x.captures, ", ");
            let line = line_text(indent + 1);
            let output = expr_string(indent + 1, &x.output);
            String::from_str("\\local").concat(decimal_text(x.input.index).as_str()).concat(
                ". [",
            ).concat(captures.as_str()).concat("]").concat(line.as_str()).concat(output.as_str())
        },
        Expr::Payload(b) => {
            let inner = expr_string(indent, b);
            String::from_str("(*").concat(inner.as_str()).concat(")")
        },
        Expr::Field(b, i) => {
            let inner = expr_string(indent, b);
            inner.concat(".").concat(decimal_text(*i).as_str())
        },
        Expr::Call(f, x) => {
            let lambda = expr_string(indent, f);
            let input = expr_string(indent, x);
            String::from_str("(").concat(lambda.as_str()).concat(" ").concat(input.as_str()).concat(
                ")",
            )
        },
        Expr::Is(b, v) => {
            let inner = expr_string(indent, b);
            inner.concat(" is :").concat(decimal_text(*v).as_str())
        },
        Expr::If(c, a, b) => {
            let cond = expr_string(indent, c);
            let line1 = line_text(indent + 1);
            let then = expr_string(indent + 1, a);
            let line0 = line_text(indent);
            let otherwise = expr_string(indent + 1, b);
            String::from_str("if ").concat(cond.as_str()).concat(" then ").concat(line1.as_str()).concat(
                then.as_str(),
            ).concat(line0.as_str()).concat("else ").concat(line1.as_str()).concat(
                otherwise.as_str(),
            )
        },
        Expr::Intrinsic(i, es) => {
            let v: &Vec<Expr> = &**es;
            proof {
                assert(decreases_to!(*e => *v));
            }
            let inner = exprs_spaced(indent, v);
            String::from_str("(").concat(intrinsic_name_text(*i)).concat(inner.as_str()).concat(")")
        },
    }
}

/// Whether every global and the output of a program can be written.
pub open spec fn entry_fits(entry: Entry) -> bool {
    &&& forall|i: int| 0 <= i < entry.globals@.len() ==> mir_fits(0, #[trigger] entry.globals@[i])
    &&& mir_fits(0, *entry.output)
}

/// The first `n` globals of a program, each as `global`, its
/// index, `=`, its expression and a blank line.
pub open spec fn globals_text(globals: Seq<Expr>, n: nat) -> Seq<char>
    decreases n,
{
    if n == 0 || n > globals.len() {
        Seq::empty()
    } else {
        globals_text(globals, (n - 1) as nat) + "global"@ + decimal((n - 1) as nat) + " = "@
            + mir_text(0, globals[n - 1]) + "\n\n"@
    }
}

/// The program as text: its globals, then the expression it runs.
pub open spec fn entry_text(entry: Entry) -> Seq<char> {
    globals_text(entry.globals@, entry.globals@.len()) + mir_text(0, *entry.output)
}

/// The program as text: each global as `global`, its index, `=` and its
/// expression, followed by a blank line; then the expression it runs.
pub fn write(entry: &Entry) -> (r: String)
    requires
        entry_fits(*entry),
    ensures
        r@ == entry_text(*entry),
{
    let mut f = String::new();
    let mut i: usize = 0;
    while i < entry.globals.len()
        invariant
            i <= entry.globals@.len(),
            entry_fits(*entry),
            f@ == globals_text(entry.globals@, i as nat),
        decreases entry.globals@.len() - i,
    {
        let text = expr_string(0, &entry.globals[i]);
        f = f.concat("global").concat(decimal_text(i).as_str()).concat(" = ").concat(
            text.as_str(),
        ).concat("\n\n");
        i = i + 1;
    }
    let out = expr_string(0, &entry.output);
    f.concat(out.as_str())
}

/// A name's shape: its length, first character and last two characters,
/// packed into one number. The names of the intrinsics all differ in it.
pub open spec fn name_shape(s: Seq<char>) -> int {
    ((s.len() * 128 + s[0] as u32 as int) * 128 + s[s.len() - 2] as u32 as int) * 128
        + s[s.len() - 1] as u32 as int
}

/// The intrinsic whose variant name has shape `k`.
pub open spec fn intrinsic_of_shape(k: int) -> Option<Intrinsic> {
    if false {
        None
    } else if k == 13873764 {
        Some(Intrinsic::NatAdd)
    } else if k == 13875938 {
        Some(Intrinsic::NatSub)
    } else if k == 13875948 {
        Some(Intrinsic::NatMul)
    } else if k == 13875186 {
        Some(Intrinsic::NatXor)
    } else if k == 11772916 {
        Some(Intrinsic::NatGt)
    } else if k == 11773556 {
        Some(Intrinsic::NatLt)
    } else if k == 11772901 {
        Some(Intrinsic::NatGe)
    } else if k == 11773541 {
        Some(Intrinsic::NatLe)
    } else if k == 11772657 {
        Some(Intrinsic::NatEq)
    } else if k == 13791844 {
        Some(Intrinsic::IntAdd)
    } else if k == 13794018 {
        Some(Intrinsic::IntSub)
    } else if k == 13794028 {
        Some(Intrinsic::IntMul)
    } else if k == 11690996 {
        Some(Intrinsic::IntGt)
    } else if k == 11691636 {
        Some(Intrinsic::IntLt)
    } else if k == 11690981 {
        Some(Intrinsic::IntGe)
    } else if k == 11691621 {
        Some(Intrinsic::IntLe)
    } else if k == 11690737 {
        Some(Intrinsic::IntEq)
    } else if k == 16036452 {
        Some(Intrinsic::RealAdd)
    } else if k == 16038626 {
        Some(Intrinsic::RealSub)
    } else if k == 16038636 {
        Some(Intrinsic::RealMul)
    } else if k == 16037110 {
        Some(Intrinsic::RealDiv)
    } else if k == 13935604 {
        Some(Intrinsic::RealGt)
    } else if k == 13936244 {
        Some(Intrinsic::RealLt)
    } else if k == 13935589 {
        Some(Intrinsic::RealGe)
    } else if k == 13936229 {
        Some(Intrinsic::RealLe)
    } else if k == 13935345 {
        Some(Intrinsic::RealEq)
    } else if k == 15775732 {
        Some(Intrinsic::BoolNot)
    } else if k == 15775588 {
        Some(Intrinsic::BoolAnd)
    } else if k == 13674482 {
        Some(Intrinsic::BoolOr)
    } else if k == 18069364 {
        Some(Intrinsic::NatToInt)
    } else if k == 20164844 {
        Some(Intrinsic::NatToReal)
    } else if k == 17985780 {
        Some(Intrinsic::IntToNat)
    } else if k == 20082924 {
        Some(Intrinsic::IntToReal)
    } else if k == 20230388 {
        Some(Intrinsic::RealToNat)
    } else if k == 20232052 {
        Some(Intrinsic::RealToInt)
    } else if k == 20033780 {
        Some(Intrinsic::FormatNat)
    } else if k == 20035444 {
        Some(Intrinsic::FormatInt)
    } else if k == 22130924 {
        Some(Intrinsic::FormatReal)
    } else if k == 15874674 {
        Some(Intrinsic::HashStr)
    } else if k == 15872244 {
        Some(Intrinsic::HashNat)
    } else if k == 15873908 {
        Some(Intrinsic::HashInt)
    } else if k == 17969388 {
        Some(Intrinsic::HashReal)
    } else if k == 11854577 {
        Some(Intrinsic::StrEq)
    } else if k == 20249192 {
        Some(Intrinsic::StrLength)
    } else if k == 22345572 {
        Some(Intrinsic::StrPrepend)
    } else if k == 22339828 {
        Some(Intrinsic::StrSplitAt)
    } else if k == 16054116 {
        Some(Intrinsic::StrFind)
    } else {
        None
    }
}

/// An intrinsic is written with a name of the shape of its own variant
/// name (`NatSub` as a six-letter name that starts with `N` and ends with
/// `ub`, and so on).
pub proof fn law_intrinsic_name_spells_its_variant(i: Intrinsic)
    ensures
        intrinsic_of_shape(name_shape(intrinsic_name(i))) == Some(i),
{
    match i {
        Intrinsic::NatAdd => {
            reveal_strlit("NatAdd");
        },
        Intrinsic::NatSub => {
            reveal_strlit("NatSub");
        },
        Intrinsic::NatMul => {
            reveal_strlit("NatMul");
        },
        Intrinsic::NatXor => {
            reveal_strlit("NatXor");
        },
        Intrinsic::NatGt => {
            reveal_strlit("NatGt");
        },
        Intrinsic::NatLt => {
            reveal_strlit("NatLt");
        },
        Intrinsic::NatGe => {
            reveal_strlit("NatGe");
        },
        Intrinsic::NatLe => {
            reveal_strlit("NatLe");
        },
        Intrinsic::NatEq => {
            reveal_strlit("NatEq");
        },
        Intrinsic::IntAdd => {
            reveal_strlit("IntAdd");
        },
        Intrinsic::IntSub => {
            reveal_strlit("IntSub");
        },
        Intrinsic::IntMul => {
            reveal_strlit("IntMul");
        },
        Intrinsic::IntGt => {
            reveal_strlit("IntGt");
        },
        Intrinsic::IntLt => {
            reveal_strlit("IntLt");
        },
        Intrinsic::IntGe => {
            reveal_strlit("IntGe");
        },
        Intrinsic::IntLe => {
            reveal_strlit("IntLe");
        },
        Intrinsic::IntEq => {
            reveal_strlit("IntEq");
        },
        Intrinsic::RealAdd => {
            reveal_strlit("RealAdd");
        },
        Intrinsic::RealSub => {
            reveal_strlit("RealSub");
        },
        Intrinsic::RealMul => {
            reveal_strlit("RealMul");
        },
        Intrinsic::RealDiv => {
            reveal_strlit("RealDiv");
        },
        Intrinsic::RealGt => {
            reveal_strlit("RealGt");
        },
        Intrinsic::RealLt => {
            reveal_strlit("RealLt");
        },
        Intrinsic::RealGe => {
            reveal_strlit("RealGe");
        },
        Intrinsic::RealLe => {
            reveal_strlit("RealLe");
        },
        Intrinsic::RealEq => {
            reveal_strlit("RealEq");
        },
        Intrinsic::BoolNot => {
            reveal_strlit("BoolNot");
        },
        Intrinsic::BoolAnd => {
            reveal_strlit("BoolAnd");
        },
        Intrinsic::BoolOr => {
            reveal_strlit("BoolOr");
        },
        Intrinsic::NatToInt => {
            reveal_strlit("NatToInt");
        },
        Intrinsic::NatToReal => {
            reveal_strlit("NatToReal");
        },
        Intrinsic::IntToNat => {
            reveal_strlit("IntToNat");
        },
        Intrinsic::IntToReal => {
            reveal_strlit("IntToReal");
        },
        Intrinsic::RealToNat => {
            reveal_strlit("RealToNat");
        },
        Intrinsic::RealToInt => {
            reveal_strlit("RealToInt");
        },
        Intrinsic::FormatNat => {
            reveal_strlit("FormatNat");
        },
        Intrinsic::FormatInt => {
            reveal_strlit("FormatInt");
        },
        Intrinsic::FormatReal => {
            reveal_strlit("FormatReal");
        },
        Intrinsic::HashStr => {
            reveal_strlit("HashStr");
        },
        Intrinsic::HashNat => {
            reveal_strlit("HashNat");
        },
        Intrinsic::HashInt => {
            reveal_strlit("HashInt");
        },
        Intrinsic::HashReal => {
            reveal_strlit("HashReal");
        },
        Intrinsic::StrEq => {
            reveal_strlit("StrEq");
        },
        Intrinsic::StrLength => {
            reveal_strlit("StrLength");
        },
        Intrinsic::StrPrepend => {
            reveal_strlit("StrPrepend");
        },
        Intrinsic::StrSplitAt => {
            reveal_strlit("StrSplitAt");
        },
        Intrinsic::StrFind => {
            reveal_strlit("StrFind");
        },
    }
}

/// Different intrinsics are written with different names.
pub proof fn law_intrinsic_names_distinct(i: Intrinsic, j: Intrinsic)
    requires
        i != j,
    ensures
        intrinsic_name(i) != intrinsic_name(j),
{
    law_intrinsic_name_spells_its_variant(i);
    law_intrinsic_name_spells_its_variant(j);
}

} // verus!
