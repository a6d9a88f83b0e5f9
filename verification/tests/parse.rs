use ka::ast::{BinOp, BlockStmt, Def, DoKind, DoStmt, Expr, ModuleDef, Pat, Ty, UnOp};
use ka::diagnostic::{Diagnostic, FileId};
use ka::intern::Interner;
use ka::lex::{Token, Tokens};
use ka::parse::{self, Parser};

fn lexed(input: &str) -> Tokens {
    let mut emitter: Vec<Diagnostic> = Vec::new();
    let mut interner = Interner::new();
    Tokens::lex(&mut emitter, &mut interner, FileId { index: 0 }, input)
}

#[test]
fn peek_skips_whitespace() {
    let tokens = lexed("a   b c");
    let parser = Parser::new(&tokens);
    assert_eq!(parser.peek(), Token::Ident("a"));
    assert_eq!(parser.peek_nth(1), Token::Ident("b"));
    assert_eq!(parser.peek_nth(2), Token::Ident("c"));
    assert_eq!(parser.peek_nth(3), Token::Eof);
    assert_eq!(parser.peek_nth(10), Token::Eof);
    assert!(parser.is_nth(1, Token::Ident("b")));
    assert_eq!(parser.span_nth(1).start, 4);
}

#[test]
fn consume_moves_past_one_token() {
    let tokens = lexed("a   b");
    let mut parser = Parser::new(&tokens);
    let span = parser.consume();
    assert_eq!((span.start, span.end), (0, 1));
    assert_eq!(parser.peek(), Token::Ident("b"));
    let span = parser.consume();
    assert_eq!((span.start, span.end), (4, 5));
    assert_eq!(parser.peek(), Token::Eof);
    let span = parser.consume();
    assert_eq!((span.start, span.end), (5, 5));
    assert_eq!(parser.peek(), Token::Eof);
}

#[test]
fn take_and_take_all() {
    let tokens = lexed("; ; ; x");
    let mut parser = Parser::new(&tokens);
    assert!(!parser.take(Token::Comma));
    assert!(parser.take(Token::Semi));
    parser.take_all(Token::Semi);
    assert_eq!(parser.peek(), Token::Ident("x"));
    assert!(parser.diagnostics().is_empty());
}

#[test]
fn expect_reports_what_it_found() {
    let tokens = lexed("x y");
    let mut parser = Parser::new(&tokens);
    parser.expect(Token::Comma);
    assert_eq!(parser.expect_ident(), Some("y"));
    assert_eq!(parser.expect_ident(), None);
    let diagnostics = parser.diagnostics();
    assert_eq!(diagnostics.len(), 2);
    assert_eq!(diagnostics[0].message(), "expected `,` but found `x`");
    assert_eq!(diagnostics[0].labels()[0].message(), "here");
    assert_eq!(diagnostics[0].labels()[0].span().start, 0);
    assert_eq!(diagnostics[1].message(), "expected `identifier` but found `end of file`");
}

#[test]
fn expect_string_takes_a_string() {
    let tokens = lexed("\"std\" x");
    let mut parser = Parser::new(&tokens);
    assert_eq!(parser.expect_string(), Some("std"));
    assert_eq!(parser.expect_string(), None);
    assert_eq!(parser.diagnostics()[0].message(), "expected `string` but found `x`");
}

#[test]
fn pattern_tuple_of_terms() {
    let tokens = lexed("x, :some _, (y)");
    let mut parser = Parser::new(&tokens);
    let pat = parse::pat(&mut parser);
    match &pat {
        Pat::Tuple(tuple) => {
            assert_eq!(tuple.fields.len(), 3);
            assert!(matches!(&tuple.fields[0], Pat::Bind(b) if b.name == "x"));
            match &tuple.fields[1] {
                Pat::Variant(v) => {
                    assert_eq!(v.name, Some("some"));
                    assert!(matches!(v.pat.as_deref(), Some(Pat::Wild(_))));
                    assert_eq!((v.span.start, v.span.end), (3, 10));
                }
                other => panic!("expected a variant, got {other:?}"),
            }
            assert!(matches!(&tuple.fields[2], Pat::Paren(p) if matches!(*p.pat, Pat::Bind(_))));
            assert_eq!((tuple.span.start, tuple.span.end), (0, 15));
        }
        other => panic!("expected a tuple, got {other:?}"),
    }
    assert_eq!(parser.peek(), Token::Eof);
    assert!(parser.diagnostics().is_empty());
}

#[test]
fn pattern_error_is_reported() {
    let tokens = lexed("= x");
    let mut parser = Parser::new(&tokens);
    let pat = parse::pat(&mut parser);
    assert!(matches!(pat, Pat::Error(span) if span.start == 0));
    assert_eq!(parser.diagnostics()[0].message(), "expected `pattern` but found `=`");
}

#[test]
fn patterns_one_after_another() {
    let tokens = lexed("a _ :b = 1");
    let mut parser = Parser::new(&tokens);
    let pats = parse::pats(&mut parser);
    assert_eq!(pats.len(), 3);
    assert!(matches!(&pats[2], Pat::Variant(v) if v.name == Some("b") && v.pat.is_none()));
    assert_eq!(parser.peek(), Token::Eq);
    assert!(parse::is_pat(Token::Under));
    assert!(!parse::is_pat(Token::Eq));
}


#[test]
fn type_lambda_of_tuple_fields() {
    let tokens = lexed("nat, str -> int");
    let mut parser = Parser::new(&tokens);
    let ty = parse::ty(&mut parser);
    match ty {
        Ty::Tuple(tuple) => {
            assert_eq!(tuple.fields.len(), 2);
            assert!(matches!(tuple.fields[0], Ty::Nat));
            match &tuple.fields[1] {
                Ty::Lambda(lambda) => {
                    assert!(matches!(*lambda.input, Ty::Str));
                    assert!(matches!(*lambda.output, Ty::Int));
                }
                other => panic!("expected a lambda, got {other:?}"),
            }
        }
        other => panic!("expected a tuple, got {other:?}"),
    }
    assert!(parser.diagnostics().is_empty());
}

#[test]
fn type_union_and_alias() {
    let tokens = lexed(":none | :some 'a");
    let mut parser = Parser::new(&tokens);
    match parse::ty(&mut parser) {
        Ty::Union(union) => {
            assert_eq!(union.variants.len(), 2);
            assert_eq!(union.variants[0].name, Some("none"));
            assert!(union.variants[0].payload.is_none());
            assert_eq!(union.variants[1].name, Some("some"));
            assert!(matches!(&union.variants[1].payload, Some(Ty::Generic(g)) if g.name == "a"));
        }
        other => panic!("expected a union, got {other:?}"),
    }
    let tokens = lexed("std::list nat num");
    let mut parser = Parser::new(&tokens);
    match parse::ty(&mut parser) {
        Ty::Alias(alias) => {
            assert_eq!(alias.import, Some("std"));
            assert_eq!(alias.name, "list");
            assert_eq!(alias.args.len(), 2);
            assert!(matches!(alias.args[1], Ty::Real));
            assert_eq!((alias.span.start, alias.span.end), (0, 9));
        }
        other => panic!("expected an alias, got {other:?}"),
    }
}

#[test]
fn type_records_inline_and_in_a_block() {
    let tokens = lexed("{ a: nat; b: !str }");
    let mut parser = Parser::new(&tokens);
    match parse::ty(&mut parser) {
        Ty::Record(record) => {
            assert_eq!(record.fields.len(), 2);
            assert_eq!(record.fields[0].name, Some("a"));
            assert!(matches!(&record.fields[1].ty, Ty::Monad(m) if matches!(*m.ty, Ty::Str)));
        }
        other => panic!("expected a record, got {other:?}"),
    }
    assert!(parser.diagnostics().is_empty());
    let tokens = lexed("{\n  a: nat\n  b: int\n}");
    let mut parser = Parser::new(&tokens);
    match parse::ty(&mut parser) {
        Ty::Record(record) => assert_eq!(record.fields.len(), 2),
        other => panic!("expected a record, got {other:?}"),
    }
    assert!(parser.diagnostics().is_empty());
}

#[test]
fn type_union_one_variant_per_line() {
    let tokens = lexed("\n  | :a\n  | :b nat\n");
    let mut parser = Parser::new(&tokens);
    match parse::ty(&mut parser) {
        Ty::Union(union) => {
            assert_eq!(union.variants.len(), 2);
            assert!(matches!(union.variants[1].payload, Some(Ty::Nat)));
        }
        other => panic!("expected a union, got {other:?}"),
    }
    assert!(parser.diagnostics().is_empty());
}

#[test]
fn type_error_is_reported() {
    let tokens = lexed("=");
    let mut parser = Parser::new(&tokens);
    assert!(matches!(parse::ty(&mut parser), Ty::Error(_)));
    assert_eq!(parser.diagnostics()[0].message(), "expected `type` but found `=`");
}

#[test]
fn definitions() {
    let tokens = lexed("import \"std/list\" as list");
    let mut parser = Parser::new(&tokens);
    match parse::def(&mut parser) {
        Def::Import(import) => {
            assert_eq!(import.path, "std/list");
            assert_eq!(import.name, Some("list"));
        }
        other => panic!("expected an import, got {other:?}"),
    }
    let tokens = lexed("extern \"print\" print is str -> !{}");
    let mut parser = Parser::new(&tokens);
    match parse::def(&mut parser) {
        Def::Extern(def) => {
            assert_eq!(def.id, "print");
            assert_eq!(def.name, "print");
            assert!(matches!(def.ty, Ty::Lambda(_)));
        }
        other => panic!("expected an extern, got {other:?}"),
    }
    let tokens = lexed("type pair 'a 'b = 'a, 'b");
    let mut parser = Parser::new(&tokens);
    match parse::def(&mut parser) {
        Def::Alias(def) => {
            assert_eq!(def.name, "pair");
            assert_eq!(def.params, vec![Some("a"), Some("b")]);
            assert!(!def.is_local);
            assert!(matches!(def.ty, Ty::Tuple(_)));
        }
        other => panic!("expected an alias, got {other:?}"),
    }
    assert!(parser.diagnostics().is_empty());
    assert!(parse::is_def(Token::Type));
    assert!(!parse::is_def(Token::Let));
}

#[test]
fn definition_errors() {
    let tokens = lexed("let");
    let mut parser = Parser::new(&tokens);
    assert!(matches!(parse::def(&mut parser), Def::Error(_)));
    assert_eq!(parser.diagnostics()[0].message(), "expected `definition` but found `let`");
    let tokens = lexed("extern print");
    let mut parser = Parser::new(&tokens);
    assert!(matches!(parse::def(&mut parser), Def::Error(_)));
    assert_eq!(parser.diagnostics()[0].message(), "expected `string` but found `print`");
}

#[test]
fn is_annotation() {
    let tokens = lexed("is nat\n\nx");
    let mut parser = Parser::new(&tokens);
    assert!(matches!(parse::is(&mut parser), Some(Ty::Nat)));
    assert_eq!(parser.peek(), Token::Ident("x"));
    let tokens = lexed("x");
    let mut parser = Parser::new(&tokens);
    assert!(parse::is(&mut parser).is_none());
}

fn name(n: Option<&str>) -> String {
    n.unwrap_or("?").to_string()
}

fn show(e: &Expr) -> String {
    match e {
        Expr::Paren(x) => format!("({})", show(&x.expr)),
        Expr::Num(x) => x.number.to_string(),
        Expr::Str(x) => format!("{:?}", x.string),
        Expr::Named(x) => x.name.to_string(),
        Expr::Field(x) => format!("{}.{}", show(&x.input), name(x.name)),
        Expr::With(x) => format!("(with {} {})", show(&x.input), x.fields.len()),
        Expr::Call(x) => format!("[{} {}]", show(&x.lambda), show(&x.input)),
        Expr::Lambda(x) => format!("(fn {} {})", x.params.len(), show(&x.expr)),
        Expr::Variant(x) => match &x.expr {
            Some(e) => format!(":{} {}", name(x.name), show(e)),
            None => format!(":{}", name(x.name)),
        },
        Expr::Record(x) => {
            let fields: Vec<String> =
                x.fields.iter().map(|f| format!("{}={}", name(f.name), show(&f.expr))).collect();
            format!("{{{}}}", fields.join(" "))
        }
        Expr::Unary(x) => {
            let op = match x.op {
                UnOp::Nat => "nat",
                UnOp::Int => "int",
                UnOp::Real => "num",
                UnOp::Not => "!",
            };
            format!("({} {})", op, show(&x.input))
        }
        Expr::Binary(x) => {
            let op = match x.op {
                BinOp::Add => "+",
                BinOp::Sub => "-",
                BinOp::Mul => "*",
                BinOp::Div => "/",
                BinOp::Gt => ">",
                BinOp::Lt => "<",
                BinOp::GtEq => ">=",
                BinOp::LtEq => "<=",
                BinOp::Eq => "==",
                BinOp::Ne => "!=",
                BinOp::And => "and",
                BinOp::Or => "or",
            };
            format!("({} {} {})", op, show(&x.lhs), show(&x.rhs))
        }
        Expr::Tuple(x) => {
            let fields: Vec<String> = x.fields.iter().map(show).collect();
            format!("<{}>", fields.join(", "))
        }
        Expr::Block(x) => format!("(block {} {})", x.stmts.len(), show(&x.expr)),
        Expr::Do(x) => match &x.kind {
            DoKind::Expr(e) => format!("(do {})", show(e)),
            DoKind::Block(stmts) => format!("(do-block {})", stmts.len()),
        },
        Expr::Match(x) => {
            let arms: Vec<String> = x.arms.iter().map(|a| show(&a.expr)).collect();
            format!("(match {} {})", show(&x.expr), arms.join(" "))
        }
        Expr::Error(_) => "error".to_string(),
    }
}

fn parsed(input: &str) -> (String, Vec<String>, Token) {
    let tokens = lexed(input);
    let mut parser = Parser::new(&tokens);
    let e = parse::expr(&mut parser);
    let next = parser.peek();
    let diagnostics = parser.diagnostics().iter().map(|d| d.message().to_string()).collect();
    (show(&e), diagnostics, next)
}

#[test]
fn binary_operators_bind_by_level_and_group_right() {
    let (e, diags, next) = parsed("1 + 2 * 3 - 4");
    assert_eq!(e, "(+ 1 (- (* 2 3) 4))");
    assert!(diags.is_empty());
    assert_eq!(next, Token::Eof);
    assert_eq!(parsed("!a == b < c").0, "(== (! a) (< b c))");
    // `or`, `and` and `with` are not keywords of the lexer: they read as names.
    assert_eq!(parsed("a or b").0, "[[a or] b]");
    assert_eq!(parsed("a < b, c >= d").0, "<(< a b), (>= c d)>");
}

#[test]
fn calls_apply_arguments_in_turn() {
    assert_eq!(parsed("f x y").0, "[[f x] y]");
    assert_eq!(parsed("f :none x").0, "[[f :none] x]");
    assert_eq!(parsed(":some f x").0, ":some [f x]");
    assert_eq!(parsed("nat f").0, "(nat f)");
}

#[test]
fn pipes_feed_the_calls_after_them() {
    assert_eq!(parsed("x |> f |> g a").0, "[[g a] [f x]]");
    let (e, diags, next) = parsed("x\n  |> f\n  |> g\n");
    assert_eq!(e, "[g [f x]]");
    assert!(diags.is_empty());
    assert_eq!(next, Token::Eof);
    let (e, diags, _) = parsed("x |> f\n  |> g\n  |> h");
    assert_eq!(e, "[h [g [f x]]]");
    assert!(diags.is_empty());
}

#[test]
fn fields_records_and_with() {
    assert_eq!(parsed("a.b.c").0, "a.b.c");
    assert_eq!(parsed("{x: 1; y: \"s\"}").0, "{x=1 y=\"s\"}");
    assert_eq!(parsed("r with {x: 2}").0, "[[r with] {x=2}]");
    let (e, diags, _) = parsed("{\n  x: 1\n  y: 2\n}");
    assert_eq!(e, "{x=1 y=2}");
    assert!(diags.is_empty());
}

#[test]
fn lambdas_and_parentheses() {
    assert_eq!(parsed("\\x y. x + y").0, "(fn 2 (+ x y))");
    assert_eq!(parsed("(a, b)").0, "(<a, b>)");
}

#[test]
fn match_reads_its_arms() {
    let (e, diags, next) = parsed("match x\n  :a -> 1\n  :b -> 2");
    assert_eq!(e, "(match x 1 2)");
    assert!(diags.is_empty());
    assert_eq!(next, Token::Eof);
}

#[test]
fn do_blocks_read_statements() {
    let tokens = lexed("do\n  let x <- f\n  let y = x\n  g y");
    let mut parser = Parser::new(&tokens);
    let e = parse::expr(&mut parser);
    assert!(parser.diagnostics().is_empty());
    match e {
        Expr::Do(d) => match d.kind {
            DoKind::Block(stmts) => {
                assert_eq!(stmts.len(), 3);
                assert!(matches!(stmts[0], DoStmt::Bind(_)));
                assert!(matches!(stmts[1], DoStmt::Let(_)));
                match &stmts[2] {
                    DoStmt::Expr(e) => assert_eq!(show(e), "[g y]"),
                    _ => panic!("expected an expression"),
                }
            }
            _ => panic!("expected a block"),
        },
        _ => panic!("expected `do`"),
    }
    assert_eq!(parsed("do f x").0, "(do [f x])");
}

#[test]
fn indented_blocks_end_with_their_value() {
    let tokens = lexed("\n  let y = 1\n  type t = nat\n  y");
    let mut parser = Parser::new(&tokens);
    let e = parse::expr(&mut parser);
    assert!(parser.diagnostics().is_empty());
    match e {
        Expr::Block(b) => {
            assert_eq!(b.stmts.len(), 2);
            assert!(matches!(b.stmts[0], BlockStmt::Let(_)));
            assert!(matches!(b.stmts[1], BlockStmt::Def(Def::Alias(_))));
            assert_eq!(show(&b.expr), "y");
            assert_eq!(b.span, b.expr.span());
        }
        _ => panic!("expected a block"),
    }
}

#[test]
fn a_missing_expression_is_reported() {
    let (e, diags, next) = parsed(")");
    assert_eq!(e, "error");
    assert_eq!(diags, vec!["expected `expression` but found `)`".to_string()]);
    assert_eq!(next, Token::Eof);
    let (e, diags, _) = parsed("");
    assert_eq!(e, "error");
    assert_eq!(diags.len(), 1);
}

#[test]
fn a_do_let_without_equals_is_reported() {
    let tokens = lexed("do\n  let x ; y z\n  x");
    let mut parser = Parser::new(&tokens);
    parse::expr(&mut parser);
    let diags: Vec<String> = parser.diagnostics().iter().map(|d| d.message().to_string()).collect();
    assert_eq!(diags, vec!["expected `` but found `;`".to_string()]);
}

#[test]
fn expression_starts() {
    assert!(parse::is_expr(Token::Ident("x")));
    assert!(parse::is_expr(Token::Colon));
    assert!(parse::is_expr(Token::Do));
    assert!(!parse::is_expr(Token::Match));
    assert!(!parse::is_expr(Token::Comma));
}

#[test]
fn files_hold_definitions_and_globals() {
    let tokens = lexed("\nmain = f 1\n\ntype t = nat\nis nat\nx <- y\n,");
    let mut parser = Parser::new(&tokens);
    let defs = parse::def::file(&mut parser);
    assert_eq!(defs.len(), 4);
    match &defs[0] {
        ModuleDef::Global(g) => {
            assert_eq!(show(&g.expr), "[f 1]");
            assert!(g.ty.is_none());
            assert!(!g.is_local);
            assert_eq!(g.span, g.pat.span());
        }
        _ => panic!("expected a global"),
    }
    assert!(matches!(defs[1], ModuleDef::Def(Def::Alias(_))));
    match &defs[2] {
        ModuleDef::Global(g) => {
            assert!(g.ty.is_some());
            assert!(matches!(g.pat, Pat::Bind(_)));
            assert_eq!(show(&g.expr), "y");
        }
        _ => panic!("expected a global"),
    }
    assert!(matches!(defs[3], ModuleDef::Def(Def::Error(_))));
    let diags = parser.diagnostics();
    assert_eq!(diags.len(), 1);
    assert_eq!(diags[0].message(), "expected `definition` but found `,`");
}

#[test]
fn diagnostics_are_kept_in_the_order_reported() {
    let tokens = lexed(", ;\nx = )");
    let mut parser = Parser::new(&tokens);
    let defs = parse::def::file(&mut parser);
    assert_eq!(defs.len(), 3);
    assert_eq!(parser.peek(), Token::Eof);
    let diags: Vec<String> = parser.diagnostics().iter().map(|d| d.message().to_string()).collect();
    assert_eq!(
        diags,
        vec![
            "expected `definition` but found `,`".to_string(),
            "expected `definition` but found `;`".to_string(),
            "expected `expression` but found `)`".to_string(),
        ]
    );
}
