//! Parsing expressions: `do`, `match`, indented blocks and lambdas at the
//! top, then pipes, tuples, binary operators from `or` (loosest) to `*` and
//! `/` (tightest, all grouping to the right), variants, calls, `with`,
//! unary operators, field accesses and terms.
use vstd::prelude::*;

use crate::ast::expr::{
    arm_view, arms_view, block_stmt_view, block_stmts_view, do_stmt_view, do_stmts_view, expr_view,
    expr_view_span, exprs_view, field_view, fields_view, let_view, ArmView, BlockStmtView,
    DoKindView, DoStmtView, ExprView, FieldView, LetView,
};
use crate::ast::pat::{pat_view, pats_view, PatView};
use crate::ast::ty::TyView;
use crate::ast::{
    Arm, BinOp, BinaryExpr, BindStmt, BlockExpr, BlockStmt, CallExpr, DoExpr, DoKind, DoStmt, Expr,
    ExprField, FieldExpr, LambdaExpr, LetStmt, MatchExpr, NamedExpr, NumExpr, ParenExpr, Pat,
    RecordExpr, StrExpr, TupleExpr, UnOp, UnaryExpr, VariantExpr, WithExpr,
};
use crate::diagnostic::{join_spans, Span};
use crate::lex::{Token, TokenView};
use crate::parse::def::{def, is, is_def, parse_def, parse_is, starts_def};
use crate::parse::parser::{
    advanced, expect_at, expected_at, ident_at, keeps, left, lemma_advance, lemma_skip_ws_ge, nth,
    nth_index, skip_ws, wf, ParserView,
};
use crate::parse::pat::{is_pat, join_all, parse_pat, parse_pats, pat, pats};
use crate::parse::ty::{lemma_take_all, take_all_at};
use crate::parse::Parser;

verus! {

/// Whether the next token is `t`.
pub open spec fn at(p: ParserView, t: Token) -> bool {
    nth(p, 0).0 == TokenView::Other(t)
}

/// The parser after moving past every next new line.
pub open spec fn skip_newlines(p: ParserView) -> ParserView {
    take_all_at(p, TokenView::Other(Token::Newline))
}

/// Whether an expression can start with token `t`.
pub open spec fn starts_expr(t: TokenView) -> bool {
    ||| t is Ident
    ||| t is String
    ||| t is Number
    ||| t == TokenView::Other(Token::Nat)
    ||| t == TokenView::Other(Token::Int)
    ||| t == TokenView::Other(Token::Num)
    ||| t == TokenView::Other(Token::Bang)
    ||| t == TokenView::Other(Token::Do)
    ||| t == TokenView::Other(Token::Colon)
    ||| t == TokenView::Other(Token::Back)
    ||| t == TokenView::Other(Token::OpenParen)
    ||| t == TokenView::Other(Token::OpenBrace)
}

/// Whether a statement of a block starts with token `t`.
pub open spec fn starts_block_stmt(t: TokenView) -> bool {
    t == TokenView::Other(Token::Is) || t == TokenView::Other(Token::Let) || starts_def(t)
}

/// The spans of expressions.
pub open spec fn expr_spans(s: Seq<ExprView>) -> Seq<Span> {
    s.map_values(|e: ExprView| expr_view_span(e))
}

/// The operator that token `t` stands for at binary level `level`: `or`,
/// then `and`, `==` and `!=`, the comparisons, `+` and `-`, `*` and `/`.
pub open spec fn binop_at(level: nat, t: TokenView) -> Option<BinOp> {
    match t {
        TokenView::Other(Token::Or) if level == 0 => Some(BinOp::Or),
        TokenView::Other(Token::And) if level == 1 => Some(BinOp::And),
        TokenView::Other(Token::EqEq) if level == 2 => Some(BinOp::Eq),
        TokenView::Other(Token::BangEq) if level == 2 => Some(BinOp::Ne),
        TokenView::Other(Token::Gt) if level == 3 => Some(BinOp::Gt),
        TokenView::Other(Token::Lt) if level == 3 => Some(BinOp::Lt),
        TokenView::Other(Token::GtEq) if level == 3 => Some(BinOp::GtEq),
        TokenView::Other(Token::LtEq) if level == 3 => Some(BinOp::LtEq),
        TokenView::Other(Token::Plus) if level == 4 => Some(BinOp::Add),
        TokenView::Other(Token::Minus) if level == 4 => Some(BinOp::Sub),
        TokenView::Other(Token::Star) if level == 5 => Some(BinOp::Mul),
        TokenView::Other(Token::Slash) if level == 5 => Some(BinOp::Div),
        _ => None,
    }
}

/// The unary operator that token `t` stands for.
pub open spec fn unop_at(t: TokenView) -> Option<UnOp> {
    match t {
        TokenView::Other(Token::Nat) => Some(UnOp::Nat),
        TokenView::Other(Token::Int) => Some(UnOp::Int),
        TokenView::Other(Token::Num) => Some(UnOp::Real),
        TokenView::Other(Token::Bang) => Some(UnOp::Not),
        _ => None,
    }
}

/// The first `m >= n` such that the `m`-th token ahead is not a new line.
pub open spec fn newlines_end(p: ParserView, n: nat) -> nat
    decreases p.tokens.len() - n,
{
    if n < p.tokens.len() && nth(p, n).0 == TokenView::Other(Token::Newline) {
        newlines_end(p, n + 1)
    } else {
        n
    }
}

/// Whether a block of pipes follows: new lines, an indent, new lines and
/// `|>`.
pub open spec fn pipe_block_ahead(p: ParserView) -> bool {
    let n = newlines_end(p, 0);
    &&& nth(p, n).0 == TokenView::Other(Token::Indent)
    &&& nth(p, newlines_end(p, n + 1)).0 == TokenView::Other(Token::PipeGt)
}

/// An expression: a `do`, a `match`, an indented block, a lambda, or pipes.
pub open spec fn parse_expr(p: ParserView) -> (ExprView, ParserView)
    decreases left(p), 30nat,
{
    match nth(p, 0).0 {
        TokenView::Other(Token::Do) => parse_do(p),
        TokenView::Other(Token::Match) => parse_match(p),
        TokenView::Other(Token::Newline) => parse_block(p),
        TokenView::Other(Token::Back) => parse_lambda(p),
        _ => parse_pipe(p),
    }
}

/// `match`, the expression matched and its arms.
pub open spec fn parse_match(p: ParserView) -> (ExprView, ParserView)
    decreases left(p), 29nat,
{
    let span = nth(p, 0).1;
    let p1 = expect_at(p, TokenView::Other(Token::Match));
    if left(p1) < left(p) {
        let (e, p2) = parse_expr(p1);
        if left(p2) < left(p) {
            let (arms, p3) = parse_arms(p2);
            (ExprView::Match(Box::new(e), arms, span), p3)
        } else {
            (ExprView::Match(Box::new(e), Seq::empty(), span), p2)
        }
    } else {
        (ExprView::Error(span), p1)
    }
}

/// The arms of a `match`, indented on the lines after it.
pub open spec fn parse_arms(p: ParserView) -> (Seq<ArmView>, ParserView)
    decreases left(p), 44nat,
{
    let p1 = skip_newlines(expect_at(p, TokenView::Other(Token::Newline)));
    let p2 = skip_newlines(expect_at(p1, TokenView::Other(Token::Indent)));
    if left(p2) <= left(p) {
        let (arms, p3) = parse_arms_loop(p2, Seq::empty());
        (arms, expect_at(p3, TokenView::Other(Token::Dedent)))
    } else {
        (Seq::empty(), p2)
    }
}

/// Arms, each with the new lines after it, up to the dedent, added to `acc`.
pub open spec fn parse_arms_loop(p: ParserView, acc: Seq<ArmView>) -> (Seq<ArmView>, ParserView)
    decreases left(p), 43nat,
{
    if !at(p, Token::Dedent) && !at(p, Token::Eof) {
        let (arm, p1) = parse_arm(p);
        let p2 = skip_newlines(p1);
        if left(p2) < left(p) {
            parse_arms_loop(p2, acc.push(arm))
        } else {
            (acc.push(arm), p2)
        }
    } else {
        (acc, p)
    }
}

/// An arm: a pattern, `->` and an expression.
pub open spec fn parse_arm(p: ParserView) -> (ArmView, ParserView)
    decreases left(p), 42nat,
{
    let (pat, p1) = parse_pat(p);
    let p2 = expect_at(p1, TokenView::Other(Token::RightArrow));
    if left(p2) < left(p) {
        let (e, p3) = parse_expr(p2);
        (ArmView { pat, expr: e }, p3)
    } else {
        (ArmView { pat, expr: ExprView::Error(nth(p2, 0).1) }, p2)
    }
}

/// An indented block: statements, then the expression it gives, whose span
/// is the block's.
pub open spec fn parse_block(p: ParserView) -> (ExprView, ParserView)
    decreases left(p), 29nat,
{
    let p1 = skip_newlines(expect_at(p, TokenView::Other(Token::Newline)));
    let p2 = skip_newlines(expect_at(p1, TokenView::Other(Token::Indent)));
    if left(p2) < left(p) {
        let (stmts, p3) = parse_block_stmts(p2, Seq::empty());
        if left(p3) < left(p) {
            let (e, p4) = parse_expr(p3);
            let p5 = expect_at(skip_newlines(p4), TokenView::Other(Token::Dedent));
            (ExprView::Block(stmts, Box::new(e), expr_view_span(e)), p5)
        } else {
            (ExprView::Error(nth(p, 0).1), p3)
        }
    } else {
        (ExprView::Error(nth(p, 0).1), p2)
    }
}

/// The statements of a block, each with the new lines after it, added to
/// `acc`.
pub open spec fn parse_block_stmts(p: ParserView, acc: Seq<BlockStmtView>) -> (
    Seq<BlockStmtView>,
    ParserView,
)
    decreases left(p), 44nat,
{
    if starts_block_stmt(nth(p, 0).0) {
        let (stmt, p1) = parse_block_stmt(p);
        let p2 = skip_newlines(p1);
        if left(p2) < left(p) {
            parse_block_stmts(p2, acc.push(stmt))
        } else {
            (acc.push(stmt), p2)
        }
    } else {
        (acc, p)
    }
}

/// A statement of a block: a `let` or a definition.
pub open spec fn parse_block_stmt(p: ParserView) -> (BlockStmtView, ParserView)
    decreases left(p), 43nat,
{
    if at(p, Token::Is) || at(p, Token::Let) {
        let (l, p1) = parse_let(p);
        (BlockStmtView::Let(l), p1)
    } else {
        let (d, p1) = parse_def(p);
        (BlockStmtView::Def(d), p1)
    }
}

/// The head of a `let`: its type after `is`, `let`, its pattern and
/// parameters, with the span of `let`.
pub open spec fn parse_let_head(p: ParserView) -> (
    Option<TyView>,
    Span,
    PatView,
    Seq<PatView>,
    ParserView,
) {
    let (ty, p1) = parse_is(p);
    let span = nth(p1, 0).1;
    let p2 = expect_at(p1, TokenView::Other(Token::Let));
    let (pat, p3) = parse_pat(p2);
    let (params, p4) = parse_pats(p3, Seq::empty());
    (ty, span, pat, params, p4)
}

/// A `let` of a block: its head, `<-` or `=`, and an expression.
pub open spec fn parse_let(p: ParserView) -> (LetView, ParserView)
    decreases left(p), 42nat,
{
    let (ty, span, pat, params, p4) = parse_let_head(p);
    let p5 = if at(p4, Token::LeftArrow) {
        advanced(p4)
    } else {
        expect_at(p4, TokenView::Other(Token::Eq))
    };
    if left(p5) < left(p) {
        let (e, p6) = parse_expr(p5);
        (LetView { ty, pat, params, expr: e, span }, p6)
    } else {
        (LetView { ty, pat, params, expr: ExprView::Error(nth(p5, 0).1), span }, p5)
    }
}

/// `do` and an expression, or `do` and indented statements.
pub open spec fn parse_do(p: ParserView) -> (ExprView, ParserView)
    decreases left(p), 29nat,
{
    let span = nth(p, 0).1;
    let p1 = expect_at(p, TokenView::Other(Token::Do));
    if left(p1) < left(p) {
        if !at(p1, Token::Newline) {
            let (e, p2) = parse_expr(p1);
            (ExprView::Do(DoKindView::Expr(Box::new(e)), span), p2)
        } else {
            let p2 = skip_newlines(expect_at(p1, TokenView::Other(Token::Newline)));
            let p3 = skip_newlines(expect_at(p2, TokenView::Other(Token::Indent)));
            if left(p3) < left(p) {
                let (stmts, p4) = parse_do_stmts(p3, Seq::empty());
                (
                    ExprView::Do(DoKindView::Block(stmts), span),
                    expect_at(p4, TokenView::Other(Token::Dedent)),
                )
            } else {
                (ExprView::Error(span), p3)
            }
        }
    } else {
        (ExprView::Error(span), p1)
    }
}

/// The statements of a `do` block, each with the new lines after it, up to
/// the dedent, added to `acc`.
pub open spec fn parse_do_stmts(p: ParserView, acc: Seq<DoStmtView>) -> (Seq<DoStmtView>, ParserView)
    decreases left(p), 44nat,
{
    if !at(p, Token::Dedent) && !at(p, Token::Eof) {
        let (stmt, p1) = parse_stmt(p);
        let p2 = skip_newlines(p1);
        if left(p2) < left(p) {
            parse_do_stmts(p2, acc.push(stmt))
        } else {
            (acc.push(stmt), p2)
        }
    } else {
        (acc, p)
    }
}

/// A statement of a `do` block: a `let` (binding with `<-`), a definition
/// or an expression.
pub open spec fn parse_stmt(p: ParserView) -> (DoStmtView, ParserView)
    decreases left(p), 43nat,
{
    if at(p, Token::Is) || at(p, Token::Let) {
        parse_bind(p)
    } else if starts_def(nth(p, 0).0) {
        let (d, p1) = parse_def(p);
        (DoStmtView::Def(d), p1)
    } else {
        let (e, p1) = parse_expr(p);
        (DoStmtView::Expr(e), p1)
    }
}

/// A `let` of a `do` block: its head, then `=` or `<-` (anything else is
/// reported and skipped as `=`), and an expression.
pub open spec fn parse_bind(p: ParserView) -> (DoStmtView, ParserView)
    decreases left(p), 42nat,
{
    let (ty, span, pat, params, p4) = parse_let_head(p);
    let is_bind = at(p4, Token::LeftArrow);
    let p5 = if at(p4, Token::Eq) || is_bind {
        p4
    } else {
        expected_at(p4, ""@)
    };
    let p6 = advanced(p5);
    if left(p6) < left(p) {
        let (e, p7) = parse_expr(p6);
        let l = LetView { ty, pat, params, expr: e, span };
        (
            if is_bind {
                DoStmtView::Bind(l)
            } else {
                DoStmtView::Let(l)
            },
            p7,
        )
    } else {
        (DoStmtView::Expr(ExprView::Error(span)), p6)
    }
}

/// A lambda: a backslash, patterns, a dot and an expression; its span runs
/// from the backslash to the dot.
pub open spec fn parse_lambda(p: ParserView) -> (ExprView, ParserView)
    decreases left(p), 5nat,
{
    let start = nth(p, 0).1;
    let p1 = expect_at(p, TokenView::Other(Token::Back));
    if left(p1) < left(p) {
        let (first, p2) = parse_pat(p1);
        let (params, p3) = parse_pats(p2, seq![first]);
        let end = nth(p3, 0).1;
        let p4 = expect_at(p3, TokenView::Other(Token::Dot));
        if left(p4) < left(p) {
            let (e, p5) = parse_expr(p4);
            (ExprView::Lambda(params, Box::new(e), join_spans(start, end)), p5)
        } else {
            (ExprView::Error(start), p4)
        }
    } else {
        (ExprView::Error(start), p1)
    }
}

/// A tuple, then the calls that `|>` pipes it into, on its line and in an
/// indented block after it.
pub open spec fn parse_pipe(p: ParserView) -> (ExprView, ParserView)
    decreases left(p), 28nat,
{
    let (input, p1) = parse_tuple(p);
    if left(p1) <= left(p) {
        let (piped, p2) = parse_pipe_line(p1, input);
        if left(p2) <= left(p) && pipe_block_ahead(p2) {
            parse_pipe_block(p2, piped)
        } else {
            (piped, p2)
        }
    } else {
        (input, p1)
    }
}

/// Each `|>` and the call after it, applied to `input` in turn.
pub open spec fn parse_pipe_line(p: ParserView, input: ExprView) -> (ExprView, ParserView)
    decreases left(p), 25nat,
{
    if at(p, Token::PipeGt) && wf(p) {
        let p1 = advanced(p);
        proof {
            lemma_advance(p);
        }
        let (lambda, p2) = parse_call(p1);
        let call = ExprView::Call(
            Box::new(lambda),
            Box::new(input),
            join_spans(expr_view_span(lambda), expr_view_span(input)),
        );
        if left(p2) <= left(p1) {
            parse_pipe_line(p2, call)
        } else {
            (call, p2)
        }
    } else {
        (input, p)
    }
}

/// An indented block of lines of pipes, applied to `input`.
pub open spec fn parse_pipe_block(p: ParserView, input: ExprView) -> (ExprView, ParserView)
    decreases left(p), 27nat,
{
    let p1 = skip_newlines(expect_at(skip_newlines(p), TokenView::Other(Token::Indent)));
    if left(p1) <= left(p) {
        let (piped, p2) = parse_pipe_lines(p1, input);
        (piped, expect_at(p2, TokenView::Other(Token::Dedent)))
    } else {
        (input, p1)
    }
}

/// Lines of pipes, each with the new lines after it, applied to `input`.
pub open spec fn parse_pipe_lines(p: ParserView, input: ExprView) -> (ExprView, ParserView)
    decreases left(p), 26nat,
{
    if at(p, Token::PipeGt) {
        let (piped, p1) = parse_pipe_line(p, input);
        let p2 = skip_newlines(p1);
        if left(p2) < left(p) {
            parse_pipe_lines(p2, piped)
        } else {
            (piped, p2)
        }
    } else {
        (input, p)
    }
}

/// Expressions separated by commas, a tuple when there are several; its
/// span joins theirs.
pub open spec fn parse_tuple(p: ParserView) -> (ExprView, ParserView)
    decreases left(p), 24nat,
{
    let (first, p1) = parse_binary(p, 0);
    if at(p1, Token::Comma) && left(p1) <= left(p) {
        let (fields, p2) = parse_tuple_fields(p1, seq![first]);
        (ExprView::Tuple(fields, join_all(expr_spans(fields))), p2)
    } else {
        (first, p1)
    }
}

/// The fields of a tuple after the first, each after a comma, added to
/// `acc`.
pub open spec fn parse_tuple_fields(p: ParserView, acc: Seq<ExprView>) -> (Seq<ExprView>, ParserView)
    decreases left(p), 23nat,
{
    if at(p, Token::Comma) && wf(p) {
        let p1 = advanced(p);
        proof {
            lemma_advance(p);
        }
        let (field, p2) = parse_binary(p1, 0);
        if left(p2) <= left(p1) {
            parse_tuple_fields(p2, acc.push(field))
        } else {
            (acc.push(field), p2)
        }
    } else {
        (acc, p)
    }
}

/// A binary expression of level `level` (see `binop_at`): an operand of the
/// next level, and, after an operator of this level, another of this level.
pub open spec fn parse_binary(p: ParserView, level: nat) -> (ExprView, ParserView)
    decreases left(p), 22 - (if level < 5 {
        level
    } else {
        5
    }),
{
    let (lhs, p1) = if level < 5 {
        parse_binary(p, level + 1)
    } else {
        parse_variant(p)
    };
    match binop_at(level, nth(p1, 0).0) {
        Some(op) => if wf(p1) && left(p1) <= left(p) {
            let p2 = advanced(p1);
            proof {
                lemma_advance(p1);
            }
            let (rhs, p3) = parse_binary(p2, level);
            (
                ExprView::Binary(
                    op,
                    Box::new(lhs),
                    Box::new(rhs),
                    join_spans(expr_view_span(lhs), expr_view_span(rhs)),
                ),
                p3,
            )
        } else {
            (lhs, p1)
        },
        None => (lhs, p1),
    }
}

/// A variant: a colon, a name and, if an expression can start next, a call
/// as payload; its span is the colon's. Otherwise a call.
pub open spec fn parse_variant(p: ParserView) -> (ExprView, ParserView)
    decreases left(p), 16nat,
{
    if at(p, Token::Colon) && wf(p) {
        let span = nth(p, 0).1;
        let p1 = advanced(p);
        proof {
            lemma_advance(p);
        }
        let (name, p2) = ident_at(p1);
        if starts_expr(nth(p2, 0).0) && left(p2) <= left(p1) {
            let (payload, p3) = parse_call(p2);
            (ExprView::Variant(name, Some(Box::new(payload)), span), p3)
        } else {
            (ExprView::Variant(name, None, span), p2)
        }
    } else {
        parse_call(p)
    }
}

/// A call: a `with` expression applied to the arguments after it.
pub open spec fn parse_call(p: ParserView) -> (ExprView, ParserView)
    decreases left(p), 15nat,
{
    let (e, p1) = parse_with(p);
    if left(p1) <= left(p) {
        parse_call_args(p1, e)
    } else {
        (e, p1)
    }
}

/// `lambda` applied to each argument that follows, in turn.
pub open spec fn parse_call_args(p: ParserView, lambda: ExprView) -> (ExprView, ParserView)
    decreases left(p), 14nat,
{
    if starts_expr(nth(p, 0).0) {
        let (input, p1) = parse_argument(p);
        let call = ExprView::Call(
            Box::new(lambda),
            Box::new(input),
            join_spans(expr_view_span(lambda), expr_view_span(input)),
        );
        if left(p1) < left(p) {
            parse_call_args(p1, call)
        } else {
            (call, p1)
        }
    } else {
        (lambda, p)
    }
}

/// An argument: a variant without payload, or a `with` expression.
pub open spec fn parse_argument(p: ParserView) -> (ExprView, ParserView)
    decreases left(p), 13nat,
{
    if at(p, Token::Colon) {
        let p1 = advanced(p);
        let span = join_spans(nth(p, 0).1, nth(p1, 0).1);
        let (name, p2) = ident_at(p1);
        (ExprView::Variant(name, None, span), p2)
    } else {
        parse_with(p)
    }
}

/// A unary expression, then, after `with`, fields in braces.
pub open spec fn parse_with(p: ParserView) -> (ExprView, ParserView)
    decreases left(p), 12nat,
{
    let (e, p1) = parse_unary(p);
    if at(p1, Token::With) && left(p1) <= left(p) && wf(p1) {
        let p2 = expect_at(advanced(p1), TokenView::Other(Token::OpenBrace));
        proof {
            lemma_advance(p1);
        }
        if left(p2) < left(p) {
            let (fields, p3) = parse_fields(p2);
            let end = nth(p3, 0).1;
            (
                ExprView::With(Box::new(e), fields, join_spans(expr_view_span(e), end)),
                expect_at(p3, TokenView::Other(Token::CloseBrace)),
            )
        } else {
            (e, p2)
        }
    } else {
        (e, p1)
    }
}

/// Unary operators, each before its operand, then a field access.
pub open spec fn parse_unary(p: ParserView) -> (ExprView, ParserView)
    decreases left(p), 11nat,
{
    match unop_at(nth(p, 0).0) {
        Some(op) => if wf(p) {
            let span = nth(p, 0).1;
            let p1 = advanced(p);
            proof {
                lemma_advance(p);
            }
            let (input, p2) = parse_unary(p1);
            (ExprView::Unary(op, Box::new(input), join_spans(span, expr_view_span(input))), p2)
        } else {
            parse_field(p)
        },
        None => parse_field(p),
    }
}

/// A term, then fields accessed with dots.
pub open spec fn parse_field(p: ParserView) -> (ExprView, ParserView)
    decreases left(p), 10nat,
{
    let (e, p1) = parse_term(p);
    if left(p1) <= left(p) {
        parse_field_loop(p1, e, expr_view_span(e))
    } else {
        (e, p1)
    }
}

/// Each dot and field name applied to `e` in turn; each access's span joins
/// `span` with the names so far.
pub open spec fn parse_field_loop(p: ParserView, e: ExprView, span: Span) -> (ExprView, ParserView)
    decreases left(p), 9nat,
{
    if at(p, Token::Dot) && wf(p) {
        let p1 = advanced(p);
        proof {
            lemma_advance(p);
        }
        let span2 = join_spans(span, nth(p1, 0).1);
        let (name, p2) = ident_at(p1);
        let field = ExprView::Field(Box::new(e), name, span2);
        if left(p2) <= left(p1) {
            parse_field_loop(p2, field, span2)
        } else {
            (field, p2)
        }
    } else {
        (e, p)
    }
}

/// A term: a number, a string, a name, a lambda, an expression in
/// parentheses, a record; any other token is reported and skipped.
pub open spec fn parse_term(p: ParserView) -> (ExprView, ParserView)
    decreases left(p), 8nat,
{
    let (t, span) = nth(p, 0);
    match t {
        TokenView::Number(x) => (ExprView::Num(x, span), advanced(p)),
        TokenView::String(x) => (ExprView::Str(x, span), advanced(p)),
        TokenView::Ident(x) => (ExprView::Named(None, x, span), advanced(p)),
        TokenView::Other(Token::Back) => parse_lambda(p),
        TokenView::Other(Token::OpenParen) => parse_paren(p),
        TokenView::Other(Token::OpenBrace) => parse_record(p),
        _ => (ExprView::Error(span), expected_at(p, "expression"@)),
    }
}

/// An expression in parentheses.
pub open spec fn parse_paren(p: ParserView) -> (ExprView, ParserView)
    decreases left(p), 5nat,
{
    let start = nth(p, 0).1;
    let p1 = expect_at(p, TokenView::Other(Token::OpenParen));
    if left(p1) < left(p) {
        let (e, p2) = parse_expr(p1);
        let end = nth(p2, 0).1;
        (
            ExprView::Paren(Box::new(e), join_spans(start, end)),
            expect_at(p2, TokenView::Other(Token::CloseParen)),
        )
    } else {
        (ExprView::Error(start), p1)
    }
}

/// A record: fields in braces.
pub open spec fn parse_record(p: ParserView) -> (ExprView, ParserView)
    decreases left(p), 5nat,
{
    let start = nth(p, 0).1;
    let p1 = expect_at(p, TokenView::Other(Token::OpenBrace));
    if left(p1) < left(p) {
        let (fields, p2) = parse_fields(p1);
        let end = nth(p2, 0).1;
        (
            ExprView::Record(fields, join_spans(start, end)),
            expect_at(p2, TokenView::Other(Token::CloseBrace)),
        )
    } else {
        (ExprView::Error(start), p1)
    }
}

/// Fields: one per line in an indented block when a new line comes first,
/// separated by semicolons otherwise.
pub open spec fn parse_fields(p: ParserView) -> (Seq<FieldView>, ParserView)
    decreases left(p), 44nat,
{
    if at(p, Token::Newline) {
        let p1 = skip_newlines(expect_at(skip_newlines(p), TokenView::Other(Token::Indent)));
        if left(p1) <= left(p) {
            let (fields, p2) = parse_block_fields(p1, Seq::empty());
            (fields, expect_at(p2, TokenView::Other(Token::Dedent)))
        } else {
            (Seq::empty(), p1)
        }
    } else {
        parse_line_fields(p, Seq::empty())
    }
}

/// Fields, each with the new lines after it, up to the dedent, added to
/// `acc`.
pub open spec fn parse_block_fields(p: ParserView, acc: Seq<FieldView>) -> (Seq<FieldView>, ParserView)
    decreases left(p), 43nat,
{
    if !at(p, Token::Dedent) && !at(p, Token::Eof) {
        let (field, p1) = parse_field_init(p);
        let p2 = skip_newlines(p1);
        if left(p2) < left(p) {
            parse_block_fields(p2, acc.push(field))
        } else {
            (acc.push(field), p2)
        }
    } else {
        (acc, p)
    }
}

/// Fields separated by semicolons, up to the closing brace, added to `acc`.
pub open spec fn parse_line_fields(p: ParserView, acc: Seq<FieldView>) -> (Seq<FieldView>, ParserView)
    decreases left(p), 43nat,
{
    if !at(p, Token::CloseBrace) && !at(p, Token::Eof) {
        let (field, p1) = parse_field_init(p);
        if at(p1, Token::Semi) {
            let p2 = advanced(p1);
            if left(p2) < left(p) {
                parse_line_fields(p2, acc.push(field))
            } else {
                (acc.push(field), p2)
            }
        } else {
            (acc.push(field), p1)
        }
    } else {
        (acc, p)
    }
}

/// A field: a name, a colon and an expression; its span is the name's.
pub open spec fn parse_field_init(p: ParserView) -> (FieldView, ParserView)
    decreases left(p), 42nat,
{
    let span = nth(p, 0).1;
    let (name, p1) = ident_at(p);
    let p2 = expect_at(p1, TokenView::Other(Token::Colon));
    if left(p2) < left(p) {
        let (e, p3) = parse_expr(p2);
        (FieldView { name, expr: e, span }, p3)
    } else {
        (FieldView { name, expr: ExprView::Error(nth(p2, 0).1), span }, p2)
    }
}

/// Whether an expression can start with `token`.
pub fn is_expr(token: Token) -> (r: bool)
    ensures
        r == starts_expr(token@),
{
    match token {
        Token::Ident(..) | Token::String(..) | Token::Number(..) | Token::Nat | Token::Int
        | Token::Num | Token::Bang | Token::Do | Token::Colon | Token::Back | Token::OpenParen
        | Token::OpenBrace => true,
        _ => false,
    }
}

fn term(parser: &mut Parser) -> (r: Expr)
    requires
        wf(old(parser)@),
    ensures
        keeps(old(parser)@, final(parser)@),
        (expr_view(r), final(parser)@) == parse_term(old(parser)@),
        wf(final(parser)@),
        left(final(parser)@) <= left(old(parser)@),
        nth(old(parser)@, 0).0 != TokenView::Other(Token::Eof) ==> left(final(parser)@) < left(
            old(parser)@,
        ),
    decreases left(old(parser)@), 8nat,
{
    proof {
        lemma_advance(parser@);
    }
    match parser.peek() {
        Token::Number(number) => {
            let span = parser.consume();
            Expr::Num(NumExpr { number, span })
        },
        Token::String(string) => {
            let span = parser.consume();
            Expr::Str(StrExpr { string, span })
        },
        Token::Ident(name) => {
            let span = parser.consume();
            Expr::Named(NamedExpr { import: None, name, span })
        },
        Token::Back => lambda(parser),
        Token::OpenParen => paren(parser),
        Token::OpenBrace => record(parser),
        _ => {
            let span = parser.expected("expression");
            Expr::Error(span)
        },
    }
}

fn paren(parser: &mut Parser) -> (r: Expr)
    requires
        wf(old(parser)@),
        nth(old(parser)@, 0).0 == TokenView::Other(Token::OpenParen),
    ensures
        keeps(old(parser)@, final(parser)@),
        (expr_view(r), final(parser)@) == parse_paren(old(parser)@),
        wf(final(parser)@),
        left(final(parser)@) < left(old(parser)@),
    decreases left(old(parser)@), 5nat,
{
    proof {
        lemma_advance(parser@);
    }
    let start = parser.expect(Token::OpenParen);
    let e = expr(parser);
    proof {
        lemma_advance(parser@);
    }
    let end = parser.expect(Token::CloseParen);
    Expr::Paren(ParenExpr { expr: Box::new(e), span: start.join(end) })
}

fn record(parser: &mut Parser) -> (r: Expr)
    requires
        wf(old(parser)@),
        nth(old(parser)@, 0).0 == TokenView::Other(Token::OpenBrace),
    ensures
        keeps(old(parser)@, final(parser)@),
        (expr_view(r), final(parser)@) == parse_record(old(parser)@),
        wf(final(parser)@),
        left(final(parser)@) < left(old(parser)@),
    decreases left(old(parser)@), 5nat,
{
    proof {
        lemma_advance(parser@);
    }
    let start = parser.expect(Token::OpenBrace);
    let fields = fields(parser);
    proof {
        lemma_advance(parser@);
    }
    let end = parser.expect(Token::CloseBrace);
    Expr::Record(RecordExpr { fields, span: start.join(end) })
}

/// Fields: one per line in an indented block when a new line comes first,
/// separated by semicolons otherwise.
fn fields(parser: &mut Parser) -> (r: Vec<ExprField>)
    requires
        wf(old(parser)@),
    ensures
        keeps(old(parser)@, final(parser)@),
        (fields_view(r@), final(parser)@) == parse_fields(old(parser)@),
        wf(final(parser)@),
        left(final(parser)@) <= left(old(parser)@),
    decreases left(old(parser)@), 44nat,
{
    let ghost p = parser@;
    let mut fields: Vec<ExprField> = Vec::new();
    assert(fields_view(fields@) =~= Seq::<FieldView>::empty());
    if parser.is(Token::Newline) {
        proof {
            lemma_take_all(parser@, TokenView::Other(Token::Newline));
        }
        parser.take_all(Token::Newline);
        proof {
            lemma_advance(parser@);
        }
        parser.expect(Token::Indent);
        proof {
            lemma_take_all(parser@, TokenView::Other(Token::Newline));
        }
        parser.take_all(Token::Newline);
        let ghost p1 = parser@;
        while !parser.is(Token::Dedent) && !parser.is(Token::Eof)
            invariant
                wf(parser@),
                keeps(old(parser)@, parser@),
                left(parser@) <= left(p1),
                left(p1) <= left(p),
                p == old(parser)@,
                parse_block_fields(parser@, fields_view(fields@)) == parse_block_fields(
                    p1,
                    Seq::empty(),
                ),
            decreases left(parser@),
        {
            let ghost acc = fields_view(fields@);
            let field = field_init(parser);
            proof {
                lemma_take_all(parser@, TokenView::Other(Token::Newline));
            }
            parser.take_all(Token::Newline);
            let ghost fv = field_view(field);
            fields.push(field);
            assert(fields_view(fields@) =~= acc.push(fv));
        }
        proof {
            lemma_advance(parser@);
        }
        parser.expect(Token::Dedent);
    } else {
        while !parser.is(Token::CloseBrace) && !parser.is(Token::Eof)
            invariant_except_break
                parse_line_fields(parser@, fields_view(fields@)) == parse_line_fields(p, Seq::empty()),
            invariant
                wf(parser@),
                keeps(old(parser)@, parser@),
                left(parser@) <= left(p),
                p == old(parser)@,
            ensures
                (fields_view(fields@), parser@) == parse_line_fields(p, Seq::empty()),
            decreases left(parser@),
        {
            let ghost acc = fields_view(fields@);
            let ghost before = parser@;
            let field = field_init(parser);
            let ghost fv = field_view(field);
            fields.push(field);
            assert(fields_view(fields@) =~= acc.push(fv));
            proof {
                lemma_advance(parser@);
            }
            if !parser.take(Token::Semi) {
                assert(parse_line_fields(before, acc) == (acc.push(fv), parser@));
                break;
            }
        }
    }
    fields
}

fn field_init(parser: &mut Parser) -> (r: ExprField)
    requires
        wf(old(parser)@),
        !at(old(parser)@, Token::Eof),
    ensures
        keeps(old(parser)@, final(parser)@),
        (field_view(r), final(parser)@) == parse_field_init(old(parser)@),
        wf(final(parser)@),
        left(final(parser)@) <= left(old(parser)@),
        nth(old(parser)@, 0).0 != TokenView::Other(Token::Eof) ==> left(final(parser)@) < left(
            old(parser)@,
        ),
    decreases left(old(parser)@), 42nat,
{
    let span = parser.span();
    proof {
        lemma_advance(parser@);
    }
    let name = parser.expect_ident();
    proof {
        lemma_advance(parser@);
    }
    parser.expect(Token::Colon);
    let e = expr(parser);
    ExprField { name, expr: e, span }
}

fn field(parser: &mut Parser) -> (r: Expr)
    requires
        wf(old(parser)@),
    ensures
        keeps(old(parser)@, final(parser)@),
        (expr_view(r), final(parser)@) == parse_field(old(parser)@),
        wf(final(parser)@),
        left(final(parser)@) <= left(old(parser)@),
        nth(old(parser)@, 0).0 != TokenView::Other(Token::Eof) ==> left(final(parser)@) < left(
            old(parser)@,
        ),
    decreases left(old(parser)@), 10nat,
{
    let ghost p = parser@;
    let mut e = term(parser);
    let ghost p1 = parser@;
    let mut span = e.span();
    let ghost start = expr_view(e);
    while parser.is(Token::Dot)
        invariant
            wf(parser@),
            keeps(old(parser)@, parser@),
            left(parser@) <= left(p1),
            left(p1) <= left(p),
            nth(p, 0).0 != TokenView::Other(Token::Eof) ==> left(p1) < left(p),
            p == old(parser)@,
            parse_field_loop(parser@, expr_view(e), span) == parse_field_loop(
                p1,
                start,
                expr_view_span(start),
            ),
        decreases left(parser@),
    {
        proof {
            lemma_advance(parser@);
        }
        parser.consume();
        span = span.join(parser.span());
        proof {
            lemma_advance(parser@);
        }
        let name = parser.expect_ident();
        e = Expr::Field(FieldExpr { input: Box::new(e), name, span });
    }
    e
}

fn unary(parser: &mut Parser) -> (r: Expr)
    requires
        wf(old(parser)@),
    ensures
        keeps(old(parser)@, final(parser)@),
        (expr_view(r), final(parser)@) == parse_unary(old(parser)@),
        wf(final(parser)@),
        left(final(parser)@) <= left(old(parser)@),
        nth(old(parser)@, 0).0 != TokenView::Other(Token::Eof) ==> left(final(parser)@) < left(
            old(parser)@,
        ),
    decreases left(old(parser)@), 11nat,
{
    let op = match parser.peek() {
        Token::Nat => UnOp::Nat,
        Token::Int => UnOp::Int,
        Token::Num => UnOp::Real,
        Token::Bang => UnOp::Not,
        _ => {
            return field(parser);
        },
    };
    proof {
        lemma_advance(parser@);
    }
    let span = parser.consume();
    let input = unary(parser);
    let span = span.join(input.span());
    Expr::Unary(UnaryExpr { op, input: Box::new(input), span })
}

fn with(parser: &mut Parser) -> (r: Expr)
    requires
        wf(old(parser)@),
    ensures
        keeps(old(parser)@, final(parser)@),
        (expr_view(r), final(parser)@) == parse_with(old(parser)@),
        wf(final(parser)@),
        left(final(parser)@) <= left(old(parser)@),
        nth(old(parser)@, 0).0 != TokenView::Other(Token::Eof) ==> left(final(parser)@) < left(
            old(parser)@,
        ),
    decreases left(old(parser)@), 12nat,
{
    let e = unary(parser);
    proof {
        lemma_advance(parser@);
    }
    if !parser.take(Token::With) {
        return e;
    }
    proof {
        lemma_advance(parser@);
    }
    parser.expect(Token::OpenBrace);
    let fields = fields(parser);
    proof {
        lemma_advance(parser@);
    }
    let end = parser.expect(Token::CloseBrace);
    let span = e.span().join(end);
    Expr::With(WithExpr { input: Box::new(e), fields, span })
}

fn argument(parser: &mut Parser) -> (r: Expr)
    requires
        wf(old(parser)@),
    ensures
        keeps(old(parser)@, final(parser)@),
        (expr_view(r), final(parser)@) == parse_argument(old(parser)@),
        wf(final(parser)@),
        left(final(parser)@) <= left(old(parser)@),
        nth(old(parser)@, 0).0 != TokenView::Other(Token::Eof) ==> left(final(parser)@) < left(
            old(parser)@,
        ),
    decreases left(old(parser)@), 13nat,
{
    if parser.is(Token::Colon) {
        proof {
            lemma_advance(parser@);
        }
        let span = parser.consume();
        let span = span.join(parser.span());
        proof {
            lemma_advance(parser@);
        }
        let name = parser.expect_ident();
        Expr::Variant(VariantExpr { name, expr: None, span })
    } else {
        with(parser)
    }
}

fn call(parser: &mut Parser) -> (r: Expr)
    requires
        wf(old(parser)@),
    ensures
        keeps(old(parser)@, final(parser)@),
        (expr_view(r), final(parser)@) == parse_call(old(parser)@),
        wf(final(parser)@),
        left(final(parser)@) <= left(old(parser)@),
        nth(old(parser)@, 0).0 != TokenView::Other(Token::Eof) ==> left(final(parser)@) < left(
            old(parser)@,
        ),
    decreases left(old(parser)@), 15nat,
{
    let ghost p = parser@;
    let mut e = with(parser);
    let ghost p1 = parser@;
    let ghost start = expr_view(e);
    while is_expr(parser.peek())
        invariant
            wf(parser@),
            keeps(old(parser)@, parser@),
            left(parser@) <= left(p1),
            left(p1) <= left(p),
            nth(p, 0).0 != TokenView::Other(Token::Eof) ==> left(p1) < left(p),
            p == old(parser)@,
            parse_call_args(parser@, expr_view(e)) == parse_call_args(p1, start),
        decreases left(parser@),
    {
        let input = argument(parser);
        let span = e.span().join(input.span());
        e = Expr::Call(CallExpr { lambda: Box::new(e), input: Box::new(input), span });
    }
    e
}

#[verifier::rlimit(80)]
fn variant(parser: &mut Parser) -> (r: Expr)
    requires
        wf(old(parser)@),
    ensures
        keeps(old(parser)@, final(parser)@),
        (expr_view(r), final(parser)@) == parse_variant(old(parser)@),
        wf(final(parser)@),
        left(final(parser)@) <= left(old(parser)@),
        nth(old(parser)@, 0).0 != TokenView::Other(Token::Eof) ==> left(final(parser)@) < left(
            old(parser)@,
        ),
    decreases left(old(parser)@), 16nat,
{
    if !parser.is(Token::Colon) {
        return call(parser);
    }
    proof {
        lemma_advance(parser@);
    }
    let span = parser.consume();
    proof {
        lemma_advance(parser@);
    }
    let name = parser.expect_ident();
    let payload = if is_expr(parser.peek()) {
        Some(Box::new(call(parser)))
    } else {
        None
    };
    Expr::Variant(VariantExpr { name, expr: payload, span })
}

/// The operator that `token` stands for at binary level `level`.
fn binary_op(level: u8, token: Token) -> (r: Option<BinOp>)
    ensures
        r == binop_at(level as nat, token@),
{
    match token {
        Token::Or if level == 0 => Some(BinOp::Or),
        Token::And if level == 1 => Some(BinOp::And),
        Token::EqEq if level == 2 => Some(BinOp::Eq),
        Token::BangEq if level == 2 => Some(BinOp::Ne),
        Token::Gt if level == 3 => Some(BinOp::Gt),
        Token::Lt if level == 3 => Some(BinOp::Lt),
        Token::GtEq if level == 3 => Some(BinOp::GtEq),
        Token::LtEq if level == 3 => Some(BinOp::LtEq),
        Token::Plus if level == 4 => Some(BinOp::Add),
        Token::Minus if level == 4 => Some(BinOp::Sub),
        Token::Star if level == 5 => Some(BinOp::Mul),
        Token::Slash if level == 5 => Some(BinOp::Div),
        _ => None,
    }
}

#[verifier::rlimit(80)]
fn binary(parser: &mut Parser, level: u8) -> (r: Expr)
    requires
        wf(old(parser)@),
        level <= 5,
    ensures
        keeps(old(parser)@, final(parser)@),
        (expr_view(r), final(parser)@) == parse_binary(old(parser)@, level as nat),
        wf(final(parser)@),
        left(final(parser)@) <= left(old(parser)@),
        nth(old(parser)@, 0).0 != TokenView::Other(Token::Eof) ==> left(final(parser)@) < left(
            old(parser)@,
        ),
    decreases left(old(parser)@), 22 - level,
{
    let lhs = if level < 5 {
        binary(parser, level + 1)
    } else {
        variant(parser)
    };
    match binary_op(level, parser.peek()) {
        Some(op) => {
            proof {
                lemma_advance(parser@);
            }
            parser.consume();
            let rhs = binary(parser, level);
            let span = lhs.span().join(rhs.span());
            Expr::Binary(BinaryExpr { op, lhs: Box::new(lhs), rhs: Box::new(rhs), span })
        },
        None => lhs,
    }
}

#[verifier::rlimit(80)]
fn tuple(parser: &mut Parser) -> (r: Expr)
    requires
        wf(old(parser)@),
    ensures
        keeps(old(parser)@, final(parser)@),
        (expr_view(r), final(parser)@) == parse_tuple(old(parser)@),
        wf(final(parser)@),
        left(final(parser)@) <= left(old(parser)@),
        nth(old(parser)@, 0).0 != TokenView::Other(Token::Eof) ==> left(final(parser)@) < left(
            old(parser)@,
        ),
    decreases left(old(parser)@), 24nat,
{
    let ghost p = parser@;
    let first = binary(parser, 0);
    if !parser.is(Token::Comma) {
        return first;
    }
    let ghost p1 = parser@;
    let ghost fv = expr_view(first);
    let mut fields: Vec<Expr> = Vec::new();
    fields.push(first);
    assert(exprs_view(fields@) =~= seq![fv]);
    while parser.is(Token::Comma)
        invariant
            wf(parser@),
            keeps(old(parser)@, parser@),
            left(parser@) <= left(p1),
            left(p1) <= left(p),
            nth(p, 0).0 != TokenView::Other(Token::Eof) ==> left(p1) < left(p),
            fields@.len() > 0,
            p == old(parser)@,
            parse_tuple_fields(parser@, exprs_view(fields@)) == parse_tuple_fields(p1, seq![fv]),
        decreases left(parser@),
    {
        proof {
            lemma_advance(parser@);
        }
        parser.consume();
        let ghost acc = exprs_view(fields@);
        let field = binary(parser, 0);
        let ghost v = expr_view(field);
        fields.push(field);
        assert(exprs_view(fields@) =~= acc.push(v));
    }
    let ghost all = exprs_view(fields@);
    let mut span = fields[0].span();
    let mut i: usize = 1;
    assert(expr_spans(all.take(1)) =~= seq![expr_view_span(all[0])]);
    while i < fields.len()
        invariant
            all == exprs_view(fields@),
            1 <= i <= fields@.len(),
            span == join_all(expr_spans(all.take(i as int))),
        decreases fields@.len() - i,
    {
        assert(expr_spans(all.take(i + 1)).drop_last() =~= expr_spans(all.take(i as int)));
        span = span.join(fields[i].span());
        i = i + 1;
    }
    assert(all.take(fields@.len() as int) =~= all);
    Expr::Tuple(TupleExpr { fields, span })
}

/// The index of the `n`-th token ahead is at least `n` past the position.
proof fn lemma_nth_index_ge(ts: Seq<(TokenView, Span)>, i: int, n: nat)
    requires
        0 <= i,
    ensures
        nth_index(ts, i, n) >= i + n,
    decreases n,
{
    lemma_skip_ws_ge(ts, i);
    if n > 0 {
        lemma_nth_index_ge(ts, skip_ws(ts, i) + 1, (n - 1) as nat);
    }
}

/// Whether a block of pipes follows: new lines, an indent, new lines and
/// `|>`.
fn is_pipe_block(parser: &Parser) -> (r: bool)
    requires
        wf(parser@),
    ensures
        r == pipe_block_ahead(parser@),
{
    let ghost p = parser@;
    let count = parser.token_count();
    let mut n: usize = 0;
    while n < count && parser.is_nth(n, Token::Newline)
        invariant
            p == parser@,
            count == p.tokens.len(),
            n <= count,
            newlines_end(p, n as nat) == newlines_end(p, 0),
        decreases count - n,
    {
        n = n + 1;
    }
    let ghost first = n;
    if !parser.is_nth(n, Token::Indent) {
        return false;
    }
    proof {
        lemma_nth_index_ge(p.tokens, p.index, n as nat);
    }
    n = n + 1;
    while n < count && parser.is_nth(n, Token::Newline)
        invariant
            p == parser@,
            count == p.tokens.len(),
            n <= count,
            newlines_end(p, n as nat) == newlines_end(p, (first + 1) as nat),
        decreases count - n,
    {
        n = n + 1;
    }
    parser.is_nth(n, Token::PipeGt)
}

fn pipe_line(parser: &mut Parser, input: Expr) -> (r: Expr)
    requires
        wf(old(parser)@),
    ensures
        keeps(old(parser)@, final(parser)@),
        (expr_view(r), final(parser)@) == parse_pipe_line(old(parser)@, expr_view(input)),
        wf(final(parser)@),
        left(final(parser)@) <= left(old(parser)@),
        at(old(parser)@, Token::PipeGt) ==> left(final(parser)@) < left(old(parser)@),
    decreases left(old(parser)@), 25nat,
{
    let ghost p = parser@;
    let ghost start = expr_view(input);
    let mut input = input;
    while parser.is(Token::PipeGt)
        invariant
            wf(parser@),
            keeps(old(parser)@, parser@),
            left(parser@) <= left(p),
            at(p, Token::PipeGt) ==> (parser@ == p || left(parser@) < left(p)),
            p == old(parser)@,
            parse_pipe_line(parser@, expr_view(input)) == parse_pipe_line(p, start),
        decreases left(parser@),
    {
        proof {
            lemma_advance(parser@);
        }
        parser.expect(Token::PipeGt);
        let lambda = call(parser);
        let span = lambda.span().join(input.span());
        input = Expr::Call(CallExpr { lambda: Box::new(lambda), input: Box::new(input), span });
    }
    input
}

fn pipe_block(parser: &mut Parser, input: Expr) -> (r: Expr)
    requires
        wf(old(parser)@),
    ensures
        keeps(old(parser)@, final(parser)@),
        (expr_view(r), final(parser)@) == parse_pipe_block(old(parser)@, expr_view(input)),
        wf(final(parser)@),
        left(final(parser)@) <= left(old(parser)@),
    decreases left(old(parser)@), 27nat,
{
    let ghost p = parser@;
    proof {
        lemma_take_all(parser@, TokenView::Other(Token::Newline));
    }
    parser.take_all(Token::Newline);
    proof {
        lemma_advance(parser@);
    }
    parser.expect(Token::Indent);
    proof {
        lemma_take_all(parser@, TokenView::Other(Token::Newline));
    }
    parser.take_all(Token::Newline);
    let ghost p1 = parser@;
    let ghost start = expr_view(input);
    let mut input = input;
    while parser.is(Token::PipeGt)
        invariant
            wf(parser@),
            keeps(old(parser)@, parser@),
            left(parser@) <= left(p1),
            left(p1) <= left(p),
            p == old(parser)@,
            parse_pipe_lines(parser@, expr_view(input)) == parse_pipe_lines(p1, start),
        decreases left(parser@),
    {
        input = pipe_line(parser, input);
        proof {
            lemma_take_all(parser@, TokenView::Other(Token::Newline));
        }
        parser.take_all(Token::Newline);
    }
    proof {
        lemma_advance(parser@);
    }
    parser.expect(Token::Dedent);
    input
}

#[verifier::rlimit(80)]
fn pipe(parser: &mut Parser) -> (r: Expr)
    requires
        wf(old(parser)@),
    ensures
        keeps(old(parser)@, final(parser)@),
        (expr_view(r), final(parser)@) == parse_pipe(old(parser)@),
        wf(final(parser)@),
        left(final(parser)@) <= left(old(parser)@),
        nth(old(parser)@, 0).0 != TokenView::Other(Token::Eof) ==> left(final(parser)@) < left(
            old(parser)@,
        ),
    decreases left(old(parser)@), 28nat,
{
    let input = tuple(parser);
    let piped = pipe_line(parser, input);
    if is_pipe_block(parser) {
        pipe_block(parser, piped)
    } else {
        piped
    }
}

/// An expression: a `do`, a `match`, an indented block, a lambda, or pipes.
pub fn expr(parser: &mut Parser) -> (r: Expr)
    requires
        wf(old(parser)@),
    ensures
        keeps(old(parser)@, final(parser)@),
        (expr_view(r), final(parser)@) == parse_expr(old(parser)@),
        wf(final(parser)@),
        left(final(parser)@) <= left(old(parser)@),
        nth(old(parser)@, 0).0 != TokenView::Other(Token::Eof) ==> left(final(parser)@) < left(
            old(parser)@,
        ),
    decreases left(old(parser)@), 30nat,
{
    match parser.peek() {
        Token::Do => do_expr(parser),
        Token::Match => match_expr(parser),
        Token::Newline => block(parser),
        Token::Back => lambda(parser),
        _ => pipe(parser),
    }
}

fn match_expr(parser: &mut Parser) -> (r: Expr)
    requires
        wf(old(parser)@),
        at(old(parser)@, Token::Match),
    ensures
        keeps(old(parser)@, final(parser)@),
        (expr_view(r), final(parser)@) == parse_match(old(parser)@),
        wf(final(parser)@),
        left(final(parser)@) < left(old(parser)@),
    decreases left(old(parser)@), 29nat,
{
    proof {
        lemma_advance(parser@);
    }
    let span = parser.expect(Token::Match);
    let e = expr(parser);
    let arms = arms(parser);
    Expr::Match(MatchExpr { expr: Box::new(e), arms, span })
}

fn arms(parser: &mut Parser) -> (r: Vec<Arm>)
    requires
        wf(old(parser)@),
    ensures
        keeps(old(parser)@, final(parser)@),
        (arms_view(r@), final(parser)@) == parse_arms(old(parser)@),
        wf(final(parser)@),
        left(final(parser)@) <= left(old(parser)@),
    decreases left(old(parser)@), 44nat,
{
    let ghost p = parser@;
    proof {
        lemma_advance(parser@);
    }
    parser.expect(Token::Newline);
    proof {
        lemma_take_all(parser@, TokenView::Other(Token::Newline));
    }
    parser.take_all(Token::Newline);
    proof {
        lemma_advance(parser@);
    }
    parser.expect(Token::Indent);
    proof {
        lemma_take_all(parser@, TokenView::Other(Token::Newline));
    }
    parser.take_all(Token::Newline);
    let ghost p1 = parser@;
    let mut arms: Vec<Arm> = Vec::new();
    assert(arms_view(arms@) =~= Seq::<ArmView>::empty());
    while !parser.is(Token::Dedent) && !parser.is(Token::Eof)
        invariant
            wf(parser@),
            keeps(old(parser)@, parser@),
            left(parser@) <= left(p1),
            left(p1) <= left(p),
            p == old(parser)@,
            parse_arms_loop(parser@, arms_view(arms@)) == parse_arms_loop(p1, Seq::empty()),
        decreases left(parser@),
    {
        let ghost acc = arms_view(arms@);
        let a = arm(parser);
        proof {
            lemma_take_all(parser@, TokenView::Other(Token::Newline));
        }
        parser.take_all(Token::Newline);
        let ghost v = arm_view(a);
        arms.push(a);
        assert(arms_view(arms@) =~= acc.push(v));
    }
    proof {
        lemma_advance(parser@);
    }
    parser.expect(Token::Dedent);
    arms
}

fn arm(parser: &mut Parser) -> (r: Arm)
    requires
        wf(old(parser)@),
        !at(old(parser)@, Token::Eof),
    ensures
        keeps(old(parser)@, final(parser)@),
        (arm_view(r), final(parser)@) == parse_arm(old(parser)@),
        wf(final(parser)@),
        left(final(parser)@) <= left(old(parser)@),
        nth(old(parser)@, 0).0 != TokenView::Other(Token::Eof) ==> left(final(parser)@) < left(
            old(parser)@,
        ),
    decreases left(old(parser)@), 42nat,
{
    let pat = pat(parser);
    proof {
        lemma_advance(parser@);
    }
    parser.expect(Token::RightArrow);
    let e = expr(parser);
    Arm { pat, expr: e }
}

/// Whether a statement of a block starts with `token`.
fn is_block_stmt(token: Token) -> (r: bool)
    ensures
        r == starts_block_stmt(token@),
{
    match token {
        Token::Is | Token::Let => true,
        _ => is_def(token),
    }
}

fn block(parser: &mut Parser) -> (r: Expr)
    requires
        wf(old(parser)@),
        at(old(parser)@, Token::Newline),
    ensures
        keeps(old(parser)@, final(parser)@),
        (expr_view(r), final(parser)@) == parse_block(old(parser)@),
        wf(final(parser)@),
        left(final(parser)@) < left(old(parser)@),
    decreases left(old(parser)@), 29nat,
{
    let ghost p = parser@;
    proof {
        lemma_advance(parser@);
    }
    parser.expect(Token::Newline);
    proof {
        lemma_take_all(parser@, TokenView::Other(Token::Newline));
    }
    parser.take_all(Token::Newline);
    proof {
        lemma_advance(parser@);
    }
    parser.expect(Token::Indent);
    proof {
        lemma_take_all(parser@, TokenView::Other(Token::Newline));
    }
    parser.take_all(Token::Newline);
    let ghost p2 = parser@;
    let mut stmts: Vec<BlockStmt> = Vec::new();
    assert(block_stmts_view(stmts@) =~= Seq::<BlockStmtView>::empty());
    while is_block_stmt(parser.peek())
        invariant
            wf(parser@),
            keeps(old(parser)@, parser@),
            left(parser@) <= left(p2),
            left(p2) < left(p),
            p == old(parser)@,
            parse_block_stmts(parser@, block_stmts_view(stmts@)) == parse_block_stmts(
                p2,
                Seq::empty(),
            ),
        decreases left(parser@),
    {
        let ghost acc = block_stmts_view(stmts@);
        let stmt = block_stmt(parser);
        proof {
            lemma_take_all(parser@, TokenView::Other(Token::Newline));
        }
        parser.take_all(Token::Newline);
        let ghost v = block_stmt_view(stmt);
        stmts.push(stmt);
        assert(block_stmts_view(stmts@) =~= acc.push(v));
    }
    let e = expr(parser);
    let span = e.span();
    proof {
        lemma_take_all(parser@, TokenView::Other(Token::Newline));
    }
    parser.take_all(Token::Newline);
    proof {
        lemma_advance(parser@);
    }
    parser.expect(Token::Dedent);
    Expr::Block(BlockExpr { stmts, expr: Box::new(e), span })
}

fn block_stmt(parser: &mut Parser) -> (r: BlockStmt)
    requires
        wf(old(parser)@),
        starts_block_stmt(nth(old(parser)@, 0).0),
    ensures
        keeps(old(parser)@, final(parser)@),
        (block_stmt_view(r), final(parser)@) == parse_block_stmt(old(parser)@),
        wf(final(parser)@),
        left(final(parser)@) <= left(old(parser)@),
        starts_block_stmt(nth(old(parser)@, 0).0) ==> left(final(parser)@) < left(old(parser)@),
    decreases left(old(parser)@), 43nat,
{
    match parser.peek() {
        Token::Is | Token::Let => BlockStmt::Let(let_stmt(parser)),
        _ => BlockStmt::Def(def(parser)),
    }
}

fn let_stmt(parser: &mut Parser) -> (r: LetStmt)
    requires
        wf(old(parser)@),
        at(old(parser)@, Token::Is) || at(old(parser)@, Token::Let),
    ensures
        keeps(old(parser)@, final(parser)@),
        (let_view(r), final(parser)@) == parse_let(old(parser)@),
        wf(final(parser)@),
        left(final(parser)@) <= left(old(parser)@),
        at(old(parser)@, Token::Is) || at(old(parser)@, Token::Let) ==> left(final(parser)@) < left(
            old(parser)@,
        ),
    decreases left(old(parser)@), 42nat,
{
    let ty = is(parser);
    proof {
        lemma_advance(parser@);
    }
    let span = parser.expect(Token::Let);
    let pat = pat(parser);
    let params = pats(parser);
    proof {
        lemma_advance(parser@);
    }
    let is_bind = parser.take(Token::LeftArrow);
    if !is_bind {
        proof {
            lemma_advance(parser@);
        }
        parser.expect(Token::Eq);
    }
    let e = expr(parser);
    LetStmt { ty, pat, params, expr: e, span }
}

fn do_expr(parser: &mut Parser) -> (r: Expr)
    requires
        wf(old(parser)@),
        at(old(parser)@, Token::Do),
    ensures
        keeps(old(parser)@, final(parser)@),
        (expr_view(r), final(parser)@) == parse_do(old(parser)@),
        wf(final(parser)@),
        left(final(parser)@) < left(old(parser)@),
    decreases left(old(parser)@), 29nat,
{
    let ghost p = parser@;
    proof {
        lemma_advance(parser@);
    }
    let span = parser.expect(Token::Do);
    if !parser.is(Token::Newline) {
        let e = expr(parser);
        return Expr::Do(DoExpr { kind: DoKind::Expr(Box::new(e)), span });
    }
    proof {
        lemma_advance(parser@);
    }
    parser.expect(Token::Newline);
    proof {
        lemma_take_all(parser@, TokenView::Other(Token::Newline));
    }
    parser.take_all(Token::Newline);
    proof {
        lemma_advance(parser@);
    }
    parser.expect(Token::Indent);
    proof {
        lemma_take_all(parser@, TokenView::Other(Token::Newline));
    }
    parser.take_all(Token::Newline);
    let ghost p3 = parser@;
    let mut stmts: Vec<DoStmt> = Vec::new();
    assert(do_stmts_view(stmts@) =~= Seq::<DoStmtView>::empty());
    while !parser.is(Token::Dedent) && !parser.is(Token::Eof)
        invariant
            wf(parser@),
            keeps(old(parser)@, parser@),
            left(parser@) <= left(p3),
            left(p3) < left(p),
            p == old(parser)@,
            parse_do_stmts(parser@, do_stmts_view(stmts@)) == parse_do_stmts(p3, Seq::empty()),
        decreases left(parser@),
    {
        let ghost acc = do_stmts_view(stmts@);
        let s = stmt(parser);
        proof {
            lemma_take_all(parser@, TokenView::Other(Token::Newline));
        }
        parser.take_all(Token::Newline);
        let ghost v = do_stmt_view(s);
        stmts.push(s);
        assert(do_stmts_view(stmts@) =~= acc.push(v));
    }
    proof {
        lemma_advance(parser@);
    }
    parser.expect(Token::Dedent);
    Expr::Do(DoExpr { kind: DoKind::Block(stmts), span })
}

fn stmt(parser: &mut Parser) -> (r: DoStmt)
    requires
        wf(old(parser)@),
        !at(old(parser)@, Token::Eof),
    ensures
        keeps(old(parser)@, final(parser)@),
        (do_stmt_view(r), final(parser)@) == parse_stmt(old(parser)@),
        wf(final(parser)@),
        left(final(parser)@) <= left(old(parser)@),
        nth(old(parser)@, 0).0 != TokenView::Other(Token::Eof) ==> left(final(parser)@) < left(
            old(parser)@,
        ),
    decreases left(old(parser)@), 43nat,
{
    let token = parser.peek();
    match token {
        Token::Is | Token::Let => bind_stmt(parser),
        _ => {
            if is_def(token) {
                DoStmt::Def(def(parser))
            } else {
                DoStmt::Expr(expr(parser))
            }
        },
    }
}

fn bind_stmt(parser: &mut Parser) -> (r: DoStmt)
    requires
        wf(old(parser)@),
        at(old(parser)@, Token::Is) || at(old(parser)@, Token::Let),
    ensures
        keeps(old(parser)@, final(parser)@),
        (do_stmt_view(r), final(parser)@) == parse_bind(old(parser)@),
        wf(final(parser)@),
        left(final(parser)@) <= left(old(parser)@),
        at(old(parser)@, Token::Is) || at(old(parser)@, Token::Let) ==> left(final(parser)@) < left(
            old(parser)@,
        ),
    decreases left(old(parser)@), 42nat,
{
    let ty = is(parser);
    proof {
        lemma_advance(parser@);
    }
    let span = parser.expect(Token::Let);
    let pat = pat(parser);
    let params = pats(parser);
    proof {
        lemma_advance(parser@);
    }
    let is_bind = match parser.peek() {
        Token::Eq => false,
        Token::LeftArrow => true,
        _ => {
            parser.expected("");
            false
        },
    };
    proof {
        lemma_advance(parser@);
    }
    parser.consume();
    let e = expr(parser);
    if is_bind {
        DoStmt::Bind(BindStmt { ty, pat, params, expr: e, span })
    } else {
        DoStmt::Let(LetStmt { ty, pat, params, expr: e, span })
    }
}

fn lambda(parser: &mut Parser) -> (r: Expr)
    requires
        wf(old(parser)@),
        at(old(parser)@, Token::Back),
    ensures
        keeps(old(parser)@, final(parser)@),
        (expr_view(r), final(parser)@) == parse_lambda(old(parser)@),
        wf(final(parser)@),
        left(final(parser)@) < left(old(parser)@),
    decreases left(old(parser)@), 5nat,
{
    proof {
        lemma_advance(parser@);
    }
    let start = parser.expect(Token::Back);
    let first = pat(parser);
    let ghost p2 = parser@;
    let ghost fv = pat_view(first);
    let mut params: Vec<Pat> = Vec::new();
    params.push(first);
    assert(pats_view(params@) =~= seq![fv]);
    while is_pat(parser.peek())
        invariant
            wf(parser@),
            keeps(old(parser)@, parser@),
            left(parser@) <= left(p2),
            parse_pats(parser@, pats_view(params@)) == parse_pats(p2, seq![fv]),
        decreases left(parser@),
    {
        let ghost acc = pats_view(params@);
        let x = pat(parser);
        let ghost xv = pat_view(x);
        params.push(x);
        assert(pats_view(params@) =~= acc.push(xv));
    }
    proof {
        lemma_advance(parser@);
    }
    let end = parser.expect(Token::Dot);
    let e = expr(parser);
    Expr::Lambda(LambdaExpr { params, expr: Box::new(e), span: start.join(end) })
}

} // verus!
