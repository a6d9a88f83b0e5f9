//! What holds of the operators the parser reads.
use vstd::prelude::*;

use crate::ast::BinOp;
use crate::lex::token::token_text;
use crate::lex::{Token, TokenView};
use crate::parse::expr::binop_at;

verus! {

/// How a binary operator is spelled in source.
pub open spec fn op_spelling(op: BinOp) -> Seq<char> {
    match op {
        BinOp::Add => "+"@,
        BinOp::Sub => "-"@,
        BinOp::Mul => "*"@,
        BinOp::Div => "/"@,
        BinOp::Gt => ">"@,
        BinOp::Lt => "<"@,
        BinOp::GtEq => ">="@,
        BinOp::LtEq => "<="@,
        BinOp::Eq => "=="@,
        BinOp::Ne => "!="@,
        BinOp::And => "and"@,
        BinOp::Or => "or"@,
    }
}

/// The binding level of a binary operator, from `or` (loosest, 0) to `*`
/// and `/` (tightest, 5).
pub open spec fn op_level(op: BinOp) -> nat {
    match op {
        BinOp::Or => 0,
        BinOp::And => 1,
        BinOp::Eq | BinOp::Ne => 2,
        BinOp::Gt | BinOp::Lt | BinOp::GtEq | BinOp::LtEq => 3,
        BinOp::Add | BinOp::Sub => 4,
        BinOp::Mul | BinOp::Div => 5,
    }
}

/// The operator a binary expression is read with is the one its token
/// spells, at that operator's level: `!=` reads as `Ne`, `==` as `Eq`, and
/// so on for every operator.
pub proof fn law_binary_operator_is_spelled_by_its_token(level: nat, t: TokenView)
    ensures
        binop_at(level, t) matches Some(op) ==> token_text(t) == op_spelling(op) && level
            == op_level(op),
{
}

/// The token that spells a binary operator.
pub open spec fn op_token(op: BinOp) -> Token {
    match op {
        BinOp::Add => Token::Plus,
        BinOp::Sub => Token::Minus,
        BinOp::Mul => Token::Star,
        BinOp::Div => Token::Slash,
        BinOp::Gt => Token::Gt,
        BinOp::Lt => Token::Lt,
        BinOp::GtEq => Token::GtEq,
        BinOp::LtEq => Token::LtEq,
        BinOp::Eq => Token::EqEq,
        BinOp::Ne => Token::BangEq,
        BinOp::And => Token::And,
        BinOp::Or => Token::Or,
    }
}

/// Every binary operator is read, at its level, from the token that
/// spells it.
pub proof fn law_every_operator_token_is_read(op: BinOp)
    ensures
        token_text(TokenView::Other(op_token(op))) == op_spelling(op),
        binop_at(op_level(op), TokenView::Other(op_token(op))) == Some(op),
{
}

} // verus!
