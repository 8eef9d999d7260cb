use vstd::prelude::*;

use crate::parser::{ExprView, Expression};
use crate::token::{Keyword, KindView, Number, Token, TokenKind, TokenView};

verus! {

/// Reduces an expression tree to a literal.
pub struct Evaluator;

pub open spec fn cannot_negate() -> Seq<char> {
    "Cannot negate non-number types"@
}

pub open spec fn unsupported_operator() -> Seq<char> {
    "Unsupported unary operator"@
}

/// `t` with its kind replaced by `kind`, as a literal expression.
pub open spec fn literal_of(t: TokenView, kind: KindView) -> ExprView {
    ExprView::Literal(TokenView { kind, ..t })
}

/// The unary operator `op` applied to the reduced operand `v`. Logical
/// negation takes a number to `false` and swaps `true` and `false`; on any
/// other literal (`nil`, a string) it fails with the same message as
/// arithmetic negation of a non-number.
pub open spec fn apply_unary(op: TokenView, v: ExprView) -> Result<ExprView, Seq<char>> {
    if op.kind is Minus {
        match v {
            ExprView::Literal(t) => match t.kind {
                KindView::Num { negative, magnitude } => Ok(
                    literal_of(t, KindView::Num { negative: !negative, magnitude }),
                ),
                _ => Err(cannot_negate()),
            },
            _ => Err(cannot_negate()),
        }
    } else if op.kind is Bang {
        match v {
            ExprView::Literal(t) => match t.kind {
                KindView::Num { .. } => Ok(literal_of(t, KindView::Kw(Keyword::False))),
                KindView::Kw(Keyword::False) => Ok(literal_of(t, KindView::Kw(Keyword::True))),
                KindView::Kw(Keyword::True) => Ok(literal_of(t, KindView::Kw(Keyword::False))),
                _ => Err(cannot_negate()),
            },
            _ => Err(cannot_negate()),
        }
    } else {
        Err(unsupported_operator())
    }
}

/// The reduction of `e`: a literal stays as it is, a grouping reduces to
/// its inner expression, and a unary operator applies to its reduced
/// operand. The first error ends the reduction.
pub open spec fn evaluate_view(e: ExprView) -> Result<ExprView, Seq<char>>
    decreases e,
{
    match e {
        ExprView::Literal(t) => Ok(ExprView::Literal(t)),
        ExprView::Grouping(inner) => evaluate_view(*inner),
        ExprView::Unary(op, inner) => match evaluate_view(*inner) {
            Ok(v) => apply_unary(op, v),
            Err(m) => Err(m),
        },
    }
}

/// The mathematical value of an evaluation result.
pub open spec fn evaluated_view(r: Result<Expression, String>) -> Result<ExprView, Seq<char>> {
    match r {
        Ok(e) => Ok(e@),
        Err(m) => Err(m@),
    }
}

/// A successful reduction is always a literal.
pub proof fn lemma_evaluates_to_literal(e: ExprView)
    ensures
        evaluate_view(e) matches Ok(v) ==> v is Literal,
    decreases e,
{
    match e {
        ExprView::Literal(_) => {},
        ExprView::Grouping(inner) => lemma_evaluates_to_literal(*inner),
        ExprView::Unary(_, inner) => lemma_evaluates_to_literal(*inner),
    }
}

impl Evaluator {
    /// Reduces `expression` to a literal, or returns the first type error.
    pub fn evaluate(expression: &Expression) -> (r: Result<Expression, String>)
        ensures
            evaluated_view(r) == evaluate_view(expression@),
            r matches Ok(v) ==> v is Literal,
        decreases expression,
    {
        proof {
            lemma_evaluates_to_literal(expression@);
        }
        match expression {
            Expression::Literal(t) => Ok(Expression::Literal(t.copied())),
            Expression::Grouping(inner) => Self::evaluate(inner),
            Expression::Unary(op, inner) => {
                let value = match Self::evaluate(inner) {
                    Ok(v) => v,
                    Err(m) => return Err(m),
                };
                match op.kind {
                    TokenKind::Minus => match value {
                        Expression::Literal(Token { kind: TokenKind::Number(n), lexeme, line }) => {
                            let negated = Number { negative: !n.negative, magnitude: n.magnitude };
                            Ok(Expression::Literal(Token::new(TokenKind::Number(negated), lexeme, line)))
                        },
                        _ => Err(String::from_str("Cannot negate non-number types")),
                    },
                    TokenKind::Bang => match value {
                        Expression::Literal(Token { kind: TokenKind::Number(_), lexeme, line }) => Ok(
                            Expression::Literal(Token::new(TokenKind::Keyword(Keyword::False), lexeme, line)),
                        ),
                        Expression::Literal(Token { kind: TokenKind::Keyword(Keyword::False), lexeme, line }) => Ok(
                            Expression::Literal(Token::new(TokenKind::Keyword(Keyword::True), lexeme, line)),
                        ),
                        Expression::Literal(Token { kind: TokenKind::Keyword(Keyword::True), lexeme, line }) => Ok(
                            Expression::Literal(Token::new(TokenKind::Keyword(Keyword::False), lexeme, line)),
                        ),
                        _ => Err(String::from_str("Cannot negate non-number types")),
                    },
                    _ => Err(String::from_str("Unsupported unary operator")),
                }
            },
        }
    }
}

} // verus!
