use vstd::prelude::*;

use crate::token::{token_views, Keyword, KindView, Token, TokenKind, TokenView};

verus! {

/// Turns tokens into an expression tree.
pub struct Parser;

/// An expression tree; each node owns its children.
#[derive(Debug, PartialEq)]
pub enum Expression {
    Literal(Token),
    Grouping(Box<Expression>),
    Unary(Token, Box<Expression>),
}

/// The mathematical value of an `Expression`.
pub enum ExprView {
    Literal(TokenView),
    Grouping(Box<ExprView>),
    Unary(TokenView, Box<ExprView>),
}

pub open spec fn expr_view(e: Expression) -> ExprView
    decreases e,
{
    match e {
        Expression::Literal(t) => ExprView::Literal(t@),
        Expression::Grouping(inner) => ExprView::Grouping(Box::new(expr_view(*inner))),
        Expression::Unary(op, inner) => ExprView::Unary(op@, Box::new(expr_view(*inner))),
    }
}

impl View for Expression {
    type V = ExprView;

    open spec fn view(&self) -> ExprView {
        expr_view(*self)
    }
}

impl Expression {
    /// A copy of this expression tree.
    pub fn copied(&self) -> (r: Expression)
        ensures
            r@ == self@,
        decreases self,
    {
        match self {
            Expression::Literal(t) => Expression::Literal(t.copied()),
            Expression::Grouping(inner) => Expression::Grouping(Box::new(inner.copied())),
            Expression::Unary(op, inner) => Expression::Unary(op.copied(), Box::new(inner.copied())),
        }
    }
}

impl Clone for Expression {
    fn clone(&self) -> Self {
        self.copied()
    }
}

pub open spec fn expected_expression() -> Seq<char> {
    "Expected expression"@
}

pub open spec fn unexpected_token() -> Seq<char> {
    "Unexpected token"@
}

pub open spec fn expected_right_paren() -> Seq<char> {
    "Expected ')' after expression"@
}

/// Kinds that stand for themselves as a literal expression.
pub open spec fn is_literal_kind(k: KindView) -> bool {
    ||| k is Str
    ||| k is Num
    ||| k == KindView::Kw(Keyword::Nil)
    ||| k == KindView::Kw(Keyword::True)
    ||| k == KindView::Kw(Keyword::False)
}

/// `unary := ("-" | "!") unary | primary`, from index `i` of `t`: the
/// expression and the index after it, or the first syntax error.
pub open spec fn parse_unary(t: Seq<TokenView>, i: int) -> Result<(ExprView, int), Seq<char>>
    decreases t.len() - i, 1int,
{
    if 0 <= i < t.len() {
        if t[i].kind is Minus || t[i].kind is Bang {
            match parse_unary(t, i + 1) {
                Ok((e, j)) => Ok((ExprView::Unary(t[i], Box::new(e)), j)),
                Err(m) => Err(m),
            }
        } else {
            parse_primary(t, i)
        }
    } else {
        Err(expected_expression())
    }
}

/// `primary := "(" unary ")" | NUMBER | STRING | "nil" | "true" | "false"`,
/// from index `i` of `t`.
pub open spec fn parse_primary(t: Seq<TokenView>, i: int) -> Result<(ExprView, int), Seq<char>>
    decreases t.len() - i, 0int,
{
    if 0 <= i < t.len() {
        if t[i].kind is LeftParen {
            match parse_unary(t, i + 1) {
                Ok((e, j)) => if 0 <= j < t.len() && t[j].kind is RightParen {
                    Ok((ExprView::Grouping(Box::new(e)), j + 1))
                } else {
                    Err(expected_right_paren())
                },
                Err(m) => Err(m),
            }
        } else if is_literal_kind(t[i].kind) {
            Ok((ExprView::Literal(t[i]), i + 1))
        } else {
            Err(unexpected_token())
        }
    } else {
        Err(expected_expression())
    }
}

/// `t` without a trailing end-of-input token.
pub open spec fn without_eof(t: Seq<TokenView>) -> Seq<TokenView> {
    if t.len() > 0 && t.last().kind is Eof {
        t.drop_last()
    } else {
        t
    }
}

pub open spec fn unexpected_trailing_token() -> Seq<char> {
    "Unexpected token after expression"@
}

/// The one expression that covers all of `t` (a trailing end-of-input token
/// set aside), or the first syntax error. Tokens left over after a complete
/// expression are an error.
pub open spec fn parse_tokens(t: Seq<TokenView>) -> Result<ExprView, Seq<char>> {
    match parse_unary(without_eof(t), 0) {
        Ok((e, j)) => if j == without_eof(t).len() {
            Ok(e)
        } else {
            Err(unexpected_trailing_token())
        },
        Err(m) => Err(m),
    }
}

pub proof fn lemma_parse_advances(t: Seq<TokenView>, i: int)
    ensures
        parse_unary(t, i) matches Ok((_, j)) ==> i < j <= t.len(),
        parse_primary(t, i) matches Ok((_, j)) ==> i < j <= t.len(),
    decreases t.len() - i,
{
    if 0 <= i < t.len() {
        lemma_parse_advances(t, i + 1);
    }
}

/// The mathematical value of a parse result.
pub open spec fn parsed_view(r: Result<Expression, String>) -> Result<ExprView, Seq<char>> {
    match r {
        Ok(e) => Ok(e@),
        Err(m) => Err(m@),
    }
}

pub open spec fn step_view(r: Result<(Expression, usize), String>) -> Result<(ExprView, int), Seq<char>> {
    match r {
        Ok((e, j)) => Ok((e@, j as int)),
        Err(m) => Err(m@),
    }
}

impl Parser {
    /// Parses `tokens` as one expression; a trailing end-of-input token is
    /// set aside first. The first syntax error ends the parse, and tokens
    /// left over after the expression are an error.
    pub fn parse(tokens: &[Token]) -> (r: Result<Expression, String>)
        ensures
            parsed_view(r) == parse_tokens(token_views(tokens@)),
    {
        let n = tokens.len();
        let end = if n > 0 && matches!(tokens[n - 1].kind, TokenKind::Eof) {
            n - 1
        } else {
            n
        };
        proof {
            let t = token_views(tokens@);
            assert(without_eof(t) =~= token_views(tokens@.subrange(0, end as int)));
        }
        match Self::unary(tokens, end, 0) {
            Ok((e, j)) => if j == end {
                Ok(e)
            } else {
                Err(String::from_str("Unexpected token after expression"))
            },
            Err(m) => Err(m),
        }
    }

    fn unary(tokens: &[Token], end: usize, i: usize) -> (r: Result<(Expression, usize), String>)
        requires
            i <= end <= tokens@.len(),
        ensures
            step_view(r) == parse_unary(token_views(tokens@.subrange(0, end as int)), i as int),
            r matches Ok((_, j)) ==> i < j <= end,
        decreases end - i, 1int,
    {
        let ghost t = token_views(tokens@.subrange(0, end as int));
        proof {
            lemma_parse_advances(t, i as int);
        }
        if i >= end {
            return Err(String::from_str("Expected expression"));
        }
        assert(t[i as int] == tokens@[i as int]@);
        match tokens[i].kind {
            TokenKind::Minus | TokenKind::Bang => match Self::unary(tokens, end, i + 1) {
                Ok((e, j)) => Ok((Expression::Unary(tokens[i].copied(), Box::new(e)), j)),
                Err(m) => Err(m),
            },
            _ => Self::primary(tokens, end, i),
        }
    }

    fn primary(tokens: &[Token], end: usize, i: usize) -> (r: Result<(Expression, usize), String>)
        requires
            i <= end <= tokens@.len(),
        ensures
            step_view(r) == parse_primary(token_views(tokens@.subrange(0, end as int)), i as int),
            r matches Ok((_, j)) ==> i < j <= end,
        decreases end - i, 0int,
    {
        let ghost t = token_views(tokens@.subrange(0, end as int));
        proof {
            lemma_parse_advances(t, i as int);
        }
        if i >= end {
            return Err(String::from_str("Expected expression"));
        }
        assert(t[i as int] == tokens@[i as int]@);
        match &tokens[i].kind {
            TokenKind::LeftParen => match Self::unary(tokens, end, i + 1) {
                Ok((e, j)) => {
                    if j < end && matches!(tokens[j].kind, TokenKind::RightParen) {
                        assert(t[j as int] == tokens@[j as int]@);
                        Ok((Expression::Grouping(Box::new(e)), j + 1))
                    } else {
                        proof {
                            if j < end {
                                assert(t[j as int] == tokens@[j as int]@);
                            }
                        }
                        Err(String::from_str("Expected ')' after expression"))
                    }
                },
                Err(m) => Err(m),
            },
            TokenKind::String(_) | TokenKind::Number(_) | TokenKind::Keyword(Keyword::Nil)
            | TokenKind::Keyword(Keyword::True) | TokenKind::Keyword(Keyword::False) => Ok(
                (Expression::Literal(tokens[i].copied()), i + 1),
            ),
            _ => Err(String::from_str("Unexpected token")),
        }
    }
}

} // verus!
