use lox::{Evaluator, Expression, Keyword, Lexer, Number, Parser, Token, TokenKind};

fn parse(source: &str) -> Result<Expression, String> {
    let (tokens, errors) = Lexer::tokenize(source);
    assert!(errors.is_empty());
    Parser::parse(&tokens)
}

fn evaluate(source: &str) -> Result<Expression, String> {
    Evaluator::evaluate(&parse(source)?)
}

fn literal_kind(e: &Expression) -> &TokenKind {
    match e {
        Expression::Literal(t) => &t.kind,
        other => panic!("not a literal: {:?}", other),
    }
}

fn number_value(e: &Expression) -> f64 {
    match literal_kind(e) {
        TokenKind::Number(n) => {
            let v: f64 = n.magnitude.parse().unwrap();
            if n.negative { -v } else { v }
        }
        other => panic!("not a number: {:?}", other),
    }
}

fn tok(kind: TokenKind, lexeme: &str) -> Token {
    Token::new(kind, lexeme.to_string(), 1)
}

fn num(magnitude: &str) -> TokenKind {
    TokenKind::Number(Number { negative: false, magnitude: magnitude.to_string() })
}

#[test]
fn grouped_negation_parses_and_evaluates() {
    let e = parse("(-5)").unwrap();
    assert_eq!(
        e,
        Expression::Grouping(Box::new(Expression::Unary(
            tok(TokenKind::Minus, "-"),
            Box::new(Expression::Literal(tok(num("5"), "5"))),
        )))
    );
    let v = Evaluator::evaluate(&e).unwrap();
    assert_eq!(number_value(&v), -5.0);
}

#[test]
fn double_logical_negation() {
    let e = parse("!!true").unwrap();
    match &e {
        Expression::Unary(outer, inner) => {
            assert_eq!(outer.kind, TokenKind::Bang);
            let inner_value = Evaluator::evaluate(inner).unwrap();
            assert_eq!(literal_kind(&inner_value), &TokenKind::Keyword(Keyword::False));
        }
        other => panic!("not unary: {:?}", other),
    }
    let v = Evaluator::evaluate(&e).unwrap();
    assert_eq!(literal_kind(&v), &TokenKind::Keyword(Keyword::True));
}

#[test]
fn negating_a_boolean_fails() {
    assert_eq!(evaluate("-true"), Err("Cannot negate non-number types".to_string()));
}

#[test]
fn negating_a_grouped_number() {
    assert_eq!(number_value(&evaluate("-(1)").unwrap()), -1.0);
}

#[test]
fn numbers_are_truthy() {
    let v = evaluate("!123").unwrap();
    assert_eq!(literal_kind(&v), &TokenKind::Keyword(Keyword::False));
}

#[test]
fn not_false_is_true() {
    let v = evaluate("!false").unwrap();
    assert_eq!(literal_kind(&v), &TokenKind::Keyword(Keyword::True));
}

#[test]
fn double_negation_restores_the_number() {
    let v = evaluate("--2.5").unwrap();
    assert_eq!(
        literal_kind(&v),
        &TokenKind::Number(Number { negative: false, magnitude: "2.5".to_string() })
    );
    assert_eq!(number_value(&v), 2.5);
}

#[test]
fn literals_evaluate_to_themselves() {
    let v = evaluate("\"hi\"").unwrap();
    assert_eq!(literal_kind(&v), &TokenKind::String("hi".to_string()));
    let v = evaluate("nil").unwrap();
    assert_eq!(literal_kind(&v), &TokenKind::Keyword(Keyword::Nil));
    let v = evaluate("((7))").unwrap();
    assert_eq!(number_value(&v), 7.0);
}

#[test]
fn logical_negation_of_nil_or_string_fails() {
    assert_eq!(evaluate("!nil"), Err("Cannot negate non-number types".to_string()));
    assert_eq!(evaluate("!\"s\""), Err("Cannot negate non-number types".to_string()));
}

#[test]
fn unsupported_operator_is_reported() {
    let e = Expression::Unary(tok(TokenKind::Plus, "+"), Box::new(Expression::Literal(tok(num("1"), "1"))));
    assert_eq!(Evaluator::evaluate(&e), Err("Unsupported unary operator".to_string()));
}

#[test]
fn empty_input_expects_an_expression() {
    assert_eq!(parse(""), Err("Expected expression".to_string()));
    assert_eq!(parse("-"), Err("Expected expression".to_string()));
}

#[test]
fn unclosed_group_is_an_error() {
    assert_eq!(parse("(1"), Err("Expected ')' after expression".to_string()));
    assert_eq!(parse("(1 2"), Err("Expected ')' after expression".to_string()));
}

#[test]
fn token_that_starts_nothing_is_an_error() {
    assert_eq!(parse(")"), Err("Unexpected token".to_string()));
    assert_eq!(parse("foo"), Err("Unexpected token".to_string()));
}

#[test]
fn parse_without_trailing_eof() {
    let tokens = vec![tok(TokenKind::Bang, "!"), tok(TokenKind::Keyword(Keyword::True), "true")];
    let e = Parser::parse(&tokens).unwrap();
    assert_eq!(
        e,
        Expression::Unary(
            tok(TokenKind::Bang, "!"),
            Box::new(Expression::Literal(tok(TokenKind::Keyword(Keyword::True), "true"))),
        )
    );
}

#[test]
fn unary_nesting_is_right_associative() {
    let e = parse("-!-1").unwrap();
    match e {
        Expression::Unary(a, rest) => {
            assert_eq!(a.kind, TokenKind::Minus);
            match *rest {
                Expression::Unary(b, rest) => {
                    assert_eq!(b.kind, TokenKind::Bang);
                    assert!(matches!(*rest, Expression::Unary(_, _)));
                }
                other => panic!("not unary: {:?}", other),
            }
        }
        other => panic!("not unary: {:?}", other),
    }
    assert_eq!(evaluate("-!-1"), Err("Cannot negate non-number types".to_string()));
}

#[test]
fn deep_nesting_is_handled() {
    let depth = 200;
    let source = format!("{}{}{}", "(".repeat(depth), "!".repeat(depth), "1")
        + &")".repeat(depth);
    let v = evaluate(&source).unwrap();
    assert_eq!(literal_kind(&v), &TokenKind::Keyword(Keyword::True));
}

#[test]
fn tokens_left_over_are_an_error() {
    assert_eq!(parse("1 2"), Err("Unexpected token after expression".to_string()));
    assert_eq!(parse("(1) 2"), Err("Unexpected token after expression".to_string()));
    assert_eq!(parse("-1 )"), Err("Unexpected token after expression".to_string()));
}

#[test]
fn expressions_clone_to_equal_trees() {
    let e = parse("-(!true)").unwrap();
    let copy = e.clone();
    assert_eq!(copy, e);
}
