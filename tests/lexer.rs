use lox::{Keyword, LexError, LexErrorKind, Lexer, Number, Token, TokenKind};

fn kinds(source: &str) -> Vec<TokenKind> {
    let (tokens, _) = Lexer::tokenize(source);
    tokens.into_iter().map(|t| t.kind).collect()
}

fn number(magnitude: &str) -> TokenKind {
    TokenKind::Number(Number { negative: false, magnitude: magnitude.to_string() })
}

fn value(n: &Number) -> f64 {
    let v: f64 = n.magnitude.parse().unwrap();
    if n.negative { -v } else { v }
}

#[test]
fn punctuation_gives_one_token_per_character() {
    let source = "(){}+-*,.;=!<>/";
    let (tokens, errors) = Lexer::tokenize(source);
    assert!(errors.is_empty());
    assert_eq!(tokens.len(), source.chars().count() + 1);
    assert_eq!(
        tokens.iter().map(|t| t.kind.clone()).collect::<Vec<_>>(),
        vec![
            TokenKind::LeftParen,
            TokenKind::RightParen,
            TokenKind::LeftBrace,
            TokenKind::RightBrace,
            TokenKind::Plus,
            TokenKind::Minus,
            TokenKind::Star,
            TokenKind::Comma,
            TokenKind::Dot,
            TokenKind::Semicolon,
            TokenKind::Equal,
            TokenKind::Bang,
            TokenKind::Less,
            TokenKind::Greater,
            TokenKind::Slash,
            TokenKind::Eof,
        ]
    );
}

#[test]
fn integer_literal() {
    let (tokens, errors) = Lexer::tokenize("123");
    assert!(errors.is_empty());
    assert_eq!(tokens.len(), 2);
    assert_eq!(tokens[0].kind, number("123"));
    assert_eq!(tokens[0].lexeme, "123");
    match &tokens[0].kind {
        TokenKind::Number(n) => assert_eq!(value(n), 123.0),
        other => panic!("not a number: {:?}", other),
    }
}

#[test]
fn decimal_literal() {
    let (tokens, errors) = Lexer::tokenize("123.45");
    assert!(errors.is_empty());
    assert_eq!(tokens.len(), 2);
    assert_eq!(tokens[0].kind, number("123.45"));
    match &tokens[0].kind {
        TokenKind::Number(n) => assert_eq!(value(n), 123.45),
        other => panic!("not a number: {:?}", other),
    }
}

#[test]
fn trailing_dot_is_its_own_token() {
    assert_eq!(kinds("123."), vec![number("123"), TokenKind::Dot, TokenKind::Eof]);
}

#[test]
fn second_dot_ends_a_number() {
    assert_eq!(
        kinds("1.2.3"),
        vec![number("1.2"), TokenKind::Dot, number("3"), TokenKind::Eof]
    );
}

#[test]
fn unterminated_string_is_one_error() {
    let (tokens, errors) = Lexer::tokenize("\"abc");
    assert_eq!(errors, vec![LexError { kind: LexErrorKind::UnterminatedString, line: 1 }]);
    assert_eq!(tokens.len(), 1);
    assert_eq!(tokens[0].kind, TokenKind::Eof);
}

#[test]
fn unterminated_string_reports_line_reached() {
    let (_, errors) = Lexer::tokenize("\"a\nb\nc");
    assert_eq!(errors, vec![LexError { kind: LexErrorKind::UnterminatedString, line: 3 }]);
}

#[test]
fn string_literal_spans_lines() {
    let (tokens, errors) = Lexer::tokenize("\"a\nb\" x");
    assert!(errors.is_empty());
    assert_eq!(tokens[0].kind, TokenKind::String("a\nb".to_string()));
    assert_eq!(tokens[0].lexeme, "\"a\nb\"");
    assert_eq!(tokens[0].line, 1);
    assert_eq!(tokens[1].kind, TokenKind::Identifier("x".to_string()));
    assert_eq!(tokens[1].line, 2);
}

#[test]
fn two_character_operators() {
    assert_eq!(
        kinds("== != <= >= = ! < >"),
        vec![
            TokenKind::EqualEqual,
            TokenKind::BangEqual,
            TokenKind::LessEqual,
            TokenKind::GreaterEqual,
            TokenKind::Equal,
            TokenKind::Bang,
            TokenKind::Less,
            TokenKind::Greater,
            TokenKind::Eof,
        ]
    );
    let (tokens, _) = Lexer::tokenize("!=");
    assert_eq!(tokens[0].lexeme, "!=");
}

#[test]
fn comment_runs_to_end_of_line() {
    let (tokens, errors) = Lexer::tokenize("( // ) @ \"\n)");
    assert!(errors.is_empty());
    assert_eq!(tokens.len(), 3);
    assert_eq!(tokens[0].kind, TokenKind::LeftParen);
    assert_eq!(tokens[1].kind, TokenKind::RightParen);
    assert_eq!(tokens[1].line, 2);
    assert_eq!(tokens[2].kind, TokenKind::Eof);
    assert_eq!(tokens[2].line, 2);
}

#[test]
fn keywords_and_identifiers() {
    assert_eq!(
        kinds("and class else false for fun if nil or print return super this true var while"),
        vec![
            TokenKind::Keyword(Keyword::And),
            TokenKind::Keyword(Keyword::Class),
            TokenKind::Keyword(Keyword::Else),
            TokenKind::Keyword(Keyword::False),
            TokenKind::Keyword(Keyword::For),
            TokenKind::Keyword(Keyword::Fun),
            TokenKind::Keyword(Keyword::If),
            TokenKind::Keyword(Keyword::Nil),
            TokenKind::Keyword(Keyword::Or),
            TokenKind::Keyword(Keyword::Print),
            TokenKind::Keyword(Keyword::Return),
            TokenKind::Keyword(Keyword::Super),
            TokenKind::Keyword(Keyword::This),
            TokenKind::Keyword(Keyword::True),
            TokenKind::Keyword(Keyword::Var),
            TokenKind::Keyword(Keyword::While),
            TokenKind::Eof,
        ]
    );
    assert_eq!(
        kinds("_foo1 andy Nil"),
        vec![
            TokenKind::Identifier("_foo1".to_string()),
            TokenKind::Identifier("andy".to_string()),
            TokenKind::Identifier("Nil".to_string()),
            TokenKind::Eof,
        ]
    );
}

#[test]
fn unexpected_characters_do_not_stop_the_scan() {
    let (tokens, errors) = Lexer::tokenize("@\n#(");
    assert_eq!(
        errors,
        vec![
            LexError { kind: LexErrorKind::UnexpectedCharacter('@'), line: 1 },
            LexError { kind: LexErrorKind::UnexpectedCharacter('#'), line: 2 },
        ]
    );
    assert_eq!(tokens.len(), 2);
    assert_eq!(tokens[0].kind, TokenKind::LeftParen);
    assert_eq!(tokens[0].line, 2);
}

#[test]
fn empty_input_is_just_eof() {
    let (tokens, errors) = Lexer::tokenize("");
    assert!(errors.is_empty());
    assert_eq!(tokens, vec![Token::new(TokenKind::Eof, String::new(), 1)]);
}

#[test]
fn whitespace_is_skipped_and_lines_counted() {
    let (tokens, errors) = Lexer::tokenize(" \t\n\n  +");
    assert!(errors.is_empty());
    assert_eq!(tokens.len(), 2);
    assert_eq!(tokens[0].kind, TokenKind::Plus);
    assert_eq!(tokens[0].line, 3);
}

#[test]
fn token_new_keeps_its_fields() {
    let t = Token::new(TokenKind::Star, "*".to_string(), 4);
    assert_eq!(t.kind, TokenKind::Star);
    assert_eq!(t.lexeme, "*");
    assert_eq!(t.line, 4);
}

#[test]
fn lexemes_come_from_the_source_in_order() {
    let source = "var x = \"s t\" // note\n  12.5 >= y;";
    let (tokens, errors) = Lexer::tokenize(source);
    assert!(errors.is_empty());
    let mut from = 0;
    for t in &tokens[..tokens.len() - 1] {
        let at = source[from..].find(t.lexeme.as_str()).expect("lexeme in source") + from;
        from = at + t.lexeme.len();
    }
    assert_eq!(tokens.last().unwrap().lexeme, "");
    let lexemes: Vec<&str> = tokens.iter().map(|t| t.lexeme.as_str()).collect();
    assert_eq!(lexemes, vec!["var", "x", "=", "\"s t\"", "12.5", ">=", "y", ";", ""]);
}

#[test]
fn lines_never_decrease_and_eof_is_last() {
    let (tokens, _) = Lexer::tokenize("a\n\"b\nc\"\n\n d // e\n f");
    let lines: Vec<usize> = tokens.iter().map(|t| t.line).collect();
    assert_eq!(lines, vec![1, 2, 5, 6, 6]);
    assert_eq!(tokens.iter().filter(|t| t.kind == TokenKind::Eof).count(), 1);
    assert_eq!(tokens.last().unwrap().kind, TokenKind::Eof);
}
