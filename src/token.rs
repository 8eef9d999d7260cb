use vstd::prelude::*;

verus! {

/// The reserved words of the language.
#[derive(Debug, Clone, Copy, PartialEq, Eq, Structural)]
pub enum Keyword {
    And,
    Class,
    Else,
    False,
    For,
    Fun,
    If,
    Nil,
    Or,
    Print,
    Return,
    Super,
    This,
    True,
    Var,
    While,
}

/// A numeric value held exactly as decimal text: `magnitude` is one or more
/// ASCII digits, optionally followed by `.` and one or more digits, and
/// `negative` says whether the value is the negation of that magnitude.
#[derive(Debug, Clone, PartialEq)]
pub struct Number {
    pub negative: bool,
    pub magnitude: String,
}

/// What a token is.
#[derive(Debug, Clone, PartialEq)]
pub enum TokenKind {
    Eof,
    LeftParen,
    RightParen,
    LeftBrace,
    RightBrace,
    Plus,
    Minus,
    Star,
    Comma,
    Dot,
    Semicolon,
    Equal,
    EqualEqual,
    Bang,
    BangEqual,
    Less,
    LessEqual,
    Greater,
    GreaterEqual,
    Slash,
    String(String),
    Number(Number),
    Identifier(String),
    Keyword(Keyword),
}

/// A token: its kind, the source text it was scanned from, and the 1-based
/// line on which it began.
#[derive(Debug, Clone, PartialEq)]
pub struct Token {
    pub kind: TokenKind,
    pub lexeme: String,
    pub line: usize,
}

/// The mathematical value of a `TokenKind`, with text as character sequences.
pub enum KindView {
    Eof,
    LeftParen,
    RightParen,
    LeftBrace,
    RightBrace,
    Plus,
    Minus,
    Star,
    Comma,
    Dot,
    Semicolon,
    Equal,
    EqualEqual,
    Bang,
    BangEqual,
    Less,
    LessEqual,
    Greater,
    GreaterEqual,
    Slash,
    Str(Seq<char>),
    Num { negative: bool, magnitude: Seq<char> },
    Ident(Seq<char>),
    Kw(Keyword),
}

/// The mathematical value of a `Token`.
pub struct TokenView {
    pub kind: KindView,
    pub lexeme: Seq<char>,
    pub line: int,
}

impl View for TokenKind {
    type V = KindView;

    open spec fn view(&self) -> KindView {
        match self {
            TokenKind::Eof => KindView::Eof,
            TokenKind::LeftParen => KindView::LeftParen,
            TokenKind::RightParen => KindView::RightParen,
            TokenKind::LeftBrace => KindView::LeftBrace,
            TokenKind::RightBrace => KindView::RightBrace,
            TokenKind::Plus => KindView::Plus,
            TokenKind::Minus => KindView::Minus,
            TokenKind::Star => KindView::Star,
            TokenKind::Comma => KindView::Comma,
            TokenKind::Dot => KindView::Dot,
            TokenKind::Semicolon => KindView::Semicolon,
            TokenKind::Equal => KindView::Equal,
            TokenKind::EqualEqual => KindView::EqualEqual,
            TokenKind::Bang => KindView::Bang,
            TokenKind::BangEqual => KindView::BangEqual,
            TokenKind::Less => KindView::Less,
            TokenKind::LessEqual => KindView::LessEqual,
            TokenKind::Greater => KindView::Greater,
            TokenKind::GreaterEqual => KindView::GreaterEqual,
            TokenKind::Slash => KindView::Slash,
            TokenKind::String(s) => KindView::Str(s@),
            TokenKind::Number(n) => KindView::Num { negative: n.negative, magnitude: n.magnitude@ },
            TokenKind::Identifier(s) => KindView::Ident(s@),
            TokenKind::Keyword(k) => KindView::Kw(*k),
        }
    }
}

impl View for Token {
    type V = TokenView;

    open spec fn view(&self) -> TokenView {
        TokenView { kind: self.kind@, lexeme: self.lexeme@, line: self.line as int }
    }
}

impl Number {
    /// A copy of this number.
    pub fn copied(&self) -> (r: Number)
        ensures
            r.negative == self.negative,
            r.magnitude@ == self.magnitude@,
    {
        Number { negative: self.negative, magnitude: self.magnitude.clone() }
    }
}

impl TokenKind {
    /// A copy of this kind.
    pub fn copied(&self) -> (r: TokenKind)
        ensures
            r@ == self@,
    {
        match self {
            TokenKind::Eof => TokenKind::Eof,
            TokenKind::LeftParen => TokenKind::LeftParen,
            TokenKind::RightParen => TokenKind::RightParen,
            TokenKind::LeftBrace => TokenKind::LeftBrace,
            TokenKind::RightBrace => TokenKind::RightBrace,
            TokenKind::Plus => TokenKind::Plus,
            TokenKind::Minus => TokenKind::Minus,
            TokenKind::Star => TokenKind::Star,
            TokenKind::Comma => TokenKind::Comma,
            TokenKind::Dot => TokenKind::Dot,
            TokenKind::Semicolon => TokenKind::Semicolon,
            TokenKind::Equal => TokenKind::Equal,
            TokenKind::EqualEqual => TokenKind::EqualEqual,
            TokenKind::Bang => TokenKind::Bang,
            TokenKind::BangEqual => TokenKind::BangEqual,
            TokenKind::Less => TokenKind::Less,
            TokenKind::LessEqual => TokenKind::LessEqual,
            TokenKind::Greater => TokenKind::Greater,
            TokenKind::GreaterEqual => TokenKind::GreaterEqual,
            TokenKind::Slash => TokenKind::Slash,
            TokenKind::String(s) => TokenKind::String(s.clone()),
            TokenKind::Number(n) => TokenKind::Number(n.copied()),
            TokenKind::Identifier(s) => TokenKind::Identifier(s.clone()),
            TokenKind::Keyword(k) => TokenKind::Keyword(*k),
        }
    }
}

impl Token {
    /// A copy of this token.
    pub fn copied(&self) -> (r: Token)
        ensures
            r@ == self@,
    {
        Token { kind: self.kind.copied(), lexeme: self.lexeme.clone(), line: self.line }
    }

    /// A token of kind `kind`, scanned from `lexeme`, that began on `line`.
    pub fn new(kind: TokenKind, lexeme: String, line: usize) -> (r: Token)
        ensures
            r@ == (TokenView { kind: kind@, lexeme: lexeme@, line: line as int }),
    {
        Token { kind, lexeme, line }
    }
}

/// The mathematical values of a sequence of tokens.
pub open spec fn token_views(ts: Seq<Token>) -> Seq<TokenView> {
    ts.map_values(|t: Token| t@)
}

} // verus!
