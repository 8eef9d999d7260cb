use vstd::prelude::*;

use crate::scan::{
    digits_end, eof_view, find_char, ident_end, is_ident_char, keyword_of, lemma_digits_end,
    lemma_find_char, lemma_newlines_bound, lemma_scan_from_placed, lemma_step, lex, lex_step,
    newlines, number_end, pair_kinds, scan_from, single_kind, LexError, LexErrorKind, Scanned,
};
use crate::token::{token_views, Keyword, Number, Token, TokenKind, TokenView};

verus! {

/// Turns source text into tokens.
pub struct Lexer;

/// What one step of the scan found, as values.
enum Lexed {
    Blank,
    Token(Token),
    Error(LexError),
}

impl View for Lexed {
    type V = Scanned;

    closed spec fn view(&self) -> Scanned {
        match self {
            Lexed::Blank => Scanned::Blank,
            Lexed::Token(t) => Scanned::Token(t@),
            Lexed::Error(e) => Scanned::Error(e@),
        }
    }
}

/// The characters of `content` from `start` to `end`, as a `String`.
fn text_of(content: &str, start: usize, end: usize) -> (r: String)
    requires
        start <= end <= content@.len(),
    ensures
        r@ == content@.subrange(start as int, end as int),
{
    content.substring_char(start, end).to_owned()
}

fn chars_of(content: &str) -> (r: Vec<char>)
    ensures
        r@ == content@,
{
    let mut r: Vec<char> = Vec::new();
    for c in it: content.chars()
        invariant
            r@ == it.seq().take(it.index() as int),
    {
        r.push(c);
    }
    r
}

fn scan_digits(chars: &Vec<char>, i: usize) -> (r: usize)
    requires
        i <= chars@.len(),
    ensures
        r == digits_end(chars@, i as int),
{
    let mut j = i;
    while j < chars.len() && '0' <= chars[j] && chars[j] <= '9'
        invariant
            i <= j <= chars@.len(),
            digits_end(chars@, j as int) == digits_end(chars@, i as int),
        decreases chars@.len() - j,
    {
        j = j + 1;
    }
    j
}

fn scan_ident(chars: &Vec<char>, i: usize) -> (r: usize)
    requires
        i <= chars@.len(),
    ensures
        r == ident_end(chars@, i as int),
{
    let mut j = i;
    while j < chars.len() && is_ident_char_exec(chars[j])
        invariant
            i <= j <= chars@.len(),
            ident_end(chars@, j as int) == ident_end(chars@, i as int),
        decreases chars@.len() - j,
    {
        j = j + 1;
    }
    j
}

fn is_ident_char_exec(c: char) -> (r: bool)
    ensures
        r == is_ident_char(c),
{
    ('a' <= c && c <= 'z') || ('A' <= c && c <= 'Z') || c == '_' || ('0' <= c && c <= '9')
}

fn scan_number(chars: &Vec<char>, i: usize) -> (r: usize)
    requires
        i <= chars@.len(),
    ensures
        r == number_end(chars@, i as int),
{
    let e = scan_digits(chars, i);
    proof {
        lemma_digits_end(chars@, i as int);
    }
    if e < chars.len() && e + 1 < chars.len() && chars[e] == '.' && '0' <= chars[e + 1] && chars[e + 1] <= '9' {
        scan_digits(chars, e + 1)
    } else {
        e
    }
}

fn find_from(chars: &Vec<char>, i: usize, c: char) -> (r: usize)
    requires
        i <= chars@.len(),
    ensures
        r == find_char(chars@, i as int, c),
{
    let mut j = i;
    while j < chars.len() && chars[j] != c
        invariant
            i <= j <= chars@.len(),
            find_char(chars@, j as int, c) == find_char(chars@, i as int, c),
        decreases chars@.len() - j,
    {
        j = j + 1;
    }
    j
}

fn count_newlines(chars: &Vec<char>, start: usize, end: usize) -> (r: usize)
    requires
        start <= end <= chars@.len(),
    ensures
        r == newlines(chars@.subrange(start as int, end as int)),
{
    let mut n: usize = 0;
    let mut j = start;
    while j < end
        invariant
            start <= j <= end <= chars@.len(),
            n == newlines(chars@.subrange(start as int, j as int)),
            n <= j - start,
        decreases end - j,
    {
        proof {
            let s = chars@.subrange(start as int, j as int + 1);
            assert(s.drop_last() =~= chars@.subrange(start as int, j as int));
        }
        if chars[j] == '\n' {
            n = n + 1;
        }
        j = j + 1;
    }
    n
}

/// Whether the characters of `chars` from `start` to `end` spell `word`.
fn spells(chars: &Vec<char>, start: usize, end: usize, word: &str) -> (r: bool)
    requires
        start <= end <= chars@.len(),
    ensures
        r == (chars@.subrange(start as int, end as int) == word@),
{
    let n = word.unicode_len();
    if end - start != n {
        return false;
    }
    let mut k: usize = 0;
    while k < n
        invariant
            k <= n == end - start,
            start <= end <= chars@.len(),
            n == word@.len(),
            forall|m: int| 0 <= m < k ==> chars@[start + m] == word@[m],
        decreases n - k,
    {
        if chars[start + k] != word.get_char(k) {
            assert(chars@.subrange(start as int, end as int)[k as int] != word@[k as int]);
            return false;
        }
        k = k + 1;
    }
    assert(chars@.subrange(start as int, end as int) =~= word@);
    true
}

fn keyword_at(chars: &Vec<char>, start: usize, end: usize) -> (r: Option<Keyword>)
    requires
        start <= end <= chars@.len(),
    ensures
        r == keyword_of(chars@.subrange(start as int, end as int)),
{
    if spells(chars, start, end, "and") {
        Some(Keyword::And)
    } else if spells(chars, start, end, "class") {
        Some(Keyword::Class)
    } else if spells(chars, start, end, "else") {
        Some(Keyword::Else)
    } else if spells(chars, start, end, "false") {
        Some(Keyword::False)
    } else if spells(chars, start, end, "for") {
        Some(Keyword::For)
    } else if spells(chars, start, end, "fun") {
        Some(Keyword::Fun)
    } else if spells(chars, start, end, "if") {
        Some(Keyword::If)
    } else if spells(chars, start, end, "nil") {
        Some(Keyword::Nil)
    } else if spells(chars, start, end, "or") {
        Some(Keyword::Or)
    } else if spells(chars, start, end, "print") {
        Some(Keyword::Print)
    } else if spells(chars, start, end, "return") {
        Some(Keyword::Return)
    } else if spells(chars, start, end, "super") {
        Some(Keyword::Super)
    } else if spells(chars, start, end, "this") {
        Some(Keyword::This)
    } else if spells(chars, start, end, "true") {
        Some(Keyword::True)
    } else if spells(chars, start, end, "var") {
        Some(Keyword::Var)
    } else if spells(chars, start, end, "while") {
        Some(Keyword::While)
    } else {
        None
    }
}

fn token_at(content: &str, chars: &Vec<char>, start: usize, end: usize, kind: TokenKind, line: usize) -> (r: Lexed)
    requires
        start <= end <= chars@.len(),
        chars@ == content@,
    ensures
        r@ == Scanned::Token(
            TokenView { kind: kind@, lexeme: chars@.subrange(start as int, end as int), line: line as int },
        ),
{
    Lexed::Token(Token::new(kind, text_of(content, start, end), line))
}

/// The kind of a token that is always one character long.
fn single_token_kind(c: char) -> (r: Option<TokenKind>)
    ensures
        r matches Some(k) ==> single_kind(c) == Some(k@),
        r is None ==> single_kind(c) is None,
{
    match c {
        '(' => Some(TokenKind::LeftParen),
        ')' => Some(TokenKind::RightParen),
        '{' => Some(TokenKind::LeftBrace),
        '}' => Some(TokenKind::RightBrace),
        '+' => Some(TokenKind::Plus),
        '-' => Some(TokenKind::Minus),
        '*' => Some(TokenKind::Star),
        ',' => Some(TokenKind::Comma),
        '.' => Some(TokenKind::Dot),
        ';' => Some(TokenKind::Semicolon),
        _ => None,
    }
}

/// For a character that may be followed by `=`: the kind alone and the kind
/// of the two-character operator.
fn pair_token_kinds(c: char) -> (r: Option<(TokenKind, TokenKind)>)
    ensures
        r matches Some(p) ==> pair_kinds(c) == Some((p.0@, p.1@)),
        r is None ==> pair_kinds(c) is None,
{
    match c {
        '=' => Some((TokenKind::Equal, TokenKind::EqualEqual)),
        '!' => Some((TokenKind::Bang, TokenKind::BangEqual)),
        '<' => Some((TokenKind::Less, TokenKind::LessEqual)),
        '>' => Some((TokenKind::Greater, TokenKind::GreaterEqual)),
        _ => None,
    }
}

/// One step of the scan at index `i`, on line `line`.
fn lex_one(content: &str, chars: &Vec<char>, i: usize, line: usize) -> (r: (Lexed, usize, usize))
    requires
        i < chars@.len() < usize::MAX,
        chars@ == content@,
        1 <= line <= i + 1,
    ensures
        r.0@ == lex_step(chars@, i as int, line as int).what,
        r.1 == lex_step(chars@, i as int, line as int).next,
        r.2 == lex_step(chars@, i as int, line as int).next_line,
{
    let ghost s = chars@;
    proof {
        lemma_step(s, i as int, line as int);
    }
    let c = chars[i];
    let n = chars.len();
    if c == '\n' {
        (Lexed::Blank, i + 1, line + 1)
    } else if c == ' ' || c == '\t' {
        (Lexed::Blank, i + 1, line)
    } else if c == '/' && i + 1 < n && chars[i + 1] == '/' {
        (Lexed::Blank, find_from(chars, i + 2, '\n'), line)
    } else if c == '"' {
        let q = find_from(chars, i + 1, '"');
        proof {
            lemma_find_char(s, i + 1, '"');
            lemma_newlines_bound(s.subrange(i + 1, q as int));
        }
        let at = line + count_newlines(chars, i + 1, q);
        if q < n {
            let text = text_of(content, i + 1, q);
            let lexeme = text_of(content, i, q + 1);
            (Lexed::Token(Token::new(TokenKind::String(text), lexeme, line)), q + 1, at)
        } else {
            (Lexed::Error(LexError { kind: LexErrorKind::UnterminatedString, line: at }), q, at)
        }
    } else if '0' <= c && c <= '9' {
        let e = scan_number(chars, i);
        let kind = TokenKind::Number(Number { negative: false, magnitude: text_of(content, i, e) });
        (token_at(content, chars, i, e, kind, line), e, line)
    } else if ('a' <= c && c <= 'z') || ('A' <= c && c <= 'Z') || c == '_' {
        let e = scan_ident(chars, i);
        let kind = match keyword_at(chars, i, e) {
            Some(k) => TokenKind::Keyword(k),
            None => TokenKind::Identifier(text_of(content, i, e)),
        };
        (token_at(content, chars, i, e, kind, line), e, line)
    } else if c == '/' {
        (token_at(content, chars, i, i + 1, TokenKind::Slash, line), i + 1, line)
    } else {
        match single_token_kind(c) {
            Some(kind) => (token_at(content, chars, i, i + 1, kind, line), i + 1, line),
            None => match pair_token_kinds(c) {
                Some((one, two)) => {
                    if i + 1 < n && chars[i + 1] == '=' {
                        (token_at(content, chars, i, i + 2, two, line), i + 2, line)
                    } else {
                        (token_at(content, chars, i, i + 1, one, line), i + 1, line)
                    }
                },
                None => (
                    Lexed::Error(LexError { kind: LexErrorKind::UnexpectedCharacter(c), line }),
                    i + 1,
                    line,
                ),
            },
        }
    }
}

impl Lexer {
    /// Scans all of `content` and returns its tokens, ended by one
    /// end-of-input token, with every lexical error found, in order. The
    /// scan does not stop at an error.
    pub fn tokenize(content: &str) -> (r: (Vec<Token>, Vec<LexError>))
        requires
            content@.len() < usize::MAX,
        ensures
            token_views(r.0@) == lex(content@).0,
            r.1@.map_values(|e: LexError| e@) == lex(content@).1,
            r.0@.len() >= 1,
            r.0@.last().kind is Eof,
            forall|k: int| 0 <= k < r.0@.len() - 1 ==> !(#[trigger] r.0@[k].kind is Eof),
            forall|a: int, b: int| 0 <= a <= b < r.0@.len() ==> r.0@[a].line <= r.0@[b].line,
    {
        let chars = chars_of(content);
        let ghost s = chars@;
        let ghost whole = scan_from(s, 0, 1);
        let mut tokens: Vec<Token> = Vec::new();
        let mut errors: Vec<LexError> = Vec::new();
        let mut i: usize = 0;
        let mut line: usize = 1;
        while i < chars.len()
            invariant
                s == chars@,
                s == content@,
                chars@.len() < usize::MAX,
                i <= chars@.len(),
                1 <= line <= i + 1,
                whole == scan_from(s, 0, 1),
                token_views(tokens@) + scan_from(s, i as int, line as int).tokens == whole.tokens,
                errors@.map_values(|e: LexError| e@) + scan_from(s, i as int, line as int).errors
                    == whole.errors,
                scan_from(s, i as int, line as int).line == whole.line,
            decreases chars@.len() - i,
        {
            let ghost before = scan_from(s, i as int, line as int);
            proof {
                lemma_step(s, i as int, line as int);
            }
            let (what, next, next_line) = lex_one(content, &chars, i, line);
            let ghost rest = scan_from(s, next as int, next_line as int);
            match what {
                Lexed::Blank => {},
                Lexed::Token(t) => {
                    let ghost old_tokens = tokens@;
                    tokens.push(t);
                    proof {
                        assert(token_views(tokens@) =~= token_views(old_tokens).push(t@));
                        assert(before.tokens == seq![t@] + rest.tokens);
                        assert(token_views(tokens@) + rest.tokens =~= token_views(old_tokens)
                            + before.tokens);
                    }
                },
                Lexed::Error(e) => {
                    let ghost old_errors = errors@;
                    errors.push(e);
                    proof {
                        assert(errors@.map_values(|e: LexError| e@) =~= old_errors.map_values(
                            |e: LexError| e@,
                        ).push(e@));
                        assert(before.errors == seq![e@] + rest.errors);
                        assert(errors@.map_values(|e: LexError| e@) + rest.errors
                            =~= old_errors.map_values(|e: LexError| e@) + before.errors);
                    }
                },
            }
            i = next;
            line = next_line;
        }
        proof {
            assert(token_views(tokens@) =~= whole.tokens);
            assert(errors@.map_values(|e: LexError| e@) =~= whole.errors);
            lemma_scan_from_placed(s, 0, 1);
        }
        let ghost old_tokens = tokens@;
        tokens.push(Token::new(TokenKind::Eof, String::new(), line));
        proof {
            assert(token_views(tokens@) =~= whole.tokens.push(eof_view(whole.line)));
            let tv = token_views(tokens@);
            assert forall|k: int| 0 <= k < tokens@.len() - 1 implies !(#[trigger] tokens@[k].kind is Eof) by {
                assert(tv[k] == tokens@[k]@);
                assert(tv[k] == whole.tokens[k]);
            }
            assert forall|a: int, b: int| 0 <= a <= b < tokens@.len() implies tokens@[a].line <= tokens@[b].line by {
                assert(tv[a] == tokens@[a]@);
                assert(tv[b] == tokens@[b]@);
                if b < tokens@.len() - 1 {
                    assert(tv[a] == whole.tokens[a]);
                    assert(tv[b] == whole.tokens[b]);
                } else if a < tokens@.len() - 1 {
                    assert(tv[a] == whole.tokens[a]);
                }
            }
        }
        (tokens, errors)
    }
}

} // verus!
