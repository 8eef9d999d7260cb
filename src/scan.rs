use vstd::prelude::*;

use crate::token::{Keyword, KindView, TokenView};

verus! {

/// Why a character could not be scanned.
#[derive(Debug, Clone, Copy, PartialEq, Eq, Structural)]
pub enum LexErrorKind {
    /// End of input came before the closing `"` of a string.
    UnterminatedString,
    /// A character that starts no token.
    UnexpectedCharacter(char),
}

/// A lexical error and the 1-based line on which it was found.
#[derive(Debug, Clone, Copy, PartialEq, Eq, Structural)]
pub struct LexError {
    pub kind: LexErrorKind,
    pub line: usize,
}

/// The mathematical value of a `LexError`.
pub struct LexErrorView {
    pub kind: LexErrorKind,
    pub line: int,
}

impl View for LexError {
    type V = LexErrorView;

    open spec fn view(&self) -> LexErrorView {
        LexErrorView { kind: self.kind, line: self.line as int }
    }
}

pub open spec fn is_digit(c: char) -> bool {
    '0' <= c && c <= '9'
}

pub open spec fn is_ident_start(c: char) -> bool {
    ('a' <= c && c <= 'z') || ('A' <= c && c <= 'Z') || c == '_'
}

pub open spec fn is_ident_char(c: char) -> bool {
    is_ident_start(c) || is_digit(c)
}

/// The first index at or after `i` that holds no digit.
pub open spec fn digits_end(s: Seq<char>, i: int) -> int
    decreases s.len() - i,
{
    if 0 <= i < s.len() && is_digit(s[i]) {
        digits_end(s, i + 1)
    } else {
        i
    }
}

/// The first index at or after `i` that holds no identifier character.
pub open spec fn ident_end(s: Seq<char>, i: int) -> int
    decreases s.len() - i,
{
    if 0 <= i < s.len() && is_ident_char(s[i]) {
        ident_end(s, i + 1)
    } else {
        i
    }
}

/// The first index at or after `i` that holds `c`, or `s.len()` if none does.
pub open spec fn find_char(s: Seq<char>, i: int, c: char) -> int
    decreases s.len() - i,
{
    if 0 <= i < s.len() && s[i] != c {
        find_char(s, i + 1, c)
    } else if i < 0 {
        i
    } else {
        if i <= s.len() { i } else { s.len() as int }
    }
}

/// The end of a number literal that starts at `i`: digits, then `.` and
/// digits only where a digit follows the `.`.
pub open spec fn number_end(s: Seq<char>, i: int) -> int {
    let e = digits_end(s, i);
    if e + 1 < s.len() && s[e] == '.' && is_digit(s[e + 1]) {
        digits_end(s, e + 1)
    } else {
        e
    }
}

/// How many newline characters `s` holds.
pub open spec fn newlines(s: Seq<char>) -> nat
    decreases s.len(),
{
    if s.len() == 0 {
        0
    } else {
        newlines(s.drop_last()) + if s.last() == '\n' { 1nat } else { 0nat }
    }
}

/// The reserved word spelled by `w`, if any.
pub open spec fn keyword_of(w: Seq<char>) -> Option<Keyword> {
    if w == "and"@ {
        Some(Keyword::And)
    } else if w == "class"@ {
        Some(Keyword::Class)
    } else if w == "else"@ {
        Some(Keyword::Else)
    } else if w == "false"@ {
        Some(Keyword::False)
    } else if w == "for"@ {
        Some(Keyword::For)
    } else if w == "fun"@ {
        Some(Keyword::Fun)
    } else if w == "if"@ {
        Some(Keyword::If)
    } else if w == "nil"@ {
        Some(Keyword::Nil)
    } else if w == "or"@ {
        Some(Keyword::Or)
    } else if w == "print"@ {
        Some(Keyword::Print)
    } else if w == "return"@ {
        Some(Keyword::Return)
    } else if w == "super"@ {
        Some(Keyword::Super)
    } else if w == "this"@ {
        Some(Keyword::This)
    } else if w == "true"@ {
        Some(Keyword::True)
    } else if w == "var"@ {
        Some(Keyword::Var)
    } else if w == "while"@ {
        Some(Keyword::While)
    } else {
        None
    }
}

/// The kind of a token that is always one character long.
pub open spec fn single_kind(c: char) -> Option<KindView> {
    if c == '(' {
        Some(KindView::LeftParen)
    } else if c == ')' {
        Some(KindView::RightParen)
    } else if c == '{' {
        Some(KindView::LeftBrace)
    } else if c == '}' {
        Some(KindView::RightBrace)
    } else if c == '+' {
        Some(KindView::Plus)
    } else if c == '-' {
        Some(KindView::Minus)
    } else if c == '*' {
        Some(KindView::Star)
    } else if c == ',' {
        Some(KindView::Comma)
    } else if c == '.' {
        Some(KindView::Dot)
    } else if c == ';' {
        Some(KindView::Semicolon)
    } else {
        None
    }
}

/// For a character that may be followed by `=`: the kind alone and the kind
/// of the two-character operator.
pub open spec fn pair_kinds(c: char) -> Option<(KindView, KindView)> {
    if c == '=' {
        Some((KindView::Equal, KindView::EqualEqual))
    } else if c == '!' {
        Some((KindView::Bang, KindView::BangEqual))
    } else if c == '<' {
        Some((KindView::Less, KindView::LessEqual))
    } else if c == '>' {
        Some((KindView::Greater, KindView::GreaterEqual))
    } else {
        None
    }
}

/// What one step of the scan found.
pub enum Scanned {
    /// Whitespace, a newline or a comment.
    Blank,
    Token(TokenView),
    Error(LexErrorView),
}

/// One step of the scan: what was found, and the index and line at which
/// the scan goes on.
pub struct Step {
    pub what: Scanned,
    pub next: int,
    pub next_line: int,
}

pub open spec fn token_step(s: Seq<char>, i: int, line: int, kind: KindView, next: int) -> Step {
    Step {
        what: Scanned::Token(TokenView { kind, lexeme: s.subrange(i, next), line }),
        next,
        next_line: line,
    }
}

/// The step of the scan at index `i` of `s`, on line `line`.
pub open spec fn lex_step(s: Seq<char>, i: int, line: int) -> Step
    recommends
        0 <= i < s.len(),
{
    let c = s[i];
    if c == '\n' {
        Step { what: Scanned::Blank, next: i + 1, next_line: line + 1 }
    } else if c == ' ' || c == '\t' {
        Step { what: Scanned::Blank, next: i + 1, next_line: line }
    } else if c == '/' && i + 1 < s.len() && s[i + 1] == '/' {
        Step { what: Scanned::Blank, next: find_char(s, i + 2, '\n'), next_line: line }
    } else if c == '"' {
        let q = find_char(s, i + 1, '"');
        if q < s.len() {
            Step {
                what: Scanned::Token(
                    TokenView {
                        kind: KindView::Str(s.subrange(i + 1, q)),
                        lexeme: s.subrange(i, q + 1),
                        line,
                    },
                ),
                next: q + 1,
                next_line: line + newlines(s.subrange(i + 1, q)),
            }
        } else {
            let at = line + newlines(s.subrange(i + 1, q));
            Step {
                what: Scanned::Error(LexErrorView { kind: LexErrorKind::UnterminatedString, line: at }),
                next: q,
                next_line: at,
            }
        }
    } else if is_digit(c) {
        let e = number_end(s, i);
        token_step(s, i, line, KindView::Num { negative: false, magnitude: s.subrange(i, e) }, e)
    } else if is_ident_start(c) {
        let e = ident_end(s, i);
        let w = s.subrange(i, e);
        let kind = match keyword_of(w) {
            Some(k) => KindView::Kw(k),
            None => KindView::Ident(w),
        };
        token_step(s, i, line, kind, e)
    } else if c == '/' {
        token_step(s, i, line, KindView::Slash, i + 1)
    } else if single_kind(c) is Some {
        token_step(s, i, line, single_kind(c)->0, i + 1)
    } else if pair_kinds(c) is Some {
        let (one, two) = pair_kinds(c)->0;
        if i + 1 < s.len() && s[i + 1] == '=' {
            token_step(s, i, line, two, i + 2)
        } else {
            token_step(s, i, line, one, i + 1)
        }
    } else {
        Step {
            what: Scanned::Error(LexErrorView { kind: LexErrorKind::UnexpectedCharacter(c), line }),
            next: i + 1,
            next_line: line,
        }
    }
}

pub proof fn lemma_digits_end(s: Seq<char>, i: int)
    requires
        0 <= i <= s.len(),
    ensures
        i <= digits_end(s, i) <= s.len(),
        forall|k: int| i <= k < digits_end(s, i) ==> is_digit(#[trigger] s[k]),
    decreases s.len() - i,
{
    if i < s.len() && is_digit(s[i]) {
        lemma_digits_end(s, i + 1);
    }
}

pub proof fn lemma_ident_end(s: Seq<char>, i: int)
    requires
        0 <= i <= s.len(),
    ensures
        i <= ident_end(s, i) <= s.len(),
    decreases s.len() - i,
{
    if i < s.len() && is_ident_char(s[i]) {
        lemma_ident_end(s, i + 1);
    }
}

pub proof fn lemma_find_char(s: Seq<char>, i: int, c: char)
    requires
        0 <= i,
    ensures
        i <= s.len() ==> i <= find_char(s, i, c) <= s.len(),
        i > s.len() ==> find_char(s, i, c) == s.len(),
        find_char(s, i, c) < s.len() ==> s[find_char(s, i, c)] == c,
        forall|k: int| i <= k < find_char(s, i, c) ==> #[trigger] s[k] != c,
    decreases s.len() - i,
{
    if i < s.len() && s[i] != c {
        lemma_find_char(s, i + 1, c);
    }
}

pub proof fn lemma_newlines_bound(s: Seq<char>)
    ensures
        newlines(s) <= s.len(),
    decreases s.len(),
{
    if s.len() > 0 {
        lemma_newlines_bound(s.drop_last());
    }
}

/// Each step consumes at least one character and stays within the input;
/// the line never exceeds one more than the index.
pub proof fn lemma_step(s: Seq<char>, i: int, line: int)
    requires
        0 <= i < s.len(),
    ensures
        i < lex_step(s, i, line).next <= s.len(),
        line <= lex_step(s, i, line).next_line,
        line <= i + 1 ==> lex_step(s, i, line).next_line <= lex_step(s, i, line).next + 1,
{
    lemma_digits_end(s, i + 1);
    lemma_ident_end(s, i + 1);
    lemma_find_char(s, i + 1, '"');
    lemma_find_char(s, i + 2, '\n');
    let e = digits_end(s, i);
    if e + 1 < s.len() {
        lemma_digits_end(s, e + 1);
    }
    let q = find_char(s, i + 1, '"');
    lemma_newlines_bound(s.subrange(i + 1, q));
}

/// What a scan from index `i` on line `line` produces: tokens, errors, and
/// the line reached at the end of input.
pub struct ScanView {
    pub tokens: Seq<TokenView>,
    pub errors: Seq<LexErrorView>,
    pub line: int,
}

pub open spec fn scan_from(s: Seq<char>, i: int, line: int) -> ScanView
    decreases s.len() - i,
    via scan_from_decreases
{
    if 0 <= i < s.len() {
        let st = lex_step(s, i, line);
        let rest = scan_from(s, st.next, st.next_line);
        match st.what {
            Scanned::Blank => rest,
            Scanned::Token(t) => ScanView { tokens: seq![t] + rest.tokens, ..rest },
            Scanned::Error(e) => ScanView { errors: seq![e] + rest.errors, ..rest },
        }
    } else {
        ScanView { tokens: seq![], errors: seq![], line }
    }
}

#[via_fn]
proof fn scan_from_decreases(s: Seq<char>, i: int, line: int) {
    if 0 <= i < s.len() {
        lemma_step(s, i, line);
    }
}

/// The end-of-input token, on line `line`.
pub open spec fn eof_view(line: int) -> TokenView {
    TokenView { kind: KindView::Eof, lexeme: Seq::empty(), line }
}

/// The tokens and errors of the whole of `s`: the scan from its start on
/// line 1, with one end-of-input token after the others.
pub open spec fn lex(s: Seq<char>) -> (Seq<TokenView>, Seq<LexErrorView>) {
    let r = scan_from(s, 0, 1);
    (r.tokens.push(eof_view(r.line)), r.errors)
}

/// Lines are non-decreasing in `ts`, at least `lo` and at most `hi`, and no
/// token of `ts` is an end-of-input token.
pub open spec fn well_placed(ts: Seq<TokenView>, lo: int, hi: int) -> bool {
    &&& forall|k: int| 0 <= k < ts.len() ==> (#[trigger] ts[k]).kind !is Eof
    &&& forall|k: int| 0 <= k < ts.len() ==> lo <= (#[trigger] ts[k]).line <= hi
    &&& forall|a: int, b: int| 0 <= a <= b < ts.len() ==> ts[a].line <= ts[b].line
}

pub proof fn lemma_scan_from_placed(s: Seq<char>, i: int, line: int)
    requires
        0 <= i <= s.len(),
    ensures
        line <= scan_from(s, i, line).line,
        well_placed(scan_from(s, i, line).tokens, line, scan_from(s, i, line).line),
    decreases s.len() - i,
{
    if i < s.len() {
        let st = lex_step(s, i, line);
        lemma_step(s, i, line);
        lemma_scan_from_placed(s, st.next, st.next_line);
        let rest = scan_from(s, st.next, st.next_line);
        if let Scanned::Token(t) = st.what {
            let ts = seq![t] + rest.tokens;
            assert(t.line == line);
            assert(!(t.kind is Eof));
            assert forall|a: int, b: int| 0 <= a <= b < ts.len() implies ts[a].line <= ts[b].line by {
                if a > 0 {
                    assert(ts[a] == rest.tokens[a - 1]);
                    assert(ts[b] == rest.tokens[b - 1]);
                } else if b > 0 {
                    assert(ts[b] == rest.tokens[b - 1]);
                }
            }
            assert forall|k: int| 0 <= k < ts.len() implies (#[trigger] ts[k]).kind !is Eof && line <= ts[k].line <= rest.line by {
                if k > 0 {
                    assert(ts[k] == rest.tokens[k - 1]);
                }
            }
        }
    }
}

/// A character that scans, by itself, as one punctuation or operator token.
pub open spec fn is_punctuation(c: char) -> bool {
    single_kind(c) is Some || pair_kinds(c) is Some || c == '/'
}

/// No two neighbouring characters of `s` form a two-character operator
/// (`==`, `!=`, `<=`, `>=`) or the start of a comment (`//`).
pub open spec fn no_pairs(s: Seq<char>) -> bool {
    forall|k: int|
        0 <= k < s.len() - 1 ==> !(pair_kinds(#[trigger] s[k]) is Some && s[k + 1] == '=') && !(
        s[k] == '/' && s[k + 1] == '/')
}

proof fn lemma_punctuation_scan(s: Seq<char>, i: int, line: int)
    requires
        0 <= i <= s.len(),
        forall|k: int| 0 <= k < s.len() ==> is_punctuation(#[trigger] s[k]),
        no_pairs(s),
    ensures
        scan_from(s, i, line).tokens.len() == s.len() - i,
        scan_from(s, i, line).errors.len() == 0,
    decreases s.len() - i,
{
    if i < s.len() {
        let c = s[i];
        assert(is_punctuation(c));
        if i + 1 < s.len() {
            assert(!(pair_kinds(s[i]) is Some && s[i + 1] == '='));
        }
        let st = lex_step(s, i, line);
        assert(st.what is Token && st.next == i + 1 && st.next_line == line);
        lemma_punctuation_scan(s, i + 1, line);
    }
}

/// Input made only of punctuation characters, with no two of them forming
/// a two-character operator or a comment, scans to one token per character
/// and the end-of-input token, with no error.
pub proof fn lemma_punctuation_token_count(s: Seq<char>)
    requires
        forall|k: int| 0 <= k < s.len() ==> is_punctuation(#[trigger] s[k]),
        no_pairs(s),
    ensures
        lex(s).0.len() == s.len() + 1,
        lex(s).1.len() == 0,
{
    lemma_punctuation_scan(s, 0, 1);
}

/// Token `k` of `ts` is the text of `s` at `starts[k]`, at or after `lo`,
/// and each token ends at or before the start of the next.
pub open spec fn lexemes_at(s: Seq<char>, ts: Seq<TokenView>, starts: Seq<int>, lo: int) -> bool {
    &&& starts.len() == ts.len()
    &&& forall|k: int|
        0 <= k < ts.len() ==> {
            &&& lo <= #[trigger] starts[k]
            &&& starts[k] + ts[k].lexeme.len() <= s.len()
            &&& ts[k].lexeme == s.subrange(starts[k], starts[k] + ts[k].lexeme.len())
        }
    &&& forall|k: int| 0 <= k < ts.len() - 1 ==> #[trigger] starts[k] + ts[k].lexeme.len() <= starts[k + 1]
}

proof fn lemma_scan_lexemes(s: Seq<char>, i: int, line: int)
    requires
        0 <= i <= s.len(),
    ensures
        exists|starts: Seq<int>| lexemes_at(s, scan_from(s, i, line).tokens, starts, i),
    decreases s.len() - i,
{
    if i < s.len() {
        let st = lex_step(s, i, line);
        lemma_step(s, i, line);
        lemma_scan_lexemes(s, st.next, st.next_line);
        let rest = scan_from(s, st.next, st.next_line);
        let later = choose|starts: Seq<int>| lexemes_at(s, rest.tokens, starts, st.next);
        match st.what {
            Scanned::Token(tv) => {
                let ts = seq![tv] + rest.tokens;
                let starts = seq![i] + later;
                assert(tv.lexeme == s.subrange(i, st.next));
                assert forall|k: int| 0 <= k < ts.len() implies {
                    &&& i <= #[trigger] starts[k]
                    &&& starts[k] + ts[k].lexeme.len() <= s.len()
                    &&& ts[k].lexeme == s.subrange(starts[k], starts[k] + ts[k].lexeme.len())
                } by {
                    if k > 0 {
                        assert(starts[k] == later[k - 1]);
                        assert(ts[k] == rest.tokens[k - 1]);
                    }
                }
                assert forall|k: int| 0 <= k < ts.len() - 1 implies #[trigger] starts[k]
                    + ts[k].lexeme.len() <= starts[k + 1] by {
                    assert(starts[k + 1] == later[k]);
                    if k > 0 {
                        assert(starts[k] == later[k - 1]);
                        assert(ts[k] == rest.tokens[k - 1]);
                    }
                }
                assert(lexemes_at(s, ts, starts, i));
                assert(scan_from(s, i, line).tokens == ts);
                assert(lexemes_at(s, scan_from(s, i, line).tokens, starts, i));
            },
            _ => {
                assert(scan_from(s, i, line).tokens == rest.tokens);
                assert forall|k: int| 0 <= k < rest.tokens.len() implies i <= #[trigger] later[k] by {}
                assert(lexemes_at(s, rest.tokens, later, i));
                assert(lexemes_at(s, scan_from(s, i, line).tokens, later, i));
            },
        }
    } else {
        assert(lexemes_at(s, scan_from(s, i, line).tokens, Seq::<int>::empty(), i));
    }
}

/// Every token before the end-of-input token reproduces the source text it
/// was scanned from, and the tokens come in source order without overlap;
/// the end-of-input token's lexeme is empty.
pub proof fn lemma_lexemes_in_source(s: Seq<char>)
    ensures
        exists|starts: Seq<int>| lexemes_at(s, lex(s).0.drop_last(), starts, 0),
        lex(s).0.last().lexeme.len() == 0,
{
    lemma_scan_lexemes(s, 0, 1);
    assert(lex(s).0.drop_last() =~= scan_from(s, 0, 1).tokens);
}

} // verus!
