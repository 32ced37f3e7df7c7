use vstd::prelude::*;

use crate::lexer_error::LexerError;
use crate::span_identifier::SpanIdentifier;

verus! {

/// The category of one token.
#[derive(Clone, Copy, Debug, PartialEq, Eq, Structural)]
pub enum TokenType {
    LeftParen,
    RightParen,
    LeftCurlyBrace,
    RightCurlyBrace,
    LeftBracket,
    RightBracket,
    Comma,
    Dot,
    Minus,
    Plus,
    Semicolon,
    Slash,
    Star,
    Bang,
    BangEqual,
    Equal,
    EqualEqual,
    Greater,
    GreaterEqual,
    Less,
    LessEqual,
    FatArrow,
    LambdaStart,
    And,
    Else,
    False,
    Fn,
    For,
    If,
    Null,
    Or,
    Return,
    Continue,
    Break,
    True,
    Let,
    Mut,
    While,
    StringLiteral,
    IntegerLiteral,
    FloatLiteral,
    Identifier,
}

/// One token: its category, the literal value it carries (for string,
/// integer and float literals, with the quotes stripped from strings), and
/// the source span it came from.
#[derive(Debug)]
pub struct Token {
    pub token_type: TokenType,
    pub literal_value: Option<String>,
    pub id: SpanIdentifier,
}

/// A decimal digit.
pub open spec fn is_digit(c: char) -> bool {
    48 <= c as u32 <= 57
}

/// A character that can begin an identifier.
pub open spec fn is_ident_start(c: char) -> bool {
    (65 <= c as u32 <= 90) || (97 <= c as u32 <= 122) || c as u32 == 95
}

/// A character that can continue an identifier.
pub open spec fn is_ident_cont(c: char) -> bool {
    is_ident_start(c) || is_digit(c)
}

/// A space or a tab.
pub open spec fn is_blank(c: char) -> bool {
    c as u32 == 32 || c as u32 == 9
}

fn digit(c: char) -> (r: bool)
    ensures
        r == is_digit(c),
{
    let u = c as u32;
    48 <= u && u <= 57
}

fn ident_start(c: char) -> (r: bool)
    ensures
        r == is_ident_start(c),
{
    let u = c as u32;
    (65 <= u && u <= 90) || (97 <= u && u <= 122) || u == 95
}

fn ident_cont(c: char) -> (r: bool)
    ensures
        r == is_ident_cont(c),
{
    ident_start(c) || digit(c)
}

fn blank(c: char) -> (r: bool)
    ensures
        r == is_blank(c),
{
    let u = c as u32;
    u == 32 || u == 9
}

/// The end of the run of decimal digits that starts at `i`.
pub open spec fn digit_end(s: Seq<char>, i: int) -> int
    decreases s.len() - i when 0 <= i <= s.len()
{
    if i < s.len() && is_digit(s[i]) {
        digit_end(s, i + 1)
    } else {
        i
    }
}

/// The end of the run of identifier characters that starts at `i`.
pub open spec fn ident_end(s: Seq<char>, i: int) -> int
    decreases s.len() - i when 0 <= i <= s.len()
{
    if i < s.len() && is_ident_cont(s[i]) {
        ident_end(s, i + 1)
    } else {
        i
    }
}

/// The end of the run of blanks that starts at `i`.
pub open spec fn blank_end(s: Seq<char>, i: int) -> int
    decreases s.len() - i when 0 <= i <= s.len()
{
    if i < s.len() && is_blank(s[i]) {
        blank_end(s, i + 1)
    } else {
        i
    }
}

/// The end of a line comment's text: everything up to, and not including,
/// the next line break.
pub open spec fn line_comment_end(s: Seq<char>, i: int) -> int
    decreases s.len() - i when 0 <= i <= s.len()
{
    if i < s.len() && s[i] != '\n' && s[i] != '\r' {
        line_comment_end(s, i + 1)
    } else {
        i
    }
}

/// Scanning a string literal's body from just after the opening quote: the
/// position just after the closing quote, where a backslash escapes the
/// character after it, or -1 if the literal never closes.
pub open spec fn string_body_end(s: Seq<char>, i: int) -> int
    decreases s.len() - i when 0 <= i <= s.len()
{
    if i >= s.len() {
        -1
    } else if s[i] == '"' {
        i + 1
    } else if s[i] == '\\' {
        if i + 2 <= s.len() {
            string_body_end(s, i + 2)
        } else {
            -1
        }
    } else {
        string_body_end(s, i + 1)
    }
}

/// Scanning a block comment's body from just after its opener: the position
/// just after the closer, where the first star inside must close the
/// comment, or -1 if it does not.
pub open spec fn block_comment_end(s: Seq<char>, i: int) -> int
    decreases s.len() - i when 0 <= i <= s.len()
{
    if i >= s.len() {
        -1
    } else if s[i] == '*' {
        if i + 1 < s.len() && s[i + 1] == '/' {
            i + 2
        } else {
            -1
        }
    } else {
        block_comment_end(s, i + 1)
    }
}

proof fn lemma_digit_end_bounds(s: Seq<char>, i: int)
    requires
        0 <= i <= s.len(),
    ensures
        i <= digit_end(s, i) <= s.len(),
    decreases s.len() - i,
{
    if i < s.len() && is_digit(s[i]) {
        lemma_digit_end_bounds(s, i + 1);
    }
}

proof fn lemma_ident_end_bounds(s: Seq<char>, i: int)
    requires
        0 <= i <= s.len(),
    ensures
        i <= ident_end(s, i) <= s.len(),
    decreases s.len() - i,
{
    if i < s.len() && is_ident_cont(s[i]) {
        lemma_ident_end_bounds(s, i + 1);
    }
}

proof fn lemma_blank_end_bounds(s: Seq<char>, i: int)
    requires
        0 <= i <= s.len(),
    ensures
        i <= blank_end(s, i) <= s.len(),
    decreases s.len() - i,
{
    if i < s.len() && is_blank(s[i]) {
        lemma_blank_end_bounds(s, i + 1);
    }
}

proof fn lemma_line_comment_end_bounds(s: Seq<char>, i: int)
    requires
        0 <= i <= s.len(),
    ensures
        i <= line_comment_end(s, i) <= s.len(),
    decreases s.len() - i,
{
    if i < s.len() && s[i] != '\n' && s[i] != '\r' {
        lemma_line_comment_end_bounds(s, i + 1);
    }
}

proof fn lemma_string_body_end_bounds(s: Seq<char>, i: int)
    requires
        0 <= i <= s.len(),
    ensures
        string_body_end(s, i) == -1 || i < string_body_end(s, i) <= s.len(),
    decreases s.len() - i,
{
    if i < s.len() {
        if s[i] == '\\' && i + 2 <= s.len() {
            lemma_string_body_end_bounds(s, i + 2);
        } else if s[i] != '"' && s[i] != '\\' {
            lemma_string_body_end_bounds(s, i + 1);
        }
    }
}

proof fn lemma_block_comment_end_bounds(s: Seq<char>, i: int)
    requires
        0 <= i <= s.len(),
    ensures
        block_comment_end(s, i) == -1 || i < block_comment_end(s, i) <= s.len(),
    decreases s.len() - i,
{
    if i < s.len() && s[i] != '*' {
        lemma_block_comment_end_bounds(s, i + 1);
    }
}

fn digit_run(chars: &Vec<char>, i: usize) -> (e: usize)
    requires
        i <= chars@.len(),
    ensures
        e as int == digit_end(chars@, i as int),
        i <= e <= chars@.len(),
{
    let mut j = i;
    while j < chars.len() && digit(chars[j])
        invariant
            i <= j <= chars@.len(),
            digit_end(chars@, i as int) == digit_end(chars@, j as int),
        decreases chars@.len() - j,
    {
        j += 1;
    }
    proof {
        lemma_digit_end_bounds(chars@, j as int);
    }
    j
}

fn ident_run(chars: &Vec<char>, i: usize) -> (e: usize)
    requires
        i <= chars@.len(),
    ensures
        e as int == ident_end(chars@, i as int),
        i <= e <= chars@.len(),
{
    let mut j = i;
    while j < chars.len() && ident_cont(chars[j])
        invariant
            i <= j <= chars@.len(),
            ident_end(chars@, i as int) == ident_end(chars@, j as int),
        decreases chars@.len() - j,
    {
        j += 1;
    }
    j
}

fn blank_run(chars: &Vec<char>, i: usize) -> (e: usize)
    requires
        i <= chars@.len(),
    ensures
        e as int == blank_end(chars@, i as int),
        i <= e <= chars@.len(),
{
    let mut j = i;
    while j < chars.len() && blank(chars[j])
        invariant
            i <= j <= chars@.len(),
            blank_end(chars@, i as int) == blank_end(chars@, j as int),
        decreases chars@.len() - j,
    {
        j += 1;
    }
    j
}

fn line_comment_run(chars: &Vec<char>, i: usize) -> (e: usize)
    requires
        i <= chars@.len(),
    ensures
        e as int == line_comment_end(chars@, i as int),
        i <= e <= chars@.len(),
{
    let mut j = i;
    while j < chars.len() && chars[j] != '\n' && chars[j] != '\r'
        invariant
            i <= j <= chars@.len(),
            line_comment_end(chars@, i as int) == line_comment_end(chars@, j as int),
        decreases chars@.len() - j,
    {
        j += 1;
    }
    j
}

fn string_body_scan(chars: &Vec<char>, i: usize) -> (e: Option<usize>)
    requires
        i <= chars@.len(),
    ensures
        match e {
            Some(e) => e as int == string_body_end(chars@, i as int) && i < e <= chars@.len(),
            None => string_body_end(chars@, i as int) == -1,
        },
{
    let mut j = i;
    loop
        invariant
            i <= j <= chars@.len(),
            string_body_end(chars@, i as int) == string_body_end(chars@, j as int),
        decreases chars@.len() - j,
    {
        if j >= chars.len() {
            return None;
        }
        let c = chars[j];
        if c == '"' {
            return Some(j + 1);
        } else if c == '\\' {
            if j < chars.len() - 1 {
                j += 2;
            } else {
                return None;
            }
        } else {
            j += 1;
        }
    }
}

fn block_comment_scan(chars: &Vec<char>, i: usize) -> (e: Option<usize>)
    requires
        i <= chars@.len(),
    ensures
        match e {
            Some(e) => e as int == block_comment_end(chars@, i as int) && i < e <= chars@.len(),
            None => block_comment_end(chars@, i as int) == -1,
        },
{
    let mut j = i;
    loop
        invariant
            i <= j <= chars@.len(),
            block_comment_end(chars@, i as int) == block_comment_end(chars@, j as int),
        decreases chars@.len() - j,
    {
        if j >= chars.len() {
            return None;
        }
        let c = chars[j];
        if c == '*' {
            if j + 1 < chars.len() && chars[j + 1] == '/' {
                return Some(j + 2);
            } else {
                return None;
            }
        } else {
            j += 1;
        }
    }
}


/// The category of a scanned word: a keyword where the text matches one
/// exactly, otherwise an identifier.
pub open spec fn keyword_type(w: Seq<char>) -> TokenType {
    if w == "and"@ {
        TokenType::And
    } else if w == "else"@ {
        TokenType::Else
    } else if w == "false"@ {
        TokenType::False
    } else if w == "fn"@ {
        TokenType::Fn
    } else if w == "for"@ {
        TokenType::For
    } else if w == "if"@ {
        TokenType::If
    } else if w == "null"@ {
        TokenType::Null
    } else if w == "or"@ {
        TokenType::Or
    } else if w == "return"@ {
        TokenType::Return
    } else if w == "continue"@ {
        TokenType::Continue
    } else if w == "break"@ {
        TokenType::Break
    } else if w == "true"@ {
        TokenType::True
    } else if w == "let"@ {
        TokenType::Let
    } else if w == "mut"@ {
        TokenType::Mut
    } else if w == "while"@ {
        TokenType::While
    } else {
        TokenType::Identifier
    }
}

fn word_eq(chars: &Vec<char>, start: usize, end: usize, kw: &str) -> (r: bool)
    requires
        start <= end <= chars@.len(),
    ensures
        r == (chars@.subrange(start as int, end as int) == kw@),
{
    let n = kw.unicode_len();
    if end - start != n {
        proof {
            assert(chars@.subrange(start as int, end as int).len() == end - start);
        }
        return false;
    }
    let mut j: usize = 0;
    while j < n
        invariant
            j <= n,
            n == kw@.len(),
            start <= end <= chars@.len(),
            end - start == n,
            forall|t: int| 0 <= t < j ==> chars@[start + t] == kw@[t],
        decreases n - j,
    {
        if chars[start + j] != kw.get_char(j) {
            proof {
                assert(chars@.subrange(start as int, end as int)[j as int] == chars@[start + j]);
            }
            return false;
        }
        j += 1;
    }
    proof {
        assert(chars@.subrange(start as int, end as int) =~= kw@);
    }
    true
}

fn classify_word(chars: &Vec<char>, start: usize, end: usize) -> (t: TokenType)
    requires
        start <= end <= chars@.len(),
    ensures
        t == keyword_type(chars@.subrange(start as int, end as int)),
{
    if word_eq(chars, start, end, "and") {
        TokenType::And
    } else if word_eq(chars, start, end, "else") {
        TokenType::Else
    } else if word_eq(chars, start, end, "false") {
        TokenType::False
    } else if word_eq(chars, start, end, "fn") {
        TokenType::Fn
    } else if word_eq(chars, start, end, "for") {
        TokenType::For
    } else if word_eq(chars, start, end, "if") {
        TokenType::If
    } else if word_eq(chars, start, end, "null") {
        TokenType::Null
    } else if word_eq(chars, start, end, "or") {
        TokenType::Or
    } else if word_eq(chars, start, end, "return") {
        TokenType::Return
    } else if word_eq(chars, start, end, "continue") {
        TokenType::Continue
    } else if word_eq(chars, start, end, "break") {
        TokenType::Break
    } else if word_eq(chars, start, end, "true") {
        TokenType::True
    } else if word_eq(chars, start, end, "let") {
        TokenType::Let
    } else if word_eq(chars, start, end, "mut") {
        TokenType::Mut
    } else if word_eq(chars, start, end, "while") {
        TokenType::While
    } else {
        TokenType::Identifier
    }
}

/// What one scan step finds at a position: a token of some category, a line
/// break, text to skip (blanks and comments), or input no category matches.
pub enum ScanKind {
    Token(TokenType),
    Newline,
    Skip,
    Unknown,
}

/// The punctuation or operator token at `i`, for a character that starts no
/// other form; two-character operators take precedence over their prefixes.
pub open spec fn punct_scan(s: Seq<char>, i: int) -> (ScanKind, int)
    recommends
        0 <= i < s.len(),
{
    let c = s[i];
    if c == '!' {
        if i + 1 < s.len() && s[i + 1] == '=' {
            (ScanKind::Token(TokenType::BangEqual), i + 2)
        } else {
            (ScanKind::Token(TokenType::Bang), i + 1)
        }
    } else if c == '=' {
        if i + 1 < s.len() && s[i + 1] == '=' {
            (ScanKind::Token(TokenType::EqualEqual), i + 2)
        } else if i + 1 < s.len() && s[i + 1] == '>' {
            (ScanKind::Token(TokenType::FatArrow), i + 2)
        } else {
            (ScanKind::Token(TokenType::Equal), i + 1)
        }
    } else if c == '>' {
        if i + 1 < s.len() && s[i + 1] == '=' {
            (ScanKind::Token(TokenType::GreaterEqual), i + 2)
        } else {
            (ScanKind::Token(TokenType::Greater), i + 1)
        }
    } else if c == '<' {
        if i + 1 < s.len() && s[i + 1] == '=' {
            (ScanKind::Token(TokenType::LessEqual), i + 2)
        } else {
            (ScanKind::Token(TokenType::Less), i + 1)
        }
    } else if c == '(' {
        (ScanKind::Token(TokenType::LeftParen), i + 1)
    } else if c == ')' {
        (ScanKind::Token(TokenType::RightParen), i + 1)
    } else if c == '{' {
        (ScanKind::Token(TokenType::LeftCurlyBrace), i + 1)
    } else if c == '}' {
        (ScanKind::Token(TokenType::RightCurlyBrace), i + 1)
    } else if c == '[' {
        (ScanKind::Token(TokenType::LeftBracket), i + 1)
    } else if c == ']' {
        (ScanKind::Token(TokenType::RightBracket), i + 1)
    } else if c == ',' {
        (ScanKind::Token(TokenType::Comma), i + 1)
    } else if c == '.' {
        (ScanKind::Token(TokenType::Dot), i + 1)
    } else if c == '-' {
        (ScanKind::Token(TokenType::Minus), i + 1)
    } else if c == '+' {
        (ScanKind::Token(TokenType::Plus), i + 1)
    } else if c == ';' {
        (ScanKind::Token(TokenType::Semicolon), i + 1)
    } else if c == '*' {
        (ScanKind::Token(TokenType::Star), i + 1)
    } else if c == '/' {
        (ScanKind::Token(TokenType::Slash), i + 1)
    } else if c == '\\' {
        (ScanKind::Token(TokenType::LambdaStart), i + 1)
    } else {
        (ScanKind::Unknown, i + 1)
    }
}

/// One scan step at position `i`: the kind of lexeme found there and the
/// position just after it, under the longest-match rule. Line breaks are
/// their own kind; blanks and comments are skipped; a string or block
/// comment that never closes, a lone carriage return, and any character no
/// form starts are unknown input.
pub open spec fn spec_scan(s: Seq<char>, i: int) -> (ScanKind, int)
    recommends
        0 <= i < s.len(),
{
    let c = s[i];
    if c == '\n' {
        (ScanKind::Newline, i + 1)
    } else if c == '\r' {
        if i + 1 < s.len() && s[i + 1] == '\n' {
            (ScanKind::Newline, i + 2)
        } else {
            (ScanKind::Unknown, i + 1)
        }
    } else if is_blank(c) {
        (ScanKind::Skip, blank_end(s, i))
    } else if c == '/' && i + 1 < s.len() && s[i + 1] == '/' {
        (ScanKind::Skip, line_comment_end(s, i + 2))
    } else if c == '/' && i + 1 < s.len() && s[i + 1] == '*' {
        let e = block_comment_end(s, i + 2);
        if e >= 0 {
            (ScanKind::Skip, e)
        } else {
            (ScanKind::Unknown, i + 1)
        }
    } else if c == '"' {
        let e = string_body_end(s, i + 1);
        if e >= 0 {
            (ScanKind::Token(TokenType::StringLiteral), e)
        } else {
            (ScanKind::Unknown, i + 1)
        }
    } else if is_digit(c) {
        if c == '0' && i + 2 < s.len() && (s[i + 1] == 'x' || s[i + 1] == 'b') && is_digit(
            s[i + 2],
        ) {
            (ScanKind::Token(TokenType::IntegerLiteral), digit_end(s, i + 2))
        } else {
            let d = digit_end(s, i);
            if d + 1 < s.len() && s[d] == '.' && is_digit(s[d + 1]) {
                (ScanKind::Token(TokenType::FloatLiteral), digit_end(s, d + 1))
            } else {
                (ScanKind::Token(TokenType::IntegerLiteral), d)
            }
        }
    } else if is_ident_start(c) {
        let e = ident_end(s, i);
        (ScanKind::Token(keyword_type(s.subrange(i, e))), e)
    } else {
        punct_scan(s, i)
    }
}

/// Scan bounds: a scan step always makes progress and stays inside the
/// input, and a string literal spans at least its two quotes.
proof fn lemma_scan_bounds(s: Seq<char>, i: int)
    requires
        0 <= i < s.len(),
    ensures
        i < spec_scan(s, i).1 <= s.len(),
        spec_scan(s, i).0 == ScanKind::Token(TokenType::StringLiteral) ==> spec_scan(s, i).1 >= i
            + 2,
{
    let c = s[i];
    lemma_blank_end_bounds(s, i);
    if is_blank(c) {
        assert(blank_end(s, i) == blank_end(s, i + 1));
        lemma_blank_end_bounds(s, i + 1);
    }
    if i + 2 <= s.len() {
        lemma_line_comment_end_bounds(s, i + 2);
        lemma_block_comment_end_bounds(s, i + 2);
    }
    if i + 1 <= s.len() {
        lemma_string_body_end_bounds(s, i + 1);
    }
    if is_digit(c) {
        lemma_digit_end_bounds(s, i);
        assert(digit_end(s, i) == digit_end(s, i + 1));
        lemma_digit_end_bounds(s, i + 1);
        if i + 2 < s.len() && is_digit(s[i + 2]) {
            assert(digit_end(s, i + 2) == digit_end(s, i + 3));
            lemma_digit_end_bounds(s, i + 3);
        }
        let d = digit_end(s, i);
        if d + 1 < s.len() && s[d] == '.' && is_digit(s[d + 1]) {
            assert(digit_end(s, d + 1) == digit_end(s, d + 2));
            lemma_digit_end_bounds(s, d + 2);
        }
    }
    if is_ident_start(c) {
        assert(ident_end(s, i) == ident_end(s, i + 1));
        lemma_ident_end_bounds(s, i + 1);
    }
}

/// One scan step, decided at run time.
fn scan_token(chars: &Vec<char>, i: usize) -> (r: (ScanKind, usize))
    requires
        i < chars@.len(),
    ensures
        r.0 == spec_scan(chars@, i as int).0,
        r.1 as int == spec_scan(chars@, i as int).1,
        i < r.1 <= chars@.len(),
        r.0 == ScanKind::Token(TokenType::StringLiteral) ==> r.1 >= i + 2,
{
    proof {
        lemma_scan_bounds(chars@, i as int);
    }
    let n = chars.len();
    let c = chars[i];
    if c == '\n' {
        (ScanKind::Newline, i + 1)
    } else if c == '\r' {
        if i + 1 < n && chars[i + 1] == '\n' {
            (ScanKind::Newline, i + 2)
        } else {
            (ScanKind::Unknown, i + 1)
        }
    } else if blank(c) {
        (ScanKind::Skip, blank_run(chars, i))
    } else if c == '/' && i + 1 < n && chars[i + 1] == '/' {
        (ScanKind::Skip, line_comment_run(chars, i + 2))
    } else if c == '/' && i + 1 < n && chars[i + 1] == '*' {
        match block_comment_scan(chars, i + 2) {
            Some(e) => (ScanKind::Skip, e),
            None => (ScanKind::Unknown, i + 1),
        }
    } else if c == '"' {
        match string_body_scan(chars, i + 1) {
            Some(e) => (ScanKind::Token(TokenType::StringLiteral), e),
            None => (ScanKind::Unknown, i + 1),
        }
    } else if digit(c) {
        if c == '0' && n - i > 2 && (chars[i + 1] == 'x' || chars[i + 1] == 'b') && digit(
            chars[i + 2],
        ) {
            (ScanKind::Token(TokenType::IntegerLiteral), digit_run(chars, i + 2))
        } else {
            let d = digit_run(chars, i);
            if n - d > 1 && chars[d] == '.' && digit(chars[d + 1]) {
                (ScanKind::Token(TokenType::FloatLiteral), digit_run(chars, d + 1))
            } else {
                (ScanKind::Token(TokenType::IntegerLiteral), d)
            }
        }
    } else if ident_start(c) {
        let e = ident_run(chars, i);
        (ScanKind::Token(classify_word(chars, i, e)), e)
    } else if c == '!' {
        if i + 1 < n && chars[i + 1] == '=' {
            (ScanKind::Token(TokenType::BangEqual), i + 2)
        } else {
            (ScanKind::Token(TokenType::Bang), i + 1)
        }
    } else if c == '=' {
        if i + 1 < n && chars[i + 1] == '=' {
            (ScanKind::Token(TokenType::EqualEqual), i + 2)
        } else if i + 1 < n && chars[i + 1] == '>' {
            (ScanKind::Token(TokenType::FatArrow), i + 2)
        } else {
            (ScanKind::Token(TokenType::Equal), i + 1)
        }
    } else if c == '>' {
        if i + 1 < n && chars[i + 1] == '=' {
            (ScanKind::Token(TokenType::GreaterEqual), i + 2)
        } else {
            (ScanKind::Token(TokenType::Greater), i + 1)
        }
    } else if c == '<' {
        if i + 1 < n && chars[i + 1] == '=' {
            (ScanKind::Token(TokenType::LessEqual), i + 2)
        } else {
            (ScanKind::Token(TokenType::Less), i + 1)
        }
    } else if c == '(' {
        (ScanKind::Token(TokenType::LeftParen), i + 1)
    } else if c == ')' {
        (ScanKind::Token(TokenType::RightParen), i + 1)
    } else if c == '{' {
        (ScanKind::Token(TokenType::LeftCurlyBrace), i + 1)
    } else if c == '}' {
        (ScanKind::Token(TokenType::RightCurlyBrace), i + 1)
    } else if c == '[' {
        (ScanKind::Token(TokenType::LeftBracket), i + 1)
    } else if c == ']' {
        (ScanKind::Token(TokenType::RightBracket), i + 1)
    } else if c == ',' {
        (ScanKind::Token(TokenType::Comma), i + 1)
    } else if c == '.' {
        (ScanKind::Token(TokenType::Dot), i + 1)
    } else if c == '-' {
        (ScanKind::Token(TokenType::Minus), i + 1)
    } else if c == '+' {
        (ScanKind::Token(TokenType::Plus), i + 1)
    } else if c == ';' {
        (ScanKind::Token(TokenType::Semicolon), i + 1)
    } else if c == '*' {
        (ScanKind::Token(TokenType::Star), i + 1)
    } else if c == '/' {
        (ScanKind::Token(TokenType::Slash), i + 1)
    } else if c == '\\' {
        (ScanKind::Token(TokenType::LambdaStart), i + 1)
    } else {
        (ScanKind::Unknown, i + 1)
    }
}


/// The literal value a token of one category carries: the quoted text with
/// its quotes stripped for string literals, the text itself for number
/// literals, nothing otherwise.
pub open spec fn literal_of(tt: TokenType, text: Seq<char>) -> Option<Seq<char>>
    recommends
        tt == TokenType::StringLiteral ==> text.len() >= 2,
{
    if tt == TokenType::StringLiteral {
        Some(text.subrange(1, text.len() - 1))
    } else if tt == TokenType::IntegerLiteral || tt == TokenType::FloatLiteral {
        Some(text)
    } else {
        None
    }
}

/// The mathematical shape of one token: its category, literal value, line,
/// column span relative to the start of its line, and source text.
pub ghost struct SpecToken {
    pub token_type: TokenType,
    pub literal_value: Option<Seq<char>>,
    pub line: int,
    pub col_start: int,
    pub col_end: int,
    pub text: Seq<char>,
}

/// The mathematical shape of a lexical error: the line, column span and text
/// of the offending input.
pub ghost struct SpecLexError {
    pub line: int,
    pub col_start: int,
    pub col_end: int,
    pub text: Seq<char>,
}

/// What a token means, for holding the tokenizer to its specification.
pub open spec fn token_abs(t: Token) -> SpecToken {
    SpecToken {
        token_type: t.token_type,
        literal_value: match t.literal_value {
            Some(v) => Some(v@),
            None => None,
        },
        line: t.id.line as int,
        col_start: t.id.span.0 as int,
        col_end: t.id.span.1 as int,
        text: t.id.value@,
    }
}

/// What a lexical error means.
pub open spec fn err_abs(e: LexerError) -> SpecLexError {
    SpecLexError {
        line: e.id.line as int,
        col_start: e.id.span.0 as int,
        col_end: e.id.span.1 as int,
        text: e.id.value@,
    }
}

/// The token produced for the lexeme at `[i, end)` of `s`, on line `line`
/// whose first character sits at offset `ls` of `s`.
pub open spec fn spec_token(
    s: Seq<char>,
    i: int,
    end: int,
    tt: TokenType,
    line: int,
    ls: int,
) -> SpecToken {
    SpecToken {
        token_type: tt,
        literal_value: literal_of(tt, s.subrange(i, end)),
        line: line,
        col_start: i - ls,
        col_end: end - ls,
        text: s.subrange(i, end),
    }
}

/// The tokenization of `s` from position `i`, on line `line` whose first
/// character sits at offset `ls`: the remaining tokens in order, or the
/// first lexical error. A line break advances the line counter and resets
/// the column origin; blanks and comments leave no token.
pub open spec fn lex_from(s: Seq<char>, i: int, line: int, ls: int) -> Result<
    Seq<SpecToken>,
    SpecLexError,
>
    decreases s.len() - i when 0 <= i <= s.len() via lex_from_decreases
{
    if i >= s.len() {
        Ok(Seq::empty())
    } else {
        let r = spec_scan(s, i);
        let end = r.1;
        match r.0 {
            ScanKind::Unknown => Err(
                SpecLexError {
                    line: line,
                    col_start: i - ls,
                    col_end: i + 1 - ls,
                    text: s.subrange(i, i + 1),
                },
            ),
            ScanKind::Newline => lex_from(s, end, line + 1, end),
            ScanKind::Skip => lex_from(s, end, line, ls),
            ScanKind::Token(tt) => match lex_from(s, end, line, ls) {
                Ok(rest) => Ok(seq![spec_token(s, i, end, tt, line, ls)] + rest),
                Err(e) => Err(e),
            },
        }
    }
}

#[via_fn]
proof fn lex_from_decreases(s: Seq<char>, i: int, line: int, ls: int) {
    if 0 <= i < s.len() {
        lemma_scan_bounds(s, i);
    }
}

/// The tokenizer's running state: the current zero-based line, the offset of
/// that line's first character in the input, and the filename every span is
/// stamped with.
pub struct LogosLexer {
    pub line: usize,
    pub line_span_start: usize,
    pub filename: String,
}

impl LogosLexer {
    /// A fresh state at the start of the named input.
    pub fn new(filename: &str) -> (l: LogosLexer)
        ensures
            l.line == 0,
            l.line_span_start == 0,
            l.filename@ == filename@,
    {
        LogosLexer { line: 0, line_span_start: 0, filename: filename.to_owned() }
    }

    /// The span identifier for the lexeme `value` at input offsets `span`:
    /// the line it sits on, its columns relative to that line's start, and
    /// its text.
    pub fn make_id(&self, value: &str, span: (usize, usize)) -> (id: SpanIdentifier)
        requires
            self.line_span_start <= span.0 <= span.1,
        ensures
            id.filename@ == self.filename@,
            id.line == self.line,
            id.span.0 == span.0 - self.line_span_start,
            id.span.1 == span.1 - self.line_span_start,
            id.value@ == value@,
    {
        let start = span.0 - self.line_span_start;
        let end = start + (span.1 - span.0);
        SpanIdentifier {
            filename: self.filename.clone(),
            line: self.line,
            span: (start, end),
            value: value.to_owned(),
        }
    }

    /// The token for the lexeme `value` of category `token_type` at input
    /// offsets `span`, carrying its literal value where the category has
    /// one: string literals are stored with their quotes stripped, number
    /// literals verbatim.
    pub fn make(&self, token_type: TokenType, value: &str, span: (usize, usize)) -> (t: Token)
        requires
            self.line_span_start <= span.0 <= span.1,
            token_type == TokenType::StringLiteral ==> value@.len() >= 2,
        ensures
            t.token_type == token_type,
            (match t.literal_value {
                Some(v) => Some(v@),
                None => None,
            }) == literal_of(token_type, value@),
            t.id.filename@ == self.filename@,
            t.id.line == self.line,
            t.id.span.0 == span.0 - self.line_span_start,
            t.id.span.1 == span.1 - self.line_span_start,
            t.id.value@ == value@,
    {
        let literal_value: Option<String> = match token_type {
            TokenType::StringLiteral => {
                let end = value.unicode_len() - 1;
                Some(value.substring_char(1, end).to_owned())
            },
            TokenType::IntegerLiteral => Some(value.to_owned()),
            TokenType::FloatLiteral => Some(value.to_owned()),
            _ => None,
        };
        Token { token_type, literal_value, id: self.make_id(value, span) }
    }

    /// Record a line break that ends at input offset `span.1`: the line
    /// counter advances and columns are measured from the new line's start.
    pub fn new_line(&mut self, span: (usize, usize))
        requires
            old(self).line < usize::MAX,
        ensures
            final(self).line == old(self).line + 1,
            final(self).line_span_start == span.1,
            final(self).filename == old(self).filename,
    {
        self.line = self.line + 1;
        self.line_span_start = span.1;
    }
}

fn chars_of(s: &str) -> (v: Vec<char>)
    ensures
        v@ == s@,
{
    let n = s.unicode_len();
    let mut v: Vec<char> = Vec::new();
    let mut i: usize = 0;
    while i < n
        invariant
            i <= n,
            n == s@.len(),
            v@ == s@.subrange(0, i as int),
        decreases n - i,
    {
        v.push(s.get_char(i));
        proof {
            assert(v@ =~= s@.subrange(0, i + 1));
        }
        i += 1;
    }
    proof {
        assert(v@ =~= s@);
    }
    v
}

/// Tokenize `content`, stamping every span with `filename`: the full token
/// sequence that `lex_from` specifies for the whole input, or its first
/// lexical error.
pub fn lex(filename: &str, content: &str) -> (r: Result<Vec<Token>, LexerError>)
    ensures
        match r {
            Ok(tokens) => lex_from(content@, 0, 0, 0) == Ok::<Seq<SpecToken>, SpecLexError>(
                tokens@.map_values(|t: Token| token_abs(t)),
            ) && (forall|k: int|
                0 <= k < tokens@.len() ==> (#[trigger] tokens@[k]).id.filename@ == filename@),
            Err(e) => lex_from(content@, 0, 0, 0) == Err::<Seq<SpecToken>, SpecLexError>(
                err_abs(e),
            ) && e.id.filename@ == filename@ && e.message@ == "Unknown input"@,
        },
{
    let chars = chars_of(content);
    let mut tokens: Vec<Token> = Vec::new();
    let mut ll = LogosLexer::new(filename);
    let mut i: usize = 0;
    while i < chars.len()
        invariant
            chars@ == content@,
            i <= chars@.len(),
            ll.filename@ == filename@,
            ll.line_span_start <= i,
            ll.line <= i,
            forall|k: int|
                0 <= k < tokens@.len() ==> (#[trigger] tokens@[k]).id.filename@ == filename@,
            lex_from(content@, 0, 0, 0) == (match lex_from(
                content@,
                i as int,
                ll.line as int,
                ll.line_span_start as int,
            ) {
                Ok(rest) => Ok::<Seq<SpecToken>, SpecLexError>(
                    tokens@.map_values(|t: Token| token_abs(t)) + rest,
                ),
                Err(e) => Err::<Seq<SpecToken>, SpecLexError>(e),
            }),
        decreases chars@.len() - i,
    {
        let (kind, end) = scan_token(&chars, i);
        let ghost line0 = ll.line as int;
        let ghost ls0 = ll.line_span_start as int;
        let ghost toks0 = tokens@;
        match kind {
            ScanKind::Newline => {
                ll.new_line((i, end));
            },
            ScanKind::Skip => {},
            ScanKind::Unknown => {
                let slice = content.substring_char(i, i + 1);
                let err = LexerError {
                    id: ll.make_id(slice, (i, i + 1)),
                    message: "Unknown input".to_owned(),
                };
                proof {
                    assert(lex_from(content@, i as int, line0, ls0) == Err::<
                        Seq<SpecToken>,
                        SpecLexError,
                    >(err_abs(err)));
                }
                return Err(err);
            },
            ScanKind::Token(tt) => {
                let slice = content.substring_char(i, end);
                let t = ll.make(tt, slice, (i, end));
                tokens.push(t);
                proof {
                    let f = |t: Token| token_abs(t);
                    assert(token_abs(t) == spec_token(
                        content@,
                        i as int,
                        end as int,
                        tt,
                        line0,
                        ls0,
                    ));
                    assert(tokens@.map_values(f) =~= toks0.map_values(f).push(token_abs(t)));
                    if lex_from(content@, end as int, line0, ls0) is Ok {
                        let rest = lex_from(content@, end as int, line0, ls0)->Ok_0;
                        assert(toks0.map_values(f) + (seq![
                            spec_token(content@, i as int, end as int, tt, line0, ls0),
                        ] + rest) =~= tokens@.map_values(f) + rest);
                    }
                }
            },
        }
        i = end;
    }
    proof {
        assert(lex_from(content@, i as int, ll.line as int, ll.line_span_start as int) == Ok::<
            Seq<SpecToken>,
            SpecLexError,
        >(Seq::empty()));
        assert(tokens@.map_values(|t: Token| token_abs(t)) + Seq::<SpecToken>::empty()
            =~= tokens@.map_values(|t: Token| token_abs(t)));
    }
    Ok(tokens)
}

} // verus!
