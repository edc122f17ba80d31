//! Lexical scanning: source text to an ordered token sequence that ends in
//! exactly one end-of-input token.
use vstd::prelude::*;

use crate::text::{decimal, decimal_text};

verus! {

#[derive(Debug, Copy, Clone, PartialEq, Eq, Structural)]
pub enum TokenType {
    // Single-character tokens
    LeftParen,
    RightParen,
    LeftBrace,
    RightBrace,
    Comma,
    Dot,
    Minus,
    Plus,
    Semicolon,
    Slash,
    Star,
    // One or two character tokens
    Bang,
    BangEqual,
    Equal,
    EqualEqual,
    Greater,
    GreaterEqual,
    Less,
    LessEqual,
    // Literals
    NumberLiteral,
    StringLiteral,
    Identifier,
    // Keywords
    And,
    Class,
    Else,
    False,
    For,
    Fun,
    If,
    Nil,
    Or,
    Print,
    Return,
    Super,
    This,
    True,
    Var,
    While,
    EoF,
    UnexpectedCharacterError,
    UnterminatedStringError,
}

pub open spec fn error_text(t: TokenType) -> Option<Seq<char>> {
    match t {
        TokenType::UnexpectedCharacterError => Some("Unexpected character."@),
        TokenType::UnterminatedStringError => Some("Unterminated string."@),
        _ => None,
    }
}

/// `[line N] Error W M`: the report line of a lexical error.
pub open spec fn report_text(line: nat, place: Seq<char>, message: Seq<char>) -> Seq<char> {
    "[line "@ + decimal(line) + "] Error "@ + place + " "@ + message
}

impl TokenType {
    /// The message of an error kind; `None` for every other kind.
    pub fn error_message(t: TokenType) -> (r: Option<&'static str>)
        ensures
            r matches Some(m) ==> error_text(t) == Some(m@),
            r is None <==> error_text(t) is None,
    {
        match t {
            TokenType::UnexpectedCharacterError => Some("Unexpected character."),
            TokenType::UnterminatedStringError => Some("Unterminated string."),
            _ => None,
        }
    }

    /// The report line for a diagnostic at `line`.
    pub fn report(line: u32, place: String, message: &str) -> (r: String)
        ensures
            r@ == report_text(line as nat, place@, message@),
    {
        let mut s = String::from_str("[line ");
        let n = decimal_text(line);
        s.append(n.as_str());
        s.append("] Error ");
        s.append(place.as_str());
        s.append(" ");
        s.append(message);
        s
    }

    /// The report line of an error kind, with no place; `None` for other kinds.
    pub fn error(t: TokenType, line: u32) -> (r: Option<String>)
        ensures
            r is None <==> error_text(t) is None,
            r matches Some(s) ==> s@ == report_text(line as nat, seq![], error_text(t)->Some_0),
    {
        let error_message = TokenType::error_message(t);
        match error_message {
            Some(m) => Some(TokenType::report(line, String::new(), m)),
            None => None,
        }
    }
}

#[derive(Clone, Debug)]
pub struct Token {
    pub token_type: TokenType,
    pub lexeme: String,
    pub line: u32,
}

impl View for Token {
    type V = (TokenType, Seq<char>, int);

    open spec fn view(&self) -> (TokenType, Seq<char>, int) {
        (self.token_type, self.lexeme@, self.line as int)
    }
}

impl Token {
    pub fn new(token_type: TokenType, lexeme: String, line: u32) -> (r: Self)
        ensures
            r.token_type == token_type,
            r.lexeme == lexeme,
            r.line == line,
    {
        Self { token_type, lexeme, line }
    }

    /// An equal copy of the token.
    pub fn duplicate(&self) -> (r: Self)
        ensures
            r == *self,
    {
        Token { token_type: self.token_type, lexeme: self.lexeme.clone(), line: self.line }
    }
}

pub open spec fn is_digit_char(c: char) -> bool {
    '0' <= c && c <= '9'
}

pub open spec fn is_alpha_char(c: char) -> bool {
    ('A' <= c && c <= 'Z') || ('a' <= c && c <= 'z') || c == '_'
}

pub open spec fn is_word_char(c: char) -> bool {
    is_alpha_char(c) || is_digit_char(c)
}

pub open spec fn is_space_char(c: char) -> bool {
    c == ' ' || c == '\r' || c == '\t' || c == '\n'
}

/// The kind of a scanned word: its keyword, or `Identifier`.
pub open spec fn keyword_kind(w: Seq<char>) -> TokenType {
    if w == seq!['a', 'n', 'd'] {
        TokenType::And
    } else if w == seq!['c', 'l', 'a', 's', 's'] {
        TokenType::Class
    } else if w == seq!['e', 'l', 's', 'e'] {
        TokenType::Else
    } else if w == seq!['f', 'a', 'l', 's', 'e'] {
        TokenType::False
    } else if w == seq!['f', 'o', 'r'] {
        TokenType::For
    } else if w == seq!['f', 'u', 'n'] {
        TokenType::Fun
    } else if w == seq!['i', 'f'] {
        TokenType::If
    } else if w == seq!['n', 'i', 'l'] {
        TokenType::Nil
    } else if w == seq!['o', 'r'] {
        TokenType::Or
    } else if w == seq!['p', 'r', 'i', 'n', 't'] {
        TokenType::Print
    } else if w == seq!['r', 'e', 't', 'u', 'r', 'n'] {
        TokenType::Return
    } else if w == seq!['s', 'u', 'p', 'e', 'r'] {
        TokenType::Super
    } else if w == seq!['t', 'h', 'i', 's'] {
        TokenType::This
    } else if w == seq!['t', 'r', 'u', 'e'] {
        TokenType::True
    } else if w == seq!['v', 'a', 'r'] {
        TokenType::Var
    } else if w == seq!['w', 'h', 'i', 'l', 'e'] {
        TokenType::While
    } else {
        TokenType::Identifier
    }
}

/// The kind of a token that starts with the punctuation character `c`;
/// `eq_next` tells whether `=` follows it.
pub open spec fn symbol_kind(c: char, eq_next: bool) -> TokenType {
    match c {
        '(' => TokenType::LeftParen,
        ')' => TokenType::RightParen,
        '{' => TokenType::LeftBrace,
        '}' => TokenType::RightBrace,
        ',' => TokenType::Comma,
        '.' => TokenType::Dot,
        '-' => TokenType::Minus,
        '+' => TokenType::Plus,
        ';' => TokenType::Semicolon,
        '/' => TokenType::Slash,
        '*' => TokenType::Star,
        '!' => if eq_next { TokenType::BangEqual } else { TokenType::Bang },
        '=' => if eq_next { TokenType::EqualEqual } else { TokenType::Equal },
        '<' => if eq_next { TokenType::LessEqual } else { TokenType::Less },
        '>' => if eq_next { TokenType::GreaterEqual } else { TokenType::Greater },
        _ => TokenType::UnexpectedCharacterError,
    }
}

pub open spec fn is_two_char_start(c: char) -> bool {
    c == '!' || c == '=' || c == '<' || c == '>'
}

/// Number of newline characters in `s`.
pub open spec fn newlines(s: Seq<char>) -> int
    decreases s.len(),
{
    if s.len() == 0 {
        0
    } else {
        newlines(s.drop_last()) + if s.last() == '\n' { 1int } else { 0int }
    }
}

/// The 1-based line on which position `i` of `src` lies.
pub open spec fn line_at(src: Seq<char>, i: int) -> int {
    1 + newlines(src.subrange(0, i))
}

/// First position at or after `i` holding a newline, or the end.
pub open spec fn line_end(src: Seq<char>, i: int) -> int
    decreases src.len() - i,
{
    if 0 <= i < src.len() && src[i] != '\n' {
        line_end(src, i + 1)
    } else {
        i
    }
}

/// First position at or after `i` that does not continue a word.
pub open spec fn word_end(src: Seq<char>, i: int) -> int
    decreases src.len() - i,
{
    if 0 <= i < src.len() && is_word_char(src[i]) {
        word_end(src, i + 1)
    } else {
        i
    }
}

/// First position at or after `i` that is not a digit.
pub open spec fn digits_end(src: Seq<char>, i: int) -> int
    decreases src.len() - i,
{
    if 0 <= i < src.len() && is_digit_char(src[i]) {
        digits_end(src, i + 1)
    } else {
        i
    }
}

/// First position at or after `i` holding a double quote, or the end.
pub open spec fn quote_end(src: Seq<char>, i: int) -> int
    decreases src.len() - i,
{
    if 0 <= i < src.len() && src[i] != '"' {
        quote_end(src, i + 1)
    } else {
        i
    }
}

/// End of a number literal whose digits continue at `i`: the integer part,
/// then a fraction only where a digit follows the dot.
pub open spec fn number_end(src: Seq<char>, i: int) -> int {
    let d = digits_end(src, i);
    if d + 1 < src.len() && src[d] == '.' && is_digit_char(src[d + 1]) {
        digits_end(src, d + 1)
    } else {
        d
    }
}

pub proof fn lemma_line_end_bounds(src: Seq<char>, i: int)
    requires
        0 <= i <= src.len(),
    ensures
        i <= line_end(src, i) <= src.len(),
    decreases src.len() - i,
{
    if i < src.len() && src[i] != '\n' {
        lemma_line_end_bounds(src, i + 1);
    }
}

/// Position of the first character at or after `i` that is neither
/// whitespace nor part of a `//` comment.
pub open spec fn skip_end(src: Seq<char>, i: int) -> int
    decreases src.len() - i,
    via skip_end_decreases
{
    if 0 <= i < src.len() {
        if is_space_char(src[i]) {
            skip_end(src, i + 1)
        } else if src[i] == '/' && i + 1 < src.len() && src[i + 1] == '/' {
            skip_end(src, line_end(src, i + 2))
        } else {
            i
        }
    } else {
        i
    }
}

#[via_fn]
proof fn skip_end_decreases(src: Seq<char>, i: int) {
    if 0 <= i < src.len() && !is_space_char(src[i]) && src[i] == '/' && i + 1 < src.len() {
        lemma_line_end_bounds(src, i + 2);
    }
}

/// End of the lexical unit that starts at `s`.
pub open spec fn unit_end(src: Seq<char>, s: int) -> int {
    let c = src[s];
    if is_alpha_char(c) {
        word_end(src, s + 1)
    } else if is_digit_char(c) {
        number_end(src, s + 1)
    } else if c == '"' {
        let q = quote_end(src, s + 1);
        if q < src.len() {
            q + 1
        } else {
            q
        }
    } else if is_two_char_start(c) && s + 1 < src.len() && src[s + 1] == '=' {
        s + 2
    } else {
        s + 1
    }
}

/// Kind of the lexical unit that starts at `s`.
pub open spec fn unit_kind(src: Seq<char>, s: int) -> TokenType {
    let c = src[s];
    if is_alpha_char(c) {
        keyword_kind(src.subrange(s, word_end(src, s + 1)))
    } else if is_digit_char(c) {
        TokenType::NumberLiteral
    } else if c == '"' {
        if quote_end(src, s + 1) < src.len() {
            TokenType::StringLiteral
        } else {
            TokenType::UnterminatedStringError
        }
    } else {
        symbol_kind(c, s + 1 < src.len() && src[s + 1] == '=')
    }
}

/// The tokens scanned from position `pos` of `src` on, each as
/// (kind, lexeme, line); the last one, and only it, is the end of input.
pub open spec fn tokens_from(src: Seq<char>, pos: int) -> Seq<(TokenType, Seq<char>, int)>
    decreases src.len() - pos,
    via tokens_from_decreases
{
    let s = skip_end(src, pos);
    if 0 <= pos <= src.len() && s < src.len() {
        let e = unit_end(src, s);
        seq![(unit_kind(src, s), src.subrange(s, e), line_at(src, e))] + tokens_from(src, e)
    } else {
        seq![(TokenType::EoF, Seq::<char>::empty(), line_at(src, s))]
    }
}

#[via_fn]
proof fn tokens_from_decreases(src: Seq<char>, pos: int) {
    if 0 <= pos <= src.len() {
        lemma_skip_end_bounds(src, pos);
        let s = skip_end(src, pos);
        if s < src.len() {
            lemma_unit_end_bounds(src, s);
        }
    }
}

pub proof fn lemma_unit_kind_not_end(src: Seq<char>, s: int)
    requires
        0 <= s < src.len(),
    ensures
        unit_kind(src, s) != TokenType::EoF,
{
}

/// The token sequence is never empty and ends in the end-of-input token.
pub proof fn lemma_tokens_end(src: Seq<char>, pos: int)
    requires
        0 <= pos <= src.len(),
    ensures
        tokens_from(src, pos).len() > 0,
        tokens_from(src, pos).last().0 == TokenType::EoF,
    decreases src.len() - pos,
{
    lemma_skip_end_bounds(src, pos);
    let s = skip_end(src, pos);
    if s < src.len() {
        lemma_unit_end_bounds(src, s);
        lemma_tokens_end(src, unit_end(src, s));
    }
}

proof fn lemma_no_quote_runs_to_end(src: Seq<char>, i: int)
    requires
        0 <= i <= src.len(),
        forall|j: int| i <= j < src.len() ==> src[j] != '"',
    ensures
        quote_end(src, i) == src.len(),
    decreases src.len() - i,
{
    if i < src.len() {
        lemma_no_quote_runs_to_end(src, i + 1);
    }
}

/// A string literal that the input ends inside scans as one
/// unterminated-string token holding the rest of the input, then the end of
/// input: the scan stops.
pub proof fn lemma_unterminated_string(src: Seq<char>)
    requires
        src.len() > 0,
        src[0] == '"',
        forall|j: int| 1 <= j < src.len() ==> src[j] != '"',
    ensures
        scan_spec(src) == seq![
            (TokenType::UnterminatedStringError, src, line_at(src, src.len() as int)),
            (TokenType::EoF, Seq::<char>::empty(), line_at(src, src.len() as int)),
        ],
{
    lemma_no_quote_runs_to_end(src, 1);
    assert(skip_end(src, 0) == 0);
    assert(unit_end(src, 0) == src.len());
    assert(src.subrange(0, src.len() as int) =~= src);
    assert(skip_end(src, src.len() as int) == src.len());
    assert(tokens_from(src, src.len() as int) == seq![
        (TokenType::EoF, Seq::<char>::empty(), line_at(src, src.len() as int)),
    ]);
    assert(scan_spec(src) =~= seq![
        (TokenType::UnterminatedStringError, src, line_at(src, src.len() as int)),
        (TokenType::EoF, Seq::<char>::empty(), line_at(src, src.len() as int)),
    ]);
}

/// The whole token sequence of a source text.
pub open spec fn scan_spec(src: Seq<char>) -> Seq<(TokenType, Seq<char>, int)> {
    tokens_from(src, 0)
}

pub proof fn lemma_word_end_bounds(src: Seq<char>, i: int)
    requires
        0 <= i <= src.len(),
    ensures
        i <= word_end(src, i) <= src.len(),
    decreases src.len() - i,
{
    if i < src.len() && is_word_char(src[i]) {
        lemma_word_end_bounds(src, i + 1);
    }
}

pub proof fn lemma_digits_end_bounds(src: Seq<char>, i: int)
    requires
        0 <= i <= src.len(),
    ensures
        i <= digits_end(src, i) <= src.len(),
    decreases src.len() - i,
{
    if i < src.len() && is_digit_char(src[i]) {
        lemma_digits_end_bounds(src, i + 1);
    }
}

pub proof fn lemma_quote_end_bounds(src: Seq<char>, i: int)
    requires
        0 <= i <= src.len(),
    ensures
        i <= quote_end(src, i) <= src.len(),
    decreases src.len() - i,
{
    if i < src.len() && src[i] != '"' {
        lemma_quote_end_bounds(src, i + 1);
    }
}

pub proof fn lemma_skip_end_bounds(src: Seq<char>, i: int)
    requires
        0 <= i <= src.len(),
    ensures
        i <= skip_end(src, i) <= src.len(),
    decreases src.len() - i,
{
    if i < src.len() {
        if is_space_char(src[i]) {
            lemma_skip_end_bounds(src, i + 1);
        } else if src[i] == '/' && i + 1 < src.len() && src[i + 1] == '/' {
            lemma_line_end_bounds(src, i + 2);
            lemma_skip_end_bounds(src, line_end(src, i + 2));
        }
    }
}

pub proof fn lemma_unit_end_bounds(src: Seq<char>, s: int)
    requires
        0 <= s < src.len(),
    ensures
        s < unit_end(src, s) <= src.len(),
{
    lemma_word_end_bounds(src, s + 1);
    lemma_digits_end_bounds(src, s + 1);
    let d = digits_end(src, s + 1);
    if d + 1 < src.len() {
        lemma_digits_end_bounds(src, d + 1);
    }
    lemma_quote_end_bounds(src, s + 1);
}

pub proof fn lemma_line_at_step(src: Seq<char>, i: int)
    requires
        0 <= i < src.len(),
    ensures
        line_at(src, i + 1) == line_at(src, i) + if src[i] == '\n' { 1int } else { 0int },
{
    assert(src.subrange(0, i + 1).drop_last() =~= src.subrange(0, i));
}

pub proof fn lemma_newlines_bound(s: Seq<char>)
    ensures
        0 <= newlines(s) <= s.len(),
    decreases s.len(),
{
    if s.len() > 0 {
        lemma_newlines_bound(s.drop_last());
    }
}

pub fn is_digit(c: Option<char>) -> (r: bool)
    ensures
        r == (c matches Some(ch) && is_digit_char(ch)),
{
    match c {
        Some(ch) => '0' <= ch && ch <= '9',
        None => false,
    }
}

pub fn is_ident(c: Option<char>) -> (r: bool)
    ensures
        r == (c matches Some(ch) && is_alpha_char(ch)),
{
    match c {
        Some(ch) => ('A' <= ch && ch <= 'Z') || ('a' <= ch && ch <= 'z') || ch == '_',
        None => false,
    }
}

/// `tt` where `word` is `kw`, else `Identifier`.
fn check_keyword(word: &[char], kw: &[char], tt: TokenType) -> (r: TokenType)
    ensures
        r == if word@ == kw@ {
            tt
        } else {
            TokenType::Identifier
        },
{
    if word.len() != kw.len() {
        return TokenType::Identifier;
    }
    let mut i: usize = 0;
    while i < word.len()
        invariant
            i <= word@.len(),
            word@.len() == kw@.len(),
            forall|j: int| 0 <= j < i ==> word@[j] == kw@[j],
        decreases word@.len() - i,
    {
        if word[i] != kw[i] {
            return TokenType::Identifier;
        }
        i = i + 1;
    }
    assert(word@ =~= kw@);
    tt
}

/// How the first one or two characters of a word decide which keyword it can be.
proof fn lemma_keyword_dispatch(w: Seq<char>)
    requires
        w.len() >= 1,
    ensures
        w[0] == 'a' ==> keyword_kind(w) == if w == seq!['a', 'n', 'd'] { TokenType::And } else { TokenType::Identifier },
        w[0] == 'c' ==> keyword_kind(w) == if w == seq!['c', 'l', 'a', 's', 's'] { TokenType::Class } else { TokenType::Identifier },
        w[0] == 'e' ==> keyword_kind(w) == if w == seq!['e', 'l', 's', 'e'] { TokenType::Else } else { TokenType::Identifier },
        w[0] == 'i' ==> keyword_kind(w) == if w == seq!['i', 'f'] { TokenType::If } else { TokenType::Identifier },
        w[0] == 'n' ==> keyword_kind(w) == if w == seq!['n', 'i', 'l'] { TokenType::Nil } else { TokenType::Identifier },
        w[0] == 'o' ==> keyword_kind(w) == if w == seq!['o', 'r'] { TokenType::Or } else { TokenType::Identifier },
        w[0] == 'p' ==> keyword_kind(w) == if w == seq!['p', 'r', 'i', 'n', 't'] { TokenType::Print } else { TokenType::Identifier },
        w[0] == 'r' ==> keyword_kind(w) == if w == seq!['r', 'e', 't', 'u', 'r', 'n'] { TokenType::Return } else { TokenType::Identifier },
        w[0] == 's' ==> keyword_kind(w) == if w == seq!['s', 'u', 'p', 'e', 'r'] { TokenType::Super } else { TokenType::Identifier },
        w[0] == 'v' ==> keyword_kind(w) == if w == seq!['v', 'a', 'r'] { TokenType::Var } else { TokenType::Identifier },
        w[0] == 'w' ==> keyword_kind(w) == if w == seq!['w', 'h', 'i', 'l', 'e'] { TokenType::While } else { TokenType::Identifier },
        w[0] == 'f' && w.len() < 2 ==> keyword_kind(w) == TokenType::Identifier,
        w[0] == 't' && w.len() < 2 ==> keyword_kind(w) == TokenType::Identifier,
        w[0] == 'f' && w.len() >= 2 && w[1] == 'a' ==> keyword_kind(w) == if w == seq!['f', 'a', 'l', 's', 'e'] { TokenType::False } else { TokenType::Identifier },
        w[0] == 'f' && w.len() >= 2 && w[1] == 'o' ==> keyword_kind(w) == if w == seq!['f', 'o', 'r'] { TokenType::For } else { TokenType::Identifier },
        w[0] == 'f' && w.len() >= 2 && w[1] == 'u' ==> keyword_kind(w) == if w == seq!['f', 'u', 'n'] { TokenType::Fun } else { TokenType::Identifier },
        w[0] == 'f' && w.len() >= 2 && w[1] != 'a' && w[1] != 'o' && w[1] != 'u' ==> keyword_kind(w) == TokenType::Identifier,
        w[0] == 't' && w.len() >= 2 && w[1] == 'h' ==> keyword_kind(w) == if w == seq!['t', 'h', 'i', 's'] { TokenType::This } else { TokenType::Identifier },
        w[0] == 't' && w.len() >= 2 && w[1] == 'r' ==> keyword_kind(w) == if w == seq!['t', 'r', 'u', 'e'] { TokenType::True } else { TokenType::Identifier },
        w[0] == 't' && w.len() >= 2 && w[1] != 'h' && w[1] != 'r' ==> keyword_kind(w) == TokenType::Identifier,
        !(w[0] == 'a' || w[0] == 'c' || w[0] == 'e' || w[0] == 'f' || w[0] == 'i' || w[0] == 'n' || w[0] == 'o' || w[0] == 'p' || w[0] == 'r' || w[0] == 's' || w[0] == 't' || w[0] == 'v' || w[0] == 'w') ==> keyword_kind(w) == TokenType::Identifier,
{
}

pub struct Scanner {
    text: String,
    chars: Vec<char>,
    token_start: usize,
    current: usize,
    line: u32,
}

impl Scanner {
    /// The characters being scanned.
    pub closed spec fn source(&self) -> Seq<char> {
        self.chars@
    }

    /// Position of the next character to scan.
    pub closed spec fn position(&self) -> int {
        self.current as int
    }

    pub closed spec fn wf(&self) -> bool {
        &&& self.chars@ == self.text@
        &&& self.token_start <= self.current <= self.chars@.len()
        &&& self.chars@.len() < u32::MAX
        &&& self.line as int == line_at(self.chars@, self.current as int)
    }

    pub fn new(source: &str) -> (r: Self)
        requires
            source@.len() < u32::MAX,
        ensures
            r.wf(),
            r.source() == source@,
            r.position() == 0,
    {
        let n = source.unicode_len();
        let mut chars: Vec<char> = Vec::new();
        let mut i: usize = 0;
        while i < n
            invariant
                n == source@.len(),
                i <= n,
                chars@ == source@.subrange(0, i as int),
            decreases n - i,
        {
            chars.push(source.get_char(i));
            i = i + 1;
            assert(chars@ =~= source@.subrange(0, i as int));
        }
        assert(chars@ =~= source@);
        assert(source@.subrange(0, 0) =~= Seq::<char>::empty());
        Self { text: String::from_str(source), chars, token_start: 0, current: 0, line: 1 }
    }

    fn peek(&self) -> (r: Option<char>)
        requires
            self.wf(),
        ensures
            self.current < self.chars@.len() ==> r == Some(self.chars@[self.current as int]),
            self.current >= self.chars@.len() ==> r is None,
    {
        if self.current < self.chars.len() {
            Some(self.chars[self.current])
        } else {
            None
        }
    }

    fn advance(&mut self) -> (r: Option<char>)
        requires
            old(self).wf(),
        ensures
            final(self).wf(),
            final(self).chars == old(self).chars,
            final(self).token_start == old(self).token_start,
            old(self).current < old(self).chars@.len() ==> r == Some(
                old(self).chars@[old(self).current as int],
            ) && final(self).current == old(self).current + 1,
            old(self).current >= old(self).chars@.len() ==> r is None && final(self).current
                == old(self).current,
    {
        if self.current < self.chars.len() {
            let c = self.chars[self.current];
            proof {
                lemma_line_at_step(self.chars@, self.current as int);
                lemma_newlines_bound(self.chars@.subrange(0, self.current as int + 1));
            }
            self.current = self.current + 1;
            if c == '\n' {
                self.line = self.line + 1;
            }
            Some(c)
        } else {
            None
        }
    }

    fn maybe_match(&mut self, expected: char) -> (r: bool)
        requires
            old(self).wf(),
        ensures
            final(self).wf(),
            final(self).chars == old(self).chars,
            final(self).token_start == old(self).token_start,
            r == (old(self).current < old(self).chars@.len() && old(self).chars@[old(
                self,
            ).current as int] == expected),
            final(self).current == old(self).current + if r { 1int } else { 0int },
    {
        match self.peek() {
            None => false,
            Some(c) => {
                if c != expected {
                    return false;
                }
                let _ = self.advance();
                true
            },
        }
    }

    fn maybe_match_str(&mut self, expected: &str) -> (r: bool)
        requires
            old(self).wf(),
        ensures
            final(self).wf(),
            final(self).chars == old(self).chars,
            final(self).token_start == old(self).token_start,
            r == (old(self).current < old(self).chars@.len() && old(self).current
                + expected@.len() <= old(self).chars@.len() && old(self).chars@.subrange(
                old(self).current as int,
                old(self).current + expected@.len(),
            ) == expected@),
            final(self).current == old(self).current + if r { expected@.len() as int } else { 0int },
    {
        let strlen = expected.unicode_len();
        if self.current >= self.chars.len() {
            return false;
        }
        if strlen > self.chars.len() - self.current {
            return false;
        }
        let start = self.current;
        let mut i: usize = 0;
        while i < strlen
            invariant
                strlen == expected@.len(),
                start + strlen <= self.chars@.len(),
                start == old(self).current,
                self.wf(),
                self.chars == old(self).chars,
                self.current == old(self).current,
                self.token_start == old(self).token_start,
                self.line == old(self).line,
                self.text == old(self).text,
                i <= strlen,
                forall|j: int| 0 <= j < i ==> self.chars@[start + j] == expected@[j],
            decreases strlen - i,
        {
            if self.chars[start + i] != expected.get_char(i) {
                proof {
                    assert(self.chars@.subrange(start as int, start + strlen)[i as int]
                        != expected@[i as int]);
                }
                return false;
            }
            i = i + 1;
        }
        assert(self.chars@.subrange(start as int, start + strlen) =~= expected@);
        let mut k: usize = 0;
        while k < strlen
            invariant
                self.wf(),
                self.chars == old(self).chars,
                self.token_start == old(self).token_start,
                start == old(self).current,
                start + strlen <= self.chars@.len(),
                k <= strlen,
                self.current == start + k,
            decreases strlen - k,
        {
            self.advance();
            k = k + 1;
        }
        true
    }

    fn current(&self) -> (r: usize)
        ensures
            r == self.current,
    {
        self.current
    }

    fn skip_whitespace(&mut self)
        requires
            old(self).wf(),
        ensures
            final(self).wf(),
            final(self).chars == old(self).chars,
            final(self).token_start == old(self).token_start,
            final(self).current == skip_end(old(self).chars@, old(self).current as int),
    {
        let ghost src = self.chars@;
        loop
            invariant
                self.wf(),
                self.chars == old(self).chars,
                src == self.chars@,
                self.token_start == old(self).token_start,
                old(self).current <= self.current,
                skip_end(src, self.current as int) == skip_end(src, old(self).current as int),
            decreases src.len() - self.current,
        {
            match self.peek() {
                Some(c) => {
                    if c == ' ' || c == '\r' || c == '\t' || c == '\n' {
                        self.advance();
                    } else if c == '/' {
                        let comment_start = self.current;
                        proof {
                            reveal_strlit("//");
                        }
                        if self.maybe_match_str("//") {
                            proof {
                                assert(src.subrange(comment_start as int, comment_start + 2)[1]
                                    == '/');
                                assert(src[comment_start + 1] == '/');
                                assert(skip_end(src, comment_start as int) == skip_end(
                                    src,
                                    line_end(src, comment_start + 2),
                                ));
                            }
                            while self.current < self.chars.len() && self.chars[self.current]
                                != '\n'
                                invariant
                                    self.wf(),
                                    self.chars == old(self).chars,
                                    src == self.chars@,
                                    self.token_start == old(self).token_start,
                                    comment_start + 2 <= self.current,
                                    line_end(src, self.current as int) == line_end(
                                        src,
                                        comment_start + 2,
                                    ),
                                decreases src.len() - self.current,
                            {
                                self.advance();
                            }
                        } else {
                            proof {
                                if comment_start + 1 < src.len() && src[comment_start + 1] == '/' {
                                    assert(src.subrange(comment_start as int, comment_start + 2)
                                        =~= "//"@);
                                }
                            }
                            return;
                        }
                    } else {
                        return;
                    }
                },
                None => return,
            }
        }
    }

    /// The source text of the token being scanned.
    fn content(&self) -> (r: String)
        requires
            self.wf(),
        ensures
            r@ == self.chars@.subrange(self.token_start as int, self.current as int),
    {
        let s = self.text.as_str().substring_char(self.token_start, self.current);
        String::from_str(s)
    }

    fn make_token(&self, token_type: TokenType) -> (r: Token)
        requires
            self.wf(),
        ensures
            r@ == (
                token_type,
                self.chars@.subrange(self.token_start as int, self.current as int),
                line_at(self.chars@, self.current as int),
            ),
    {
        Token::new(token_type, self.content(), self.line)
    }


    fn string_literal(&mut self) -> (r: Token)
        requires
            old(self).wf(),
            old(self).current == old(self).token_start + 1,
        ensures
            final(self).wf(),
            final(self).chars == old(self).chars,
            final(self).token_start == old(self).token_start,
            final(self).current == ({
                let q = quote_end(old(self).chars@, old(self).current as int);
                if q < old(self).chars@.len() {
                    q + 1
                } else {
                    q
                }
            }),
            r@ == (
                if quote_end(old(self).chars@, old(self).current as int) < old(self).chars@.len() {
                    TokenType::StringLiteral
                } else {
                    TokenType::UnterminatedStringError
                },
                final(self).chars@.subrange(
                    final(self).token_start as int,
                    final(self).current as int,
                ),
                line_at(final(self).chars@, final(self).current as int),
            ),
    {
        let ghost src = self.chars@;
        let ghost q = quote_end(src, self.current as int);
        loop
            invariant
                self.wf(),
                self.chars == old(self).chars,
                src == self.chars@,
                self.token_start == old(self).token_start,
                old(self).current <= self.current,
                quote_end(src, self.current as int) == q,
                q == quote_end(src, old(self).current as int),
                src == old(self).chars@,
            decreases src.len() - self.current,
        {
            match self.peek() {
                Some(c) => {
                    if c == '"' {
                        assert(quote_end(src, self.current as int) == self.current);
                        self.advance();
                        return self.make_token(TokenType::StringLiteral);
                    }
                    self.advance();
                },
                None => return self.make_token(TokenType::UnterminatedStringError),
            }
        }
    }

    fn consume_integers(&mut self)
        requires
            old(self).wf(),
        ensures
            final(self).wf(),
            final(self).chars == old(self).chars,
            final(self).token_start == old(self).token_start,
            final(self).current == digits_end(old(self).chars@, old(self).current as int),
    {
        while is_digit(self.peek())
            invariant
                self.wf(),
                self.chars == old(self).chars,
                self.token_start == old(self).token_start,
                old(self).current <= self.current,
                digits_end(self.chars@, self.current as int) == digits_end(
                    self.chars@,
                    old(self).current as int,
                ),
            decreases self.chars@.len() - self.current,
        {
            self.advance();
        }
    }

    fn number_literal(&mut self) -> (r: Token)
        requires
            old(self).wf(),
        ensures
            final(self).wf(),
            final(self).chars == old(self).chars,
            final(self).token_start == old(self).token_start,
            final(self).current == number_end(old(self).chars@, old(self).current as int),
            r@ == (
                TokenType::NumberLiteral,
                final(self).chars@.subrange(
                    final(self).token_start as int,
                    final(self).current as int,
                ),
                line_at(final(self).chars@, final(self).current as int),
            ),
    {
        self.consume_integers();
        let d = self.current;
        if d < self.chars.len() && self.chars[d] == '.' && d + 1 < self.chars.len() && '0'
            <= self.chars[d + 1] && self.chars[d + 1] <= '9' {
            self.advance();
            self.consume_integers();
        }
        self.make_token(TokenType::NumberLiteral)
    }

    fn identifier(&mut self) -> (r: Token)
        requires
            old(self).wf(),
        ensures
            final(self).wf(),
            final(self).chars == old(self).chars,
            final(self).token_start == old(self).token_start,
            final(self).current == word_end(old(self).chars@, old(self).current as int),
            r@ == (
                keyword_kind(
                    final(self).chars@.subrange(
                        final(self).token_start as int,
                        final(self).current as int,
                    ),
                ),
                final(self).chars@.subrange(
                    final(self).token_start as int,
                    final(self).current as int,
                ),
                line_at(final(self).chars@, final(self).current as int),
            ),
    {
        while is_digit(self.peek()) || is_ident(self.peek())
            invariant
                self.wf(),
                self.chars == old(self).chars,
                self.token_start == old(self).token_start,
                old(self).current <= self.current,
                word_end(self.chars@, self.current as int) == word_end(
                    self.chars@,
                    old(self).current as int,
                ),
            decreases self.chars@.len() - self.current,
        {
            self.advance();
        }
        let t = self.identifier_type();
        self.make_token(t)
    }

    fn identifier_type(&self) -> (r: TokenType)
        requires
            self.wf(),
        ensures
            r == keyword_kind(self.chars@.subrange(self.token_start as int, self.current as int)),
    {
        let word = vstd::slice::slice_subrange(self.chars.as_slice(), self.token_start, self.current);
        let ghost w = word@;
        if word.len() == 0 {
            return TokenType::Identifier;
        }
        let c = word[0];
        proof {
            if w.len() >= 2 {
                lemma_keyword_dispatch(w);
            }
        }
        let r = if c == 'a' {
            check_keyword(word, vec!['a', 'n', 'd'].as_slice(), TokenType::And)
        } else if c == 'c' {
            check_keyword(word, vec!['c', 'l', 'a', 's', 's'].as_slice(), TokenType::Class)
        } else if c == 'e' {
            check_keyword(word, vec!['e', 'l', 's', 'e'].as_slice(), TokenType::Else)
        } else if c == 'f' {
            if word.len() < 2 {
                return TokenType::Identifier;
            }
            let c2 = word[1];
            if c2 == 'a' {
                check_keyword(word, vec!['f', 'a', 'l', 's', 'e'].as_slice(), TokenType::False)
            } else if c2 == 'o' {
                check_keyword(word, vec!['f', 'o', 'r'].as_slice(), TokenType::For)
            } else if c2 == 'u' {
                check_keyword(word, vec!['f', 'u', 'n'].as_slice(), TokenType::Fun)
            } else {
                TokenType::Identifier
            }
        } else if c == 'i' {
            check_keyword(word, vec!['i', 'f'].as_slice(), TokenType::If)
        } else if c == 'n' {
            check_keyword(word, vec!['n', 'i', 'l'].as_slice(), TokenType::Nil)
        } else if c == 'o' {
            check_keyword(word, vec!['o', 'r'].as_slice(), TokenType::Or)
        } else if c == 'p' {
            check_keyword(word, vec!['p', 'r', 'i', 'n', 't'].as_slice(), TokenType::Print)
        } else if c == 'r' {
            check_keyword(word, vec!['r', 'e', 't', 'u', 'r', 'n'].as_slice(), TokenType::Return)
        } else if c == 's' {
            check_keyword(word, vec!['s', 'u', 'p', 'e', 'r'].as_slice(), TokenType::Super)
        } else if c == 't' {
            if word.len() < 2 {
                return TokenType::Identifier;
            }
            let c2 = word[1];
            if c2 == 'h' {
                check_keyword(word, vec!['t', 'h', 'i', 's'].as_slice(), TokenType::This)
            } else if c2 == 'r' {
                check_keyword(word, vec!['t', 'r', 'u', 'e'].as_slice(), TokenType::True)
            } else {
                TokenType::Identifier
            }
        } else if c == 'v' {
            check_keyword(word, vec!['v', 'a', 'r'].as_slice(), TokenType::Var)
        } else if c == 'w' {
            check_keyword(word, vec!['w', 'h', 'i', 'l', 'e'].as_slice(), TokenType::While)
        } else {
            TokenType::Identifier
        };
        proof {
            assert(w.subrange(0, 1) =~= seq![w[0]]);
            if w.len() >= 2 {
                assert(w.subrange(0, 2) =~= seq![w[0], w[1]]);
            }
            lemma_keyword_dispatch(w);
        }
        r
    }

    fn is_at_end(&self) -> (r: bool)
        requires
            self.wf(),
        ensures
            r == (self.current >= self.chars@.len()),
    {
        self.current() >= self.chars.len()
    }

    /// Scans the rest of the source; the result ends in exactly one
    /// end-of-input token.
    pub fn scan_tokens(&mut self) -> (r: Vec<Token>)
        requires
            old(self).wf(),
        ensures
            final(self).wf(),
            final(self).source() == old(self).source(),
            r@.map_values(|t: Token| t@) == tokens_from(old(self).source(), old(self).position()),
    {
        let ghost src = self.chars@;
        let mut tokens: Vec<Token> = Vec::new();
        loop
            invariant
                self.wf(),
                self.chars@ == old(self).chars@,
                src == self.chars@,
                old(self).current <= self.current <= src.len(),
                tokens@.map_values(|t: Token| t@) + tokens_from(src, self.current as int)
                    == tokens_from(src, old(self).current as int),
            decreases src.len() - self.current,
        {
            let ghost before = self.current as int;
            let ghost prev = tokens@.map_values(|t: Token| t@);
            proof {
                lemma_skip_end_bounds(src, before);
                let s = skip_end(src, before);
                if s < src.len() {
                    lemma_unit_end_bounds(src, s);
                    lemma_unit_kind_not_end(src, s);
                }
            }
            let t = self.scan_token();
            let done = t.token_type == TokenType::EoF;
            tokens.push(t);
            proof {
                assert(tokens@.map_values(|t: Token| t@) =~= prev.push(t@));
                if done {
                    assert(tokens_from(src, before) =~= seq![t@]);
                    assert(tokens_from(src, self.current as int) == tokens_from(src, before));
                } else {
                    assert(tokens_from(src, before) =~= seq![t@] + tokens_from(
                        src,
                        self.current as int,
                    ));
                }
            }
            if done {
                proof {
                    assert(tokens@.map_values(|t: Token| t@) =~= tokens_from(
                        src,
                        old(self).current as int,
                    ));
                }
                return tokens;
            }
        }
    }

    /// Skips whitespace and comments, then scans one token; at the end of the
    /// source that token is the end of input.
    pub fn scan_token(&mut self) -> (r: Token)
        requires
            old(self).wf(),
        ensures
            final(self).wf(),
            final(self).source() == old(self).source(),
            ({
                let src = old(self).source();
                let s = skip_end(src, old(self).position());
                if s < src.len() {
                    &&& final(self).position() == unit_end(src, s)
                    &&& r@ == (unit_kind(src, s), src.subrange(s, unit_end(src, s)), line_at(
                        src,
                        unit_end(src, s),
                    ))
                } else {
                    &&& final(self).position() == s
                    &&& r@ == (TokenType::EoF, Seq::<char>::empty(), line_at(src, s))
                }
            }),
    {
        self.skip_whitespace();
        self.token_start = self.current();
        let c = self.advance();
        if is_ident(c) {
            return self.identifier();
        }
        if is_digit(c) {
            return self.number_literal();
        }
        match c {
            None => Token::new(TokenType::EoF, String::new(), self.line),
            Some(c) => match c {
                '(' => self.make_token(TokenType::LeftParen),
                ')' => self.make_token(TokenType::RightParen),
                '{' => self.make_token(TokenType::LeftBrace),
                '}' => self.make_token(TokenType::RightBrace),
                ',' => self.make_token(TokenType::Comma),
                '.' => self.make_token(TokenType::Dot),
                '-' => self.make_token(TokenType::Minus),
                '+' => self.make_token(TokenType::Plus),
                ';' => self.make_token(TokenType::Semicolon),
                '/' => self.make_token(TokenType::Slash),
                '*' => self.make_token(TokenType::Star),
                '!' => {
                    if self.maybe_match('=') {
                        self.make_token(TokenType::BangEqual)
                    } else {
                        self.make_token(TokenType::Bang)
                    }
                },
                '=' => {
                    if self.maybe_match('=') {
                        self.make_token(TokenType::EqualEqual)
                    } else {
                        self.make_token(TokenType::Equal)
                    }
                },
                '<' => {
                    if self.maybe_match('=') {
                        self.make_token(TokenType::LessEqual)
                    } else {
                        self.make_token(TokenType::Less)
                    }
                },
                '>' => {
                    if self.maybe_match('=') {
                        self.make_token(TokenType::GreaterEqual)
                    } else {
                        self.make_token(TokenType::Greater)
                    }
                },
                '"' => self.string_literal(),
                _ => self.make_token(TokenType::UnexpectedCharacterError),
            },
        }
    }
}
} // verus!

verus! {

/// The token sequence of `source`: scanning never fails as a whole, and
/// malformed input shows as error tokens in the sequence.
pub fn scan(source: &str) -> (r: Vec<Token>)
    requires
        source@.len() < u32::MAX,
    ensures
        r@.map_values(|t: Token| t@) == scan_spec(source@),
{
    let mut scanner = Scanner::new(source);
    scanner.scan_tokens()
}

} // verus!
