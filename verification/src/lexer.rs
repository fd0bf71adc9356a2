//! Lexical analyzer for AtomScript, a small C-like scripting language.
//!
//! The scanner walks an input string once, character by character, and
//! classifies maximal runs into tokens: operators, delimiters, integer and
//! string literals, identifiers, and reserved keywords.  The spec-level
//! tokenizer `token_at` defines, for every input and cursor position, which
//! token comes next and where the cursor lands; every scanning method is
//! proved against it.

use vstd::prelude::*;

verus! {

/// One lexical unit of AtomScript source text.
///
/// `Illegal` marks a single unrecognized character; `LiteralOverflow` marks a
/// digit run that does not fit in `isize`; `UnterminatedString` marks a string
/// literal still open at end of input.  All three are ordinary tokens: the
/// scan continues after each of them.
#[derive(Debug, PartialEq, Clone)]
pub enum Token {
    Illegal,
    Eof,
    Ident(String),
    Int(isize),
    String(String),
    LiteralOverflow,
    UnterminatedString,
    Assign,

    Plus,
    Minus,
    Bang,
    Asterisk,
    Slash,
    Lt,
    Gt,
    Eq,
    NotEq,
    Comma,
    Semicolon,
    LParen,
    RParen,
    LBrace,
    RBrace,
    LBracket,
    RBracket,
    Colon,

    Atom,
    Molecule,
    Reaction,
    True,
    False,
    If,
    Else,
    Produce,
}

/// The mathematical shape of a token: payloads are sequences of characters
/// and unbounded integers, so contracts can speak of them directly.
pub enum TokenView {
    Illegal,
    Eof,
    Ident(Seq<char>),
    Int(int),
    String(Seq<char>),
    LiteralOverflow,
    UnterminatedString,
    Assign,

    Plus,
    Minus,
    Bang,
    Asterisk,
    Slash,
    Lt,
    Gt,
    Eq,
    NotEq,
    Comma,
    Semicolon,
    LParen,
    RParen,
    LBrace,
    RBrace,
    LBracket,
    RBracket,
    Colon,

    Atom,
    Molecule,
    Reaction,
    True,
    False,
    If,
    Else,
    Produce,
}

impl View for Token {
    type V = TokenView;

    open spec fn view(&self) -> TokenView {
        match self {
            Token::Illegal => TokenView::Illegal,
            Token::Eof => TokenView::Eof,
            Token::Ident(s) => TokenView::Ident(s@),
            Token::Int(i) => TokenView::Int(*i as int),
            Token::String(s) => TokenView::String(s@),
            Token::LiteralOverflow => TokenView::LiteralOverflow,
            Token::UnterminatedString => TokenView::UnterminatedString,
            Token::Assign => TokenView::Assign,
            Token::Plus => TokenView::Plus,
            Token::Minus => TokenView::Minus,
            Token::Bang => TokenView::Bang,
            Token::Asterisk => TokenView::Asterisk,
            Token::Slash => TokenView::Slash,
            Token::Lt => TokenView::Lt,
            Token::Gt => TokenView::Gt,
            Token::Eq => TokenView::Eq,
            Token::NotEq => TokenView::NotEq,
            Token::Comma => TokenView::Comma,
            Token::Semicolon => TokenView::Semicolon,
            Token::LParen => TokenView::LParen,
            Token::RParen => TokenView::RParen,
            Token::LBrace => TokenView::LBrace,
            Token::RBrace => TokenView::RBrace,
            Token::LBracket => TokenView::LBracket,
            Token::RBracket => TokenView::RBracket,
            Token::Colon => TokenView::Colon,
            Token::Atom => TokenView::Atom,
            Token::Molecule => TokenView::Molecule,
            Token::Reaction => TokenView::Reaction,
            Token::True => TokenView::True,
            Token::False => TokenView::False,
            Token::If => TokenView::If,
            Token::Else => TokenView::Else,
            Token::Produce => TokenView::Produce,
        }
    }
}

/// The four whitespace characters the scanner skips between tokens.
pub open spec fn is_whitespace(c: char) -> bool {
    c == ' ' || c == '\t' || c == '\n' || c == '\r'
}

/// Characters that may begin an identifier: ASCII letters and underscore.
pub open spec fn is_ident_start(c: char) -> bool {
    ('a' <= c && c <= 'z') || ('A' <= c && c <= 'Z') || c == '_'
}

/// An ASCII decimal digit.
pub open spec fn is_digit(c: char) -> bool {
    '0' <= c && c <= '9'
}

/// Characters that may continue an identifier.
pub open spec fn is_word_char(c: char) -> bool {
    is_ident_start(c) || is_digit(c)
}

/// The token a single character converts to: the end-of-input sentinel, one
/// of the fixed symbols, or `Illegal` for anything unrecognized.
pub open spec fn token_of_char(c: char) -> Token {
    if c == '\0' {
        Token::Eof
    } else if c == '+' {
        Token::Plus
    } else if c == '-' {
        Token::Minus
    } else if c == '!' {
        Token::Bang
    } else if c == '*' {
        Token::Asterisk
    } else if c == '/' {
        Token::Slash
    } else if c == '<' {
        Token::Lt
    } else if c == '>' {
        Token::Gt
    } else if c == '=' {
        Token::Assign
    } else if c == ',' {
        Token::Comma
    } else if c == ';' {
        Token::Semicolon
    } else if c == '(' {
        Token::LParen
    } else if c == ')' {
        Token::RParen
    } else if c == '{' {
        Token::LBrace
    } else if c == '}' {
        Token::RBrace
    } else if c == ':' {
        Token::Colon
    } else if c == '[' {
        Token::LBracket
    } else if c == ']' {
        Token::RBracket
    } else {
        Token::Illegal
    }
}

impl From<char> for Token {
    /// Classify a single character, exactly as `token_of_char` says.
    fn from(c: char) -> (t: Self) {
        match c {
            '\0' => Token::Eof,
            '+' => Token::Plus,
            '-' => Token::Minus,
            '!' => Token::Bang,
            '*' => Token::Asterisk,
            '/' => Token::Slash,
            '<' => Token::Lt,
            '>' => Token::Gt,
            '=' => Token::Assign,
            ',' => Token::Comma,
            ';' => Token::Semicolon,
            '(' => Token::LParen,
            ')' => Token::RParen,
            '{' => Token::LBrace,
            '}' => Token::RBrace,
            ':' => Token::Colon,
            '[' => Token::LBracket,
            ']' => Token::RBracket,
            _ => Token::Illegal,
        }
    }
}

impl vstd::std_specs::convert::FromSpecImpl<char> for Token {
    open spec fn obeys_from_spec() -> bool {
        true
    }

    open spec fn from_spec(c: char) -> Token {
        token_of_char(c)
    }
}

/// The character under a cursor, with `'\0'` as the past-the-end sentinel.
pub open spec fn char_at(s: Seq<char>, i: int) -> char {
    if 0 <= i < s.len() {
        s[i]
    } else {
        '\0'
    }
}

/// The first position at or after `i` that does not hold whitespace.
pub open spec fn ws_end(s: Seq<char>, i: int) -> int
    decreases s.len() - i when 0 <= i <= s.len()
{
    if i == s.len() {
        i
    } else if is_whitespace(s[i]) {
        ws_end(s, i + 1)
    } else {
        i
    }
}

/// The end of the maximal identifier run starting at `i`.
pub open spec fn word_end(s: Seq<char>, i: int) -> int
    decreases s.len() - i when 0 <= i <= s.len()
{
    if i == s.len() {
        i
    } else if is_word_char(s[i]) {
        word_end(s, i + 1)
    } else {
        i
    }
}

/// The end of the maximal digit run starting at `i`.
pub open spec fn num_end(s: Seq<char>, i: int) -> int
    decreases s.len() - i when 0 <= i <= s.len()
{
    if i == s.len() {
        i
    } else if is_digit(s[i]) {
        num_end(s, i + 1)
    } else {
        i
    }
}

/// The position of the first double quote at or after `i`, or the input
/// length if none remains.
pub open spec fn str_end(s: Seq<char>, i: int) -> int
    decreases s.len() - i when 0 <= i <= s.len()
{
    if i == s.len() {
        i
    } else if s[i] == '"' {
        i
    } else {
        str_end(s, i + 1)
    }
}

/// The numeric value of one decimal digit character.
pub open spec fn digit_val(c: char) -> int {
    c as int - '0' as int
}

/// The value of a digit run read as a decimal number.
pub open spec fn digits_val(s: Seq<char>) -> int
    decreases s.len()
{
    if s.len() == 0 {
        0
    } else {
        digits_val(s.drop_last()) * 10 + digit_val(s.last())
    }
}

/// Whether `w` is one of the eight reserved keyword spellings.
pub open spec fn is_keyword(w: Seq<char>) -> bool {
    ||| w == "atom"@
    ||| w == "molecule"@
    ||| w == "reaction"@
    ||| w == "true"@
    ||| w == "false"@
    ||| w == "if"@
    ||| w == "else"@
    ||| w == "produce"@
}

/// Classify a scanned identifier run: a keyword token on an exact match
/// against the reserved spellings, an identifier carrying the text otherwise.
pub open spec fn word_token(w: Seq<char>) -> TokenView {
    if w == "atom"@ {
        TokenView::Atom
    } else if w == "molecule"@ {
        TokenView::Molecule
    } else if w == "reaction"@ {
        TokenView::Reaction
    } else if w == "true"@ {
        TokenView::True
    } else if w == "false"@ {
        TokenView::False
    } else if w == "if"@ {
        TokenView::If
    } else if w == "else"@ {
        TokenView::Else
    } else if w == "produce"@ {
        TokenView::Produce
    } else {
        TokenView::Ident(w)
    }
}

/// Classify a scanned digit run: its value when it fits in `isize`, the
/// overflow marker otherwise.
pub open spec fn int_token_view(w: Seq<char>) -> TokenView {
    if digits_val(w) <= isize::MAX as int {
        TokenView::Int(digits_val(w))
    } else {
        TokenView::LiteralOverflow
    }
}

/// The token a fixed symbol character produces mid-input.  Unlike
/// `token_of_char`, a `'\0'` that actually occurs in the input is an
/// unrecognized character, not the end-of-input sentinel.
pub open spec fn symbol_token(c: char) -> TokenView {
    if c == '\0' {
        TokenView::Illegal
    } else {
        token_of_char(c)@
    }
}

/// The spec-level scanner: the next token of `s` from position `i`, and the
/// cursor position after it.  Leading whitespace is skipped; at the end of
/// input the token is `Eof` and the cursor does not move.
pub open spec fn token_at(s: Seq<char>, i: int) -> (TokenView, int)
    recommends 0 <= i <= s.len(),
{
    let j = ws_end(s, i);
    if j == s.len() {
        (TokenView::Eof, j)
    } else if is_ident_start(s[j]) {
        let k = word_end(s, j);
        (word_token(s.subrange(j, k)), k)
    } else if is_digit(s[j]) {
        let k = num_end(s, j);
        (int_token_view(s.subrange(j, k)), k)
    } else if s[j] == '"' {
        let k = str_end(s, j + 1);
        if k == s.len() {
            (TokenView::UnterminatedString, k)
        } else {
            (TokenView::String(s.subrange(j + 1, k)), k + 1)
        }
    } else if s[j] == '=' {
        if char_at(s, j + 1) == '=' {
            (TokenView::Eq, j + 2)
        } else {
            (TokenView::Assign, j + 1)
        }
    } else if s[j] == '!' {
        if char_at(s, j + 1) == '=' {
            (TokenView::NotEq, j + 2)
        } else {
            (TokenView::Bang, j + 1)
        }
    } else {
        (symbol_token(s[j]), j + 1)
    }
}

/// Bounds and boundary facts of `ws_end`: it never moves backwards, never
/// passes the end, skips only whitespace, and stops at a non-whitespace
/// character.
pub proof fn lemma_ws_end(s: Seq<char>, i: int)
    requires
        0 <= i <= s.len(),
    ensures
        i <= ws_end(s, i) <= s.len(),
        forall|k: int| i <= k < ws_end(s, i) ==> is_whitespace(s[k]),
        ws_end(s, i) < s.len() ==> !is_whitespace(s[ws_end(s, i)]),
    decreases s.len() - i,
{
    if i < s.len() && is_whitespace(s[i]) {
        lemma_ws_end(s, i + 1);
    }
}

/// Bounds and boundary facts of `word_end`.
pub proof fn lemma_word_end(s: Seq<char>, i: int)
    requires
        0 <= i <= s.len(),
    ensures
        i <= word_end(s, i) <= s.len(),
        forall|k: int| i <= k < word_end(s, i) ==> is_word_char(s[k]),
        word_end(s, i) < s.len() ==> !is_word_char(s[word_end(s, i)]),
    decreases s.len() - i,
{
    if i < s.len() && is_word_char(s[i]) {
        lemma_word_end(s, i + 1);
    }
}

/// Bounds and boundary facts of `num_end`.
pub proof fn lemma_num_end(s: Seq<char>, i: int)
    requires
        0 <= i <= s.len(),
    ensures
        i <= num_end(s, i) <= s.len(),
        forall|k: int| i <= k < num_end(s, i) ==> is_digit(s[k]),
        num_end(s, i) < s.len() ==> !is_digit(s[num_end(s, i)]),
    decreases s.len() - i,
{
    if i < s.len() && is_digit(s[i]) {
        lemma_num_end(s, i + 1);
    }
}

/// Bounds and boundary facts of `str_end`: everything before it differs from
/// the double quote, and it lands on a double quote or at the end.
pub proof fn lemma_str_end(s: Seq<char>, i: int)
    requires
        0 <= i <= s.len(),
    ensures
        i <= str_end(s, i) <= s.len(),
        forall|k: int| i <= k < str_end(s, i) ==> s[k] != '"',
        str_end(s, i) < s.len() ==> s[str_end(s, i)] == '"',
    decreases s.len() - i,
{
    if i < s.len() && s[i] != '"' {
        lemma_str_end(s, i + 1);
    }
}

/// The scanner makes progress: the position after a token never runs past
/// the end, strictly advances unless the token is `Eof`, and `Eof` comes
/// exactly when only whitespace remains — and then the cursor rests at the
/// end of the input.
pub proof fn lemma_token_at_bounds(s: Seq<char>, i: int)
    requires
        0 <= i <= s.len(),
    ensures
        i <= token_at(s, i).1 <= s.len(),
        token_at(s, i).0 != TokenView::Eof ==> i < token_at(s, i).1,
        token_at(s, i).0 == TokenView::Eof <==> ws_end(s, i) == s.len(),
        token_at(s, i).0 == TokenView::Eof ==> token_at(s, i).1 == s.len(),
{
    lemma_ws_end(s, i);
    let j = ws_end(s, i);
    if j < s.len() {
        if is_ident_start(s[j]) {
            lemma_word_end(s, j);
            assert(word_end(s, j) == word_end(s, j + 1));
            lemma_word_end(s, j + 1);
        } else if is_digit(s[j]) {
            lemma_num_end(s, j);
            assert(num_end(s, j) == num_end(s, j + 1));
            lemma_num_end(s, j + 1);
        } else if s[j] == '"' {
            lemma_str_end(s, j + 1);
        }
    }
}

/// A digit run's value is never negative.
pub proof fn lemma_digits_val_nonneg(s: Seq<char>)
    requires
        forall|k: int| 0 <= k < s.len() ==> is_digit(s[k]),
    ensures
        digits_val(s) >= 0,
    decreases s.len(),
{
    if s.len() > 0 {
        lemma_digits_val_nonneg(s.drop_last());
    }
}

/// Classify a word that the scanner could have read as one token: the
/// two-character comparison spellings, the eight keywords, a decimal number
/// (its value, or the overflow marker when it exceeds `isize`), or an
/// identifier carrying the text unchanged.
pub open spec fn token_of_word(s: String) -> Token {
    if s@ == "!="@ {
        Token::NotEq
    } else if s@ == "=="@ {
        Token::Eq
    } else if s@ == "atom"@ {
        Token::Atom
    } else if s@ == "molecule"@ {
        Token::Molecule
    } else if s@ == "reaction"@ {
        Token::Reaction
    } else if s@ == "true"@ {
        Token::True
    } else if s@ == "false"@ {
        Token::False
    } else if s@ == "if"@ {
        Token::If
    } else if s@ == "else"@ {
        Token::Else
    } else if s@ == "produce"@ {
        Token::Produce
    } else if s@.len() > 0 && (forall|k: int| 0 <= k < s@.len() ==> is_digit(s@[k])) {
        if digits_val(s@) <= isize::MAX as int {
            Token::Int(digits_val(s@) as isize)
        } else {
            Token::LiteralOverflow
        }
    } else {
        Token::Ident(s)
    }
}

/// Whether every character of `s` is an ASCII decimal digit.
fn all_digits(s: &str) -> (r: bool)
    ensures
        r == (forall|k: int| 0 <= k < s@.len() ==> is_digit(s@[k])),
{
    let n = s.unicode_len();
    let mut i: usize = 0;
    while i < n
        invariant
            i <= n,
            n == s@.len(),
            forall|k: int| 0 <= k < i ==> is_digit(s@[k]),
        decreases n - i,
    {
        let c = s.get_char(i);
        if !('0' <= c && c <= '9') {
            return false;
        }
        i = i + 1;
    }
    true
}

/// The token of a digit run: its decimal value when it fits in `isize`, the
/// overflow marker otherwise.
fn int_token(digits: &str) -> (t: Token)
    requires
        forall|k: int| 0 <= k < digits@.len() ==> is_digit(digits@[k]),
    ensures
        t == (if digits_val(digits@) <= isize::MAX as int {
            Token::Int(digits_val(digits@) as isize)
        } else {
            Token::LiteralOverflow
        }),
{
    let n = digits.unicode_len();
    let mut i: usize = 0;
    let mut value: isize = 0;
    let mut overflow: bool = false;
    while i < n
        invariant
            i <= n,
            n == digits@.len(),
            forall|k: int| 0 <= k < digits@.len() ==> is_digit(digits@[k]),
            !overflow ==> 0 <= value && value as int == digits_val(digits@.subrange(0, i as int)),
            overflow ==> digits_val(digits@.subrange(0, i as int)) > isize::MAX as int,
        decreases n - i,
    {
        let c = digits.get_char(i);
        let d: isize = ((c as u32) - ('0' as u32)) as isize;
        proof {
            assert(digits@.subrange(0, i + 1).drop_last() =~= digits@.subrange(0, i as int));
            assert(digits@.subrange(0, i + 1).last() == digits@[i as int]);
        }
        if !overflow {
            let wide: i128 = (value as i128) * 10 + (d as i128);
            if wide > (isize::MAX as i128) {
                overflow = true;
            } else {
                value = wide as isize;
            }
        }
        i = i + 1;
    }
    proof {
        assert(digits@.subrange(0, n as int) =~= digits@);
    }
    if overflow {
        Token::LiteralOverflow
    } else {
        Token::Int(value)
    }
}

impl From<String> for Token {
    /// Classify a word, exactly as `token_of_word` says.
    fn from(s: String) -> (t: Self) {
        if s == String::from_str("!=") {
            Token::NotEq
        } else if s == String::from_str("==") {
            Token::Eq
        } else if s == String::from_str("atom") {
            Token::Atom
        } else if s == String::from_str("molecule") {
            Token::Molecule
        } else if s == String::from_str("reaction") {
            Token::Reaction
        } else if s == String::from_str("true") {
            Token::True
        } else if s == String::from_str("false") {
            Token::False
        } else if s == String::from_str("if") {
            Token::If
        } else if s == String::from_str("else") {
            Token::Else
        } else if s == String::from_str("produce") {
            Token::Produce
        } else if !s.as_str().is_empty() && all_digits(s.as_str()) {
            int_token(s.as_str())
        } else {
            Token::Ident(s)
        }
    }
}

impl vstd::std_specs::convert::FromSpecImpl<String> for Token {
    open spec fn obeys_from_spec() -> bool {
        true
    }

    open spec fn from_spec(s: String) -> Token {
        token_of_word(s)
    }
}

/// On text that the scanner reads as an identifier run — nonempty, opened by
/// a letter or underscore, made of word characters only — the word
/// classification agrees with the spec-level scanner's `word_token`: such
/// text is never a comparison spelling and never a number.
pub proof fn lemma_word_classify(w: String)
    requires
        w@.len() > 0,
        is_ident_start(w@[0]),
        forall|k: int| 0 <= k < w@.len() ==> is_word_char(w@[k]),
    ensures
        token_of_word(w)@ == word_token(w@),
{
    reveal_strlit("!=");
    reveal_strlit("==");
    assert(w@ != "!="@);
    assert(w@ != "=="@);
    assert(!is_digit(w@[0]));
}

/// The scanner: an input string, a cursor over its characters, and the
/// character under the cursor.
///
/// Positions count characters, not bytes.  `ch` mirrors the character at
/// `position`, with `'\0'` once the cursor rests at the end of the input;
/// the cursor is clamped there, so scanning past the end is impossible.
pub struct Lexer {
    pub input: String,
    pub position: usize,
    pub read_position: usize,
    pub ch: char,
}

impl Lexer {
    /// The scanner's invariant: the cursor stays within the input (clamped
    /// to its length at the end), `read_position` is the cursor's successor
    /// while characters remain, and `ch` is the character under the cursor
    /// or the `'\0'` sentinel at the end.
    pub open spec fn wf(self) -> bool {
        &&& self.position <= self.input@.len()
        &&& (self.position < self.input@.len() ==> self.read_position == self.position + 1)
        &&& (self.position == self.input@.len() ==> self.read_position == self.position)
        &&& self.ch == char_at(self.input@, self.position as int)
    }

    /// A scanner over `input`, with the cursor on the first character.
    pub fn new(input: String) -> (l: Lexer)
        ensures
            l.wf(),
            l.input == input,
            l.position == 0,
    {
        let mut l = Lexer { input, position: 0, read_position: 0, ch: '\0' };
        l.read_char();
        l
    }

    /// Advance the cursor to `read_position`, clamped to the end of the
    /// input, and load the character there (the `'\0'` sentinel at the end).
    pub fn read_char(&mut self)
        ensures
            final(self).input == old(self).input,
            final(self).wf(),
            final(self).position == if old(self).read_position < old(self).input@.len() {
                old(self).read_position as int
            } else {
                old(self).input@.len() as int
            },
    {
        let n = self.input.as_str().unicode_len();
        if self.read_position >= n {
            self.ch = '\0';
            self.position = n;
            self.read_position = n;
        } else {
            self.ch = self.input.as_str().get_char(self.read_position);
            self.position = self.read_position;
            self.read_position = self.read_position + 1;
        }
    }

    /// The character one past the cursor, without moving it; the `'\0'`
    /// sentinel when no such character exists.
    pub fn peek_char(&self) -> (c: char)
        requires
            self.wf(),
        ensures
            c == char_at(self.input@, self.position + 1),
    {
        let n = self.input.as_str().unicode_len();
        if self.read_position >= n {
            '\0'
        } else {
            self.input.as_str().get_char(self.read_position)
        }
    }

    /// Move the cursor past every consecutive whitespace character.
    pub fn skip_whitespace(&mut self)
        requires
            old(self).wf(),
        ensures
            final(self).input == old(self).input,
            final(self).wf(),
            final(self).position == ws_end(old(self).input@, old(self).position as int),
    {
        while self.ch == ' ' || self.ch == '\t' || self.ch == '\n' || self.ch == '\r'
            invariant
                self.wf(),
                self.input == old(self).input,
                ws_end(self.input@, self.position as int)
                    == ws_end(old(self).input@, old(self).position as int),
            decreases self.input@.len() - self.position,
        {
            self.read_char();
        }
    }

    /// Consume the maximal run of ASCII letters, digits and underscores
    /// starting at the cursor, and hand its text back verbatim.
    pub fn read_identifer(&mut self) -> (w: String)
        requires
            old(self).wf(),
        ensures
            final(self).input == old(self).input,
            final(self).wf(),
            final(self).position == word_end(old(self).input@, old(self).position as int),
            w@ == old(self).input@.subrange(
                old(self).position as int,
                final(self).position as int,
            ),
    {
        let start = self.position;
        while ('a' <= self.ch && self.ch <= 'z') || ('A' <= self.ch && self.ch <= 'Z')
            || self.ch == '_' || ('0' <= self.ch && self.ch <= '9')
            invariant
                self.wf(),
                self.input == old(self).input,
                start <= self.position,
                word_end(self.input@, self.position as int)
                    == word_end(old(self).input@, old(self).position as int),
            decreases self.input@.len() - self.position,
        {
            self.read_char();
        }
        self.input.as_str().substring_char(start, self.position).to_owned()
    }

    /// Consume the maximal run of ASCII digits starting at the cursor, and
    /// hand its text back verbatim.
    pub fn read_number(&mut self) -> (w: String)
        requires
            old(self).wf(),
        ensures
            final(self).input == old(self).input,
            final(self).wf(),
            final(self).position == num_end(old(self).input@, old(self).position as int),
            w@ == old(self).input@.subrange(
                old(self).position as int,
                final(self).position as int,
            ),
            forall|k: int| 0 <= k < w@.len() ==> is_digit(w@[k]),
    {
        let start = self.position;
        while '0' <= self.ch && self.ch <= '9'
            invariant
                self.wf(),
                self.input == old(self).input,
                start <= self.position,
                num_end(self.input@, self.position as int)
                    == num_end(old(self).input@, old(self).position as int),
            decreases self.input@.len() - self.position,
        {
            self.read_char();
        }
        proof {
            lemma_num_end(old(self).input@, old(self).position as int);
        }
        self.input.as_str().substring_char(start, self.position).to_owned()
    }

    /// Consume a string literal: step past the opening double quote under
    /// the cursor, take every character verbatim up to the next double
    /// quote, and consume that closing quote too.  When the input ends
    /// first, the cursor stops at the end and nothing is handed back.
    pub fn read_string(&mut self) -> (r: Option<String>)
        requires
            old(self).wf(),
            old(self).position < old(self).input@.len(),
        ensures
            final(self).input == old(self).input,
            final(self).wf(),
            ({
                let close = str_end(old(self).input@, old(self).position + 1);
                if close == old(self).input@.len() {
                    r is None && final(self).position == close
                } else {
                    &&& final(self).position == close + 1
                    &&& r is Some
                    &&& r->0@ == old(self).input@.subrange(old(self).position + 1, close)
                }
            }),
    {
        self.read_char();
        let start = self.position;
        let n = self.input.as_str().unicode_len();
        while self.position < n && self.ch != '"'
            invariant
                self.wf(),
                self.input == old(self).input,
                n == self.input@.len(),
                start <= self.position,
                str_end(self.input@, self.position as int)
                    == str_end(old(self).input@, old(self).position + 1),
            decreases self.input@.len() - self.position,
        {
            self.read_char();
        }
        if self.position >= n {
            None
        } else {
            let content = self.input.as_str().substring_char(start, self.position).to_owned();
            self.read_char();
            Some(content)
        }
    }

    /// Produce the next token and move the cursor past it, exactly as the
    /// spec-level scanner `token_at` says: skip whitespace, then classify
    /// the longest run the current character can open.  At the end of the
    /// input the token is `Eof` and the cursor stays put, so further calls
    /// keep producing `Eof`.
    pub fn next_token(&mut self) -> (t: Token)
        requires
            old(self).wf(),
        ensures
            final(self).input == old(self).input,
            final(self).wf(),
            t@ == token_at(old(self).input@, old(self).position as int).0,
            final(self).position == token_at(old(self).input@, old(self).position as int).1,
            old(self).position <= final(self).position,
    {
        proof {
            lemma_token_at_bounds(old(self).input@, old(self).position as int);
        }
        self.skip_whitespace();
        let ghost s = old(self).input@;
        let ghost j = ws_end(s, old(self).position as int);
        let n = self.input.as_str().unicode_len();
        if self.position >= n {
            return Token::Eof;
        }
        let c = self.ch;
        if ('a' <= c && c <= 'z') || ('A' <= c && c <= 'Z') || c == '_' {
            proof {
                lemma_word_end(s, j);
                assert(word_end(s, j) == word_end(s, j + 1));
                lemma_word_end(s, j + 1);
            }
            let w = self.read_identifer();
            proof {
                assert(forall|k: int| 0 <= k < w@.len() ==> is_word_char(w@[k]));
                lemma_word_classify(w);
            }
            return Token::from(w);
        }
        if '0' <= c && c <= '9' {
            let num = self.read_number();
            proof {
                lemma_num_end(s, j);
                assert(num_end(s, j) == num_end(s, j + 1));
                lemma_num_end(s, j + 1);
                lemma_digits_val_nonneg(num@);
            }
            return int_token(num.as_str());
        }
        if c == '"' {
            return match self.read_string() {
                Some(content) => Token::String(content),
                None => Token::UnterminatedString,
            };
        }
        let token = if c == '=' {
            if self.peek_char() == '=' {
                self.read_char();
                Token::Eq
            } else {
                Token::Assign
            }
        } else if c == '!' {
            if self.peek_char() == '=' {
                self.read_char();
                Token::NotEq
            } else {
                Token::Bang
            }
        } else if c == '\0' {
            Token::Illegal
        } else {
            Token::from(c)
        };
        self.read_char();
        token
    }
}

/// The whole token stream of `s` from position `i`: one token after
/// another, as `token_at` produces them, up to and including the first
/// `Eof`.
pub open spec fn token_seq(s: Seq<char>, i: int) -> Seq<TokenView>
    decreases s.len() - i when 0 <= i <= s.len() via token_seq_decreases
{
    let (t, j) = token_at(s, i);
    if t == TokenView::Eof {
        seq![t]
    } else {
        seq![t] + token_seq(s, j)
    }
}

#[via_fn]
proof fn token_seq_decreases(s: Seq<char>, i: int) {
    lemma_token_at_bounds(s, i);
}

/// Every scan of every input terminates in the end-of-input marker: the
/// token stream is nonempty, its last token is `Eof`, and no earlier token
/// is `Eof`.
pub proof fn lemma_token_seq_single_eof(s: Seq<char>, i: int)
    requires
        0 <= i <= s.len(),
    ensures
        token_seq(s, i).len() > 0,
        token_seq(s, i).last() == TokenView::Eof,
        forall|k: int|
            0 <= k < token_seq(s, i).len() - 1 ==> token_seq(s, i)[k] != TokenView::Eof,
    decreases s.len() - i,
{
    lemma_token_at_bounds(s, i);
    let (t, j) = token_at(s, i);
    if t != TokenView::Eof {
        lemma_token_seq_single_eof(s, j);
    }
}

/// The end marker is idempotent: once `token_at` produces `Eof`, scanning
/// on from the position it leaves produces `Eof` again, at that same
/// position — the cursor never passes the end of the input.
pub proof fn lemma_eof_idempotent(s: Seq<char>, i: int)
    requires
        0 <= i <= s.len(),
        token_at(s, i).0 == TokenView::Eof,
    ensures
        token_at(s, i).1 == s.len(),
        token_at(s, token_at(s, i).1) == (TokenView::Eof, token_at(s, i).1),
{
    lemma_token_at_bounds(s, i);
}

/// Whitespace is transparent: the next token and the position after it are
/// the same whether scanning starts before or after a run of whitespace.
pub proof fn lemma_whitespace_transparent(s: Seq<char>, i: int)
    requires
        0 <= i <= s.len(),
    ensures
        token_at(s, i) == token_at(s, ws_end(s, i)),
    decreases s.len() - i,
{
    if i < s.len() && is_whitespace(s[i]) {
        lemma_whitespace_transparent(s, i + 1);
    } else {
        lemma_ws_end(s, i);
    }
}

/// Keyword spellings are reserved, and only they are: a word is classified
/// as an identifier exactly when it is not a keyword, and then the
/// identifier carries the word unchanged — never any other text.
pub proof fn lemma_keyword_exactness(w: Seq<char>)
    ensures
        !is_keyword(w) ==> word_token(w) == TokenView::Ident(w),
        is_keyword(w) ==> !(word_token(w) matches TokenView::Ident(_)),
        forall|v: Seq<char>| word_token(w) == TokenView::Ident(v) ==> v == w,
{
}

/// No symbol loses information: two characters that produce the same
/// recognized single-character token are the same character.
pub proof fn lemma_symbol_token_injective(c1: char, c2: char)
    requires
        symbol_token(c1) != TokenView::Illegal,
        symbol_token(c1) == symbol_token(c2),
    ensures
        c1 == c2,
{
}

} // verus!
