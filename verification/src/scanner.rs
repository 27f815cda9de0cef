//! The scanner: Lox source text to tokens.
use vstd::prelude::*;
use vstd::utf8::is_ascii_chars;
use crate::display::{decimal, write_decimal};
use crate::text::{SmartString, str_chars, char_is_alphabetic, is_letter, is_ascii_alpha, is_ascii_digit};
use crate::token::{Operator, Token, TokenDiscriminant, TokenV, keyword_kind, single_char_kind};

verus! {

/// What can go wrong while scanning.
#[derive(Clone, Copy, Debug, PartialEq, Eq, Structural)]
pub enum ScanningError {
    /// A string literal runs to the end of the source.
    UntermString,
    /// A character that starts no token.
    Syntax,
    /// A number lexeme that does not parse as a float. The scanner keeps
    /// number lexemes as text, so it never reports this.
    FloatParse,
}

/// The text of a scanning error.
pub open spec fn scanning_message(e: ScanningError) -> Seq<char> {
    match e {
        ScanningError::UntermString => "Unterminated String"@,
        ScanningError::Syntax => "Unexpected Character"@,
        ScanningError::FloatParse => "Float Parsing Error"@,
    }
}

impl ScanningError {
    /// The error itself, for the given line; reporting it is the caller's
    /// business (see `message`).
    pub fn error(self, line: u32) -> (r: Self)
        ensures
            r == self,
    {
        self
    }

    /// The line that reports the error at a line of the source, at a place.
    pub fn report(&self, line: u32, whre: &str) -> (r: String)
        ensures
            r@ == "[line "@ + decimal(line as nat) + "] at "@ + whre@ + ": "@ + scanning_message(*self),
    {
        let mut r = String::new();
        r.append("[line ");
        write_decimal(line as u64, &mut r);
        r.append("] at ");
        r.append(whre);
        r.append(": ");
        r.append(self.message());
        proof {
            assert(r@ =~= "[line "@ + decimal(line as nat) + "] at "@ + whre@ + ": "@ + scanning_message(*self));
        }
        r
    }

    /// The text that the error is displayed with.
    pub fn message(&self) -> (r: &'static str)
        ensures
            r@ == scanning_message(*self),
    {
        match self {
            ScanningError::UntermString => "Unterminated String",
            ScanningError::Syntax => "Unexpected Character",
            ScanningError::FloatParse => "Float Parsing Error",
        }
    }
}

/// A token and the line it stands on.
#[derive(Debug)]
pub struct ScannedToken {
    /// What the token is, with the text it carries.
    pub type_: Token,
    /// The line number of the lexeme.
    pub line: u32,
}

/// What a scanned token is.
pub struct ScannedTokenV {
    pub token: TokenV,
    pub line: nat,
}

impl View for ScannedToken {
    type V = ScannedTokenV;

    open spec fn view(&self) -> ScannedTokenV {
        ScannedTokenV { token: self.type_@, line: self.line as nat }
    }
}

impl ScannedToken {
    pub fn new(type_: Token, line: u32) -> (r: Self)
        ensures
            r@ == (ScannedTokenV { token: type_@, line: line as nat }),
    {
        Self { type_, line }
    }

    /// A copy of the scanned token.
    pub fn copy(&self) -> (r: Self)
        ensures
            r@ == self@,
    {
        Self { type_: self.type_.copy(), line: self.line }
    }
}

/// The views of a sequence of scanned tokens.
pub open spec fn tokens_view(v: Seq<ScannedToken>) -> Seq<ScannedTokenV> {
    v.map_values(|t: ScannedToken| t@)
}

/// The views of a sequence of errors with their lines.
pub open spec fn errors_view(v: Seq<(ScanningError, u32)>) -> Seq<(ScanningError, nat)> {
    v.map_values(|e: (ScanningError, u32)| (e.0, e.1 as nat))
}

/// A token with no text at a line.
pub open spec fn simple_at(kind: TokenDiscriminant, line: nat) -> ScannedTokenV {
    ScannedTokenV { token: TokenV { kind, text: Seq::empty() }, line }
}

/// A token with text at a line.
pub open spec fn text_at(kind: TokenDiscriminant, text: Seq<char>, line: nat) -> ScannedTokenV {
    ScannedTokenV { token: TokenV { kind, text }, line }
}

// ---------------------------------------------------------------------------
// Characters, bytes and runs of characters.

/// The character tests that the scanner advances by.
#[derive(Clone, Copy, Debug, PartialEq, Eq, Structural)]
pub enum CharTest {
    Digit,
    AsciiAlpha,
    NotNewline,
    NotQuote,
}

/// Whether a character passes a test.
pub open spec fn passes(test: CharTest, c: char) -> bool {
    match test {
        CharTest::Digit => is_ascii_digit(c),
        CharTest::AsciiAlpha => is_ascii_alpha(c),
        CharTest::NotNewline => c != '\n',
        CharTest::NotQuote => c != '"',
    }
}

/// Whether a character passes a test.
pub fn test_char(test: CharTest, c: char) -> (r: bool)
    ensures
        r == passes(test, c),
{
    match test {
        CharTest::Digit => '0' <= c && c <= '9',
        CharTest::AsciiAlpha => ('a' <= c && c <= 'z') || ('A' <= c && c <= 'Z'),
        CharTest::NotNewline => c != '\n',
        CharTest::NotQuote => c != '"',
    }
}

/// The first position at or after `j` whose character fails the test (or the
/// end of the source).
pub open spec fn end_while(s: Seq<char>, j: int, test: CharTest) -> int
    decreases s.len() - j,
{
    if 0 <= j < s.len() && passes(test, s[j]) {
        end_while(s, j + 1, test)
    } else {
        j
    }
}

pub proof fn lemma_end_while(s: Seq<char>, j: int, test: CharTest)
    requires
        0 <= j <= s.len(),
    ensures
        j <= end_while(s, j, test) <= s.len(),
        forall|k: int| j <= k < end_while(s, j, test) ==> passes(test, #[trigger] s[k]),
        end_while(s, j, test) < s.len() ==> !passes(test, s[end_while(s, j, test)]),
    decreases s.len() - j,
{
    if j < s.len() && passes(test, s[j]) {
        lemma_end_while(s, j + 1, test);
    }
}

/// The number of bytes that a character takes in UTF-8.
pub open spec fn utf8_len(c: char) -> int {
    if (c as u32) < 0x80 {
        1
    } else if (c as u32) < 0x800 {
        2
    } else if (c as u32) < 0x10000 {
        3
    } else {
        4
    }
}

/// The number of bytes that a character takes in UTF-8.
pub fn char_utf8_len(c: char) -> (r: usize)
    ensures
        r == utf8_len(c),
{
    let v = c as u32;
    if v < 0x80 {
        1
    } else if v < 0x800 {
        2
    } else if v < 0x10000 {
        3
    } else {
        4
    }
}

/// The number of bytes that a string of characters takes in UTF-8.
pub open spec fn byte_len(s: Seq<char>) -> int
    decreases s.len(),
{
    if s.len() == 0 {
        0
    } else {
        byte_len(s.drop_last()) + utf8_len(s.last())
    }
}

pub proof fn lemma_byte_len_bounds(s: Seq<char>)
    ensures
        s.len() <= byte_len(s) <= 4 * s.len(),
    decreases s.len(),
{
    if s.len() > 0 {
        lemma_byte_len_bounds(s.drop_last());
    }
}

/// How many characters from the front of `s` take exactly `k` bytes, if some
/// number of them does (that is, whether byte `k` is a character boundary).
pub open spec fn chars_in_bytes(s: Seq<char>, k: int) -> Option<int>
    decreases s.len(),
{
    if k == 0 {
        Some(0)
    } else if k < 0 || s.len() == 0 {
        None
    } else {
        match chars_in_bytes(s.drop_first(), k - utf8_len(s[0])) {
            Some(m) => Some(m + 1),
            None => None,
        }
    }
}

/// What cutting a run of characters out of the rest of the source gives, the
/// run being cut by its length in characters taken as a length in bytes.
#[derive(Clone, Copy, Debug, PartialEq, Eq, Structural)]
pub enum SliceWhile {
    /// No character passed the test.
    Nothing,
    /// The cut is the whole rest of the source.
    Whole,
    /// The cut is this many characters.
    Prefix(usize),
    /// The cut falls inside a character (slicing the `str` there panics).
    SplitsChar,
}

/// How far `slice_while` advances from `pos` and what its slice is.
pub open spec fn spec_slice_while(s: Seq<char>, pos: int, test: CharTest) -> (int, SliceWhile) {
    let k = end_while(s, pos, test) - pos;
    let rest = s.subrange(pos, s.len() as int);
    if k == 0 {
        (0, SliceWhile::Nothing)
    } else if k == byte_len(rest) {
        (k, SliceWhile::Whole)
    } else {
        match chars_in_bytes(rest, k) {
            Some(m) => (k, SliceWhile::Prefix(m as usize)),
            None => (k, SliceWhile::SplitsChar),
        }
    }
}

/// In a run of ASCII characters each takes one byte, so a length in bytes up
/// to the run's length is that many whole characters.
pub proof fn lemma_ascii_chars_in_bytes(s: Seq<char>, k: int)
    requires
        is_ascii_chars(s),
        0 <= k <= s.len(),
    ensures
        chars_in_bytes(s, k) == Some(k),
    decreases s.len(),
{
    if k > 0 {
        let t = s.drop_first();
        assert(is_ascii_chars(t)) by {
            assert forall|i: int| 0 <= i < t.len() implies '\0' <= #[trigger] t[i] <= '\u{7f}' by {
                assert(t[i] == s[i + 1]);
            }
        }
        assert('\0' <= s[0] <= '\u{7f}');
        lemma_ascii_chars_in_bytes(t, k - 1);
    }
}

/// Scanning an ASCII source never stops at a cut inside a character.
pub proof fn lemma_ascii_scan_uncut(
    s: Seq<char>,
    i: int,
    line: nat,
    tokens: Seq<ScannedTokenV>,
    errors: Seq<(ScanningError, nat)>,
)
    requires
        is_ascii_chars(s),
    ensures
        !scan_from(s, i, line, tokens, errors).cut,
    decreases s.len() - i,
{
    if 0 <= i < s.len() {
        let st = scan_step(s, i, line);
        if spec_scan_token(s[i]) is STRING {
            let j = i + 1;
            lemma_end_while(s, j, CharTest::NotQuote);
            let rest = s.subrange(j, s.len() as int);
            assert(is_ascii_chars(rest)) by {
                assert forall|m: int| 0 <= m < rest.len() implies '\0' <= #[trigger] rest[m] <= '\u{7f}' by {
                    assert(rest[m] == s[j + m]);
                }
            }
            lemma_ascii_chars_in_bytes(rest, end_while(s, j, CharTest::NotQuote) - j);
        }
        assert(!st.cut);
        let tokens2 = match st.token {
            Some(t) => tokens.push(t),
            None => tokens,
        };
        let errors2 = match st.error {
            Some(e) => errors.push(e),
            None => errors,
        };
        if i < st.next <= s.len() {
            lemma_ascii_scan_uncut(s, st.next, st.line, tokens2, errors2);
        }
    }
}

/// The next character, if any.
pub fn peek(chars: &Vec<char>, pos: usize) -> (r: Option<char>)
    ensures
        pos < chars@.len() ==> r == Some(chars@[pos as int]),
        pos >= chars@.len() ==> r is None,
{
    if pos < chars.len() {
        Some(chars[pos])
    } else {
        None
    }
}

/// How many characters from `pos` on pass the test.
pub fn advance_while(chars: &Vec<char>, pos: usize, test: CharTest) -> (amount: usize)
    requires
        pos <= chars@.len(),
    ensures
        amount == end_while(chars@, pos as int, test) - pos,
{
    let mut i = pos;
    while i < chars.len() && test_char(test, chars[i])
        invariant
            pos <= i <= chars@.len(),
            end_while(chars@, i as int, test) == end_while(chars@, pos as int, test),
        decreases chars@.len() - i,
    {
        i = i + 1;
    }
    i - pos
}

/// The number of bytes that the characters from `pos` to the end take.
fn rest_byte_len(chars: &Vec<char>, pos: usize) -> (r: usize)
    requires
        pos <= chars@.len(),
        chars@.len() < MAX_SOURCE,
    ensures
        r == byte_len(chars@.subrange(pos as int, chars@.len() as int)),
{
    let mut acc: usize = 0;
    let mut m = pos;
    while m < chars.len()
        invariant
            pos <= m <= chars@.len(),
            chars@.len() < MAX_SOURCE,
            acc == byte_len(chars@.subrange(pos as int, m as int)),
            acc <= 4 * (m - pos),
        decreases chars@.len() - m,
    {
        let ghost before = chars@.subrange(pos as int, m as int);
        assert(chars@.subrange(pos as int, m + 1).drop_last() =~= before);
        acc = acc + char_utf8_len(chars[m]);
        m = m + 1;
    }
    acc
}

/// Advances like `advance_while`, and cuts the rest of the source after as
/// many bytes as characters were advanced over.
pub fn slice_while(chars: &Vec<char>, pos: usize, test: CharTest) -> (r: (usize, SliceWhile))
    requires
        pos <= chars@.len(),
        chars@.len() < MAX_SOURCE,
    ensures
        (r.0 as int, r.1) == spec_slice_while(chars@, pos as int, test),
        r.1 matches SliceWhile::Prefix(m) ==> pos + m <= chars@.len(),
{
    let ghost s = chars@;
    let ghost rest = s.subrange(pos as int, s.len() as int);
    let end = advance_while(chars, pos, test);
    proof {
        lemma_end_while(s, pos as int, test);
        assert(rest.subrange(0, rest.len() as int) =~= rest);
    }
    if end == 0 {
        return (0, SliceWhile::Nothing);
    }
    let remaining = rest_byte_len(chars, pos);
    if end == remaining {
        return (end, SliceWhile::Whole);
    }
    let mut m: usize = 0;
    let mut acc: usize = 0;
    while acc < end && pos + m < chars.len()
        invariant
            pos + m <= chars@.len(),
            chars@.len() < MAX_SOURCE,
            acc <= 4 * m,
            end <= chars@.len(),
            s == chars@,
            rest == s.subrange(pos as int, s.len() as int),
            chars_in_bytes(rest, end as int) == match chars_in_bytes(
                rest.subrange(m as int, rest.len() as int),
                end - acc,
            ) {
                Some(x) => Some(x + m),
                None => None,
            },
        decreases chars@.len() - (pos + m),
    {
        let ghost tail = rest.subrange(m as int, rest.len() as int);
        assert(tail.drop_first() =~= rest.subrange(m + 1, rest.len() as int));
        assert(tail[0] == chars@[pos + m]);
        acc = acc + char_utf8_len(chars[pos + m]);
        m = m + 1;
    }
    if acc == end {
        (end, SliceWhile::Prefix(m))
    } else {
        (end, SliceWhile::SplitsChar)
    }
}

/// Makes a string of the characters from `from` to `to`.
pub fn smart_from_chars(chars: &Vec<char>, from: usize, to: usize) -> (r: SmartString)
    requires
        from <= to <= chars@.len(),
    ensures
        r@ == chars@.subrange(from as int, to as int),
{
    let mut r = SmartString::new();
    let mut i = from;
    while i < to
        invariant
            from <= i <= to <= chars@.len(),
            r@ == chars@.subrange(from as int, i as int),
        decreases to - i,
    {
        r.push(chars[i]);
        assert(r@ =~= chars@.subrange(from as int, i + 1));
        i = i + 1;
    }
    r
}

// ---------------------------------------------------------------------------
// One character, one decision.

/// What the first character of a lexeme says about it.
pub enum ScanResult {
    Token(Token),
    Operator(Operator),
    SLASH,
    STRING,
    NUMBER(char),
    IDENTIFIER(char),
    WHITESPACE,
    NEWLINE,
    INVALID,
}

/// What the first character of a lexeme says about it.
pub open spec fn spec_scan_token(c: char) -> ScanResult {
    if single_char_kind(c) is Some {
        ScanResult::Token(Token::spec_simple(single_char_kind(c)->0))
    } else if c == ' ' || c == '\r' || c == '\t' {
        ScanResult::WHITESPACE
    } else if c == '\n' {
        ScanResult::NEWLINE
    } else if c == '=' {
        ScanResult::Operator(Operator::EQUAL)
    } else if c == '>' {
        ScanResult::Operator(Operator::GREATER)
    } else if c == '<' {
        ScanResult::Operator(Operator::LESS)
    } else if c == '!' {
        ScanResult::Operator(Operator::BANG)
    } else if c == '/' {
        ScanResult::SLASH
    } else if c == '"' {
        ScanResult::STRING
    } else if is_ascii_digit(c) {
        ScanResult::NUMBER(c)
    } else if is_letter(c) {
        ScanResult::IDENTIFIER(c)
    } else {
        ScanResult::INVALID
    }
}

/// What the first character of a lexeme says about it.
pub fn scan_token(c: char) -> (r: ScanResult)
    ensures
        r == spec_scan_token(c),
{
    match c {
        '(' => ScanResult::Token(Token::LEFTPAREN),
        ')' => ScanResult::Token(Token::RIGHTPAREN),
        '{' => ScanResult::Token(Token::LEFTBRACE),
        '}' => ScanResult::Token(Token::RIGHTBRACE),
        ',' => ScanResult::Token(Token::COMMA),
        '.' => ScanResult::Token(Token::DOT),
        '-' => ScanResult::Token(Token::MINUS),
        '+' => ScanResult::Token(Token::PLUS),
        ';' => ScanResult::Token(Token::SEMICOLON),
        '*' => ScanResult::Token(Token::STAR),
        ' ' | '\r' | '\t' => ScanResult::WHITESPACE,
        '\n' => ScanResult::NEWLINE,
        '=' => ScanResult::Operator(Operator::EQUAL),
        '>' => ScanResult::Operator(Operator::GREATER),
        '<' => ScanResult::Operator(Operator::LESS),
        '!' => ScanResult::Operator(Operator::BANG),
        '/' => ScanResult::SLASH,
        '"' => ScanResult::STRING,
        _ => {
            if '0' <= c && c <= '9' {
                ScanResult::NUMBER(c)
            } else if char_is_alphabetic(c) {
                ScanResult::IDENTIFIER(c)
            } else {
                ScanResult::INVALID
            }
        },
    }
}


// ---------------------------------------------------------------------------
// Scanning a whole source.

/// What one step of the scanner does: where it goes on, the line it is on
/// after, the token and the error it yields, if any, and whether it stops
/// because the source cannot be cut where the step cuts it.
pub struct StepV {
    pub next: int,
    pub line: nat,
    pub token: Option<ScannedTokenV>,
    pub error: Option<(ScanningError, nat)>,
    pub cut: bool,
}

/// A step that yields a token and goes on at `next`.
pub open spec fn yields(next: int, line: nat, token: ScannedTokenV) -> StepV {
    StepV { next, line, token: Some(token), error: None, cut: false }
}

/// A step that yields nothing and goes on at `next`.
pub open spec fn skips(next: int, line: nat) -> StepV {
    StepV { next, line, token: None, error: None, cut: false }
}

/// A step that reports an error and goes on at `next`.
pub open spec fn fails(next: int, line: nat, error: ScanningError) -> StepV {
    StepV { next, line, token: None, error: Some((error, line)), cut: false }
}

/// The end of a number lexeme that starts at `i`: its digits, then a dot and
/// more digits if a dot follows.
pub open spec fn number_end(s: Seq<char>, i: int) -> int {
    let e1 = end_while(s, i + 1, CharTest::Digit);
    if e1 < s.len() && s[e1] == '.' {
        end_while(s, e1 + 1, CharTest::Digit)
    } else {
        e1
    }
}

/// The token that a word spells: a keyword, or an identifier.
pub open spec fn word_token(word: Seq<char>, line: nat) -> ScannedTokenV {
    match keyword_kind(word) {
        Some(kind) => simple_at(kind, line),
        None => text_at(TokenDiscriminant::IDENTIFIER, word, line),
    }
}

/// One step of the scanner at position `i` of the source, on line `line`.
pub open spec fn scan_step(s: Seq<char>, i: int, line: nat) -> StepV {
    let j = i + 1;
    match spec_scan_token(s[i]) {
        ScanResult::Token(t) => yields(j, line, ScannedTokenV { token: t@, line }),
        ScanResult::Operator(o) => {
            let kind = if s.len() >= 2 && s[1] == '=' {
                o.spec_with_equal()
            } else {
                o.spec_alone()
            };
            yields(j, line, simple_at(kind, line))
        },
        ScanResult::NEWLINE => skips(j, line + 1),
        ScanResult::NUMBER(_) => {
            let e = number_end(s, i);
            yields(e, line, text_at(TokenDiscriminant::NUMBER, s.subrange(i, e), line))
        },
        ScanResult::IDENTIFIER(_) => {
            let e = end_while(s, j, CharTest::AsciiAlpha);
            yields(e, line, word_token(s.subrange(i, e), line))
        },
        ScanResult::SLASH => {
            if j < s.len() && s[j] == '/' {
                skips(end_while(s, j, CharTest::NotNewline), line)
            } else {
                yields(j, line, simple_at(TokenDiscriminant::SLASH, line))
            }
        },
        ScanResult::STRING => {
            let (k, sliced) = spec_slice_while(s, j, CharTest::NotQuote);
            let q = j + k;
            let after = if q < s.len() {
                q + 1
            } else {
                q
            };
            match sliced {
                SliceWhile::Nothing => yields(
                    after,
                    line,
                    text_at(TokenDiscriminant::STRING, Seq::empty(), line),
                ),
                SliceWhile::Whole => fails(after, line, ScanningError::UntermString),
                SliceWhile::Prefix(m) => yields(
                    after,
                    line,
                    text_at(TokenDiscriminant::STRING, s.subrange(j, j + m), line),
                ),
                SliceWhile::SplitsChar => StepV {
                    next: q,
                    line,
                    token: None,
                    error: None,
                    cut: true,
                },
            }
        },
        ScanResult::WHITESPACE => skips(j, line),
        ScanResult::INVALID => fails(j, line, ScanningError::Syntax),
    }
}

/// What scanning gives: the tokens, the errors with their lines, and whether
/// scanning stopped at a string literal whose cut falls inside a character
/// (where slicing the source panics).
pub struct ScanV {
    pub tokens: Seq<ScannedTokenV>,
    pub errors: Seq<(ScanningError, nat)>,
    pub cut: bool,
}

/// Scanning the source from position `i` on, on line `line`, after the given
/// tokens and errors.
pub open spec fn scan_from(
    s: Seq<char>,
    i: int,
    line: nat,
    tokens: Seq<ScannedTokenV>,
    errors: Seq<(ScanningError, nat)>,
) -> ScanV
    decreases s.len() - i,
{
    if i < 0 || i >= s.len() {
        ScanV { tokens, errors, cut: false }
    } else {
        let st = scan_step(s, i, line);
        let tokens2 = match st.token {
            Some(t) => tokens.push(t),
            None => tokens,
        };
        let errors2 = match st.error {
            Some(e) => errors.push(e),
            None => errors,
        };
        if st.cut {
            ScanV { tokens: tokens2, errors: errors2, cut: true }
        } else if i < st.next <= s.len() {
            scan_from(s, st.next, st.line, tokens2, errors2)
        } else {
            ScanV { tokens: tokens2, errors: errors2, cut: false }
        }
    }
}

/// What scanning a whole source gives.
pub open spec fn scan_source(s: Seq<char>) -> ScanV {
    scan_from(s, 0, 1, Seq::empty(), Seq::empty())
}

/// One step of the scanner.
pub struct Step {
    pub next: usize,
    pub line: u32,
    pub token: Option<ScannedToken>,
    pub error: Option<(ScanningError, u32)>,
    pub cut: bool,
}

impl View for Step {
    type V = StepV;

    open spec fn view(&self) -> StepV {
        StepV {
            next: self.next as int,
            line: self.line as nat,
            token: match self.token {
                Some(t) => Some(t@),
                None => None,
            },
            error: match self.error {
                Some(e) => Some((e.0, e.1 as nat)),
                None => None,
            },
            cut: self.cut,
        }
    }
}

/// The largest source the scanner takes, in characters: below it, a line
/// number (at most one more than the characters before it) fits the `u32`
/// that tokens carry it in, and the bytes of the rest of the source (at most
/// four a character) fit a `usize` even where it has 32 bits.
pub const MAX_SOURCE: usize = 0x1000_0000;

/// One step of the scanner at position `i`, on line `line`.
pub fn scan_one(chars: &Vec<char>, i: usize, line: u32) -> (r: Step)
    requires
        i < chars@.len(),
        chars@.len() < MAX_SOURCE,
        line < u32::MAX,
    ensures
        r@ == scan_step(chars@, i as int, line as nat),
        r.cut || r.next > i,
        r.next <= chars@.len(),
        r.line == line || (r.line == line + 1 && r.next == i + 1),
{
    let ghost s = chars@;
    let c = chars[i];
    let j = i + 1;
    let class = scan_token(c);
    match class {
        ScanResult::Token(t) => Step {
            next: j,
            line,
            token: Some(ScannedToken::new(t, line)),
            error: None,
            cut: false,
        },
        ScanResult::Operator(o) => {
            let t = if chars.len() >= 2 && chars[1] == '=' {
                o.into_equal()
            } else {
                o.into_token()
            };
            Step { next: j, line, token: Some(ScannedToken::new(t, line)), error: None, cut: false }
        },
        ScanResult::NEWLINE => Step { next: j, line: line + 1, token: None, error: None, cut: false },
        ScanResult::NUMBER(_) => {
            proof {
                lemma_end_while(s, j as int, CharTest::Digit);
            }
            let e1 = j + advance_while(chars, j, CharTest::Digit);
            let e = if e1 < chars.len() && chars[e1] == '.' {
                proof {
                    lemma_end_while(s, e1 + 1, CharTest::Digit);
                }
                e1 + 1 + advance_while(chars, e1 + 1, CharTest::Digit)
            } else {
                e1
            };
            let lexeme = smart_from_chars(chars, i, e);
            Step {
                next: e,
                line,
                token: Some(ScannedToken::new(Token::NUMBER(lexeme), line)),
                error: None,
                cut: false,
            }
        },
        ScanResult::IDENTIFIER(_) => {
            proof {
                lemma_end_while(s, j as int, CharTest::AsciiAlpha);
            }
            let e = j + advance_while(chars, j, CharTest::AsciiAlpha);
            let word = smart_from_chars(chars, i, e);
            let t = match Token::from_keyword(word.as_str()) {
                Some(keyword) => keyword,
                None => Token::IDENTIFIER(word),
            };
            Step { next: e, line, token: Some(ScannedToken::new(t, line)), error: None, cut: false }
        },
        ScanResult::SLASH => {
            if let Some('/') = peek(chars, j) {
                proof {
                    lemma_end_while(s, j as int, CharTest::NotNewline);
                }
                let e = j + advance_while(chars, j, CharTest::NotNewline);
                Step { next: e, line, token: None, error: None, cut: false }
            } else {
                Step {
                    next: j,
                    line,
                    token: Some(ScannedToken::new(Token::SLASH, line)),
                    error: None,
                    cut: false,
                }
            }
        },
        ScanResult::STRING => {
            proof {
                lemma_end_while(s, j as int, CharTest::NotQuote);
            }
            let (k, sliced) = slice_while(chars, j, CharTest::NotQuote);
            let q = j + k;
            let after = if q < chars.len() {
                q + 1
            } else {
                q
            };
            match sliced {
                SliceWhile::Nothing => Step {
                    next: after,
                    line,
                    token: Some(ScannedToken::new(Token::STRING(SmartString::new()), line)),
                    error: None,
                    cut: false,
                },
                SliceWhile::Whole => Step {
                    next: after,
                    line,
                    token: None,
                    error: Some((ScanningError::UntermString.error(line), line)),
                    cut: false,
                },
                SliceWhile::Prefix(m) => {
                    let content = smart_from_chars(chars, j, j + m);
                    Step {
                        next: after,
                        line,
                        token: Some(ScannedToken::new(Token::STRING(content), line)),
                        error: None,
                        cut: false,
                    }
                },
                SliceWhile::SplitsChar => Step { next: q, line, token: None, error: None, cut: true },
            }
        },
        ScanResult::WHITESPACE => Step { next: j, line, token: None, error: None, cut: false },
        ScanResult::INVALID => Step {
            next: j,
            line,
            token: None,
            error: Some((ScanningError::Syntax.error(line), line)),
            cut: false,
        },
    }
}

/// What scanning gives.
pub struct ScanReport {
    pub tokens: Vec<ScannedToken>,
    pub errors: Vec<(ScanningError, u32)>,
    pub cut: bool,
}

impl View for ScanReport {
    type V = ScanV;

    open spec fn view(&self) -> ScanV {
        ScanV { tokens: tokens_view(self.tokens@), errors: errors_view(self.errors@), cut: self.cut }
    }
}

/// Scans a whole source, given as its characters: every token with its line,
/// every error with its line, and whether scanning stopped at a string literal
/// whose cut falls inside a character.
pub fn scan_chars(chars: &Vec<char>) -> (r: ScanReport)
    requires
        chars@.len() < MAX_SOURCE,
    ensures
        r@ == scan_source(chars@),
{
    let mut tokens: Vec<ScannedToken> = Vec::new();
    let mut errors: Vec<(ScanningError, u32)> = Vec::new();
    let mut i: usize = 0;
    let mut line: u32 = 1;
    assert(tokens_view(tokens@) =~= Seq::empty());
    assert(errors_view(errors@) =~= Seq::empty());
    while i < chars.len()
        invariant
            i <= chars@.len() < MAX_SOURCE,
            1 <= line <= i + 1,
            scan_from(chars@, i as int, line as nat, tokens_view(tokens@), errors_view(errors@))
                == scan_source(chars@),
        decreases chars@.len() - i,
    {
        let step = scan_one(chars, i, line);
        let ghost old_tokens = tokens@;
        let ghost old_errors = errors@;
        let Step { next, line: new_line, token, error, cut } = step;
        if let Some(t) = token {
            tokens.push(t);
            assert(tokens_view(tokens@) =~= tokens_view(old_tokens).push(t@));
        }
        if let Some(e) = error {
            errors.push(e);
            assert(errors_view(errors@) =~= errors_view(old_errors).push((e.0, e.1 as nat)));
        }
        if cut {
            return ScanReport { tokens, errors, cut: true };
        }
        i = next;
        line = new_line;
    }
    ScanReport { tokens, errors, cut: false }
}

/// Scans a source: its tokens, or the last error met (every error met is in
/// `scan_chars`'s report, with its line).
pub fn scan(source: &str) -> (r: Result<Vec<ScannedToken>, ScanningError>)
    requires
        source@.len() < MAX_SOURCE,
        !scan_source(source@).cut,
    ensures
        match r {
            Ok(tokens) => scan_source(source@).errors.len() == 0 && tokens_view(tokens@)
                == scan_source(source@).tokens,
            Err(e) => scan_source(source@).errors.len() > 0 && e == scan_source(
                source@,
            ).errors.last().0,
        },
{
    let chars = str_chars(source);
    let report = scan_chars(&chars);
    let ScanReport { tokens, errors, cut } = report;
    if errors.len() == 0 {
        Ok(tokens)
    } else {
        let last = errors[errors.len() - 1];
        Err(last.0)
    }
}

} // verus!
