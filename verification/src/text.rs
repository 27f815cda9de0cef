//! The string type of the library and the few string operations of `std`
//! and `smartstring` that the scanner, parser and interpreter call.
use vstd::prelude::*;

verus! {

/// The string type that identifiers, string literals, number lexemes and Lox
/// string values are held in: a `smartstring` compact string, kept opaque to
/// the verifier; `smart_chars` names the characters it holds.
#[verifier::external_body]
#[derive(Debug, PartialEq, Eq)]
pub struct SmartString {
    inner: smartstring::SmartString<smartstring::Compact>,
}

/// The characters that a `SmartString` holds.
pub uninterp spec fn smart_chars(s: SmartString) -> Seq<char>;

impl View for SmartString {
    type V = Seq<char>;

    open spec fn view(&self) -> Seq<char> {
        smart_chars(*self)
    }
}

impl SmartString {
    /// Wraps `smartstring::SmartString::new`: the contract claims that the
    /// new string holds no characters.
    #[verifier::external_body]
    pub fn new() -> (r: SmartString)
        ensures
            smart_chars(r) == Seq::<char>::empty(),
    {
        SmartString { inner: smartstring::SmartString::new() }
    }

    /// Wraps `From<&str> for smartstring::SmartString`: the contract claims
    /// that the new string holds exactly the characters of `s`.
    #[verifier::external_body]
    pub fn from(s: &str) -> (r: SmartString)
        ensures
            smart_chars(r) == s@,
    {
        SmartString { inner: smartstring::SmartString::from(s) }
    }

    /// Wraps `smartstring::SmartString::push`: the contract claims that the
    /// character is appended and nothing else changes.
    #[verifier::external_body]
    pub fn push(&mut self, c: char)
        ensures
            smart_chars(*final(self)) == smart_chars(*old(self)).push(c),
    {
        self.inner.push(c)
    }

    /// Wraps `Clone for smartstring::SmartString`: the contract claims that
    /// the copy holds the same characters.
    #[verifier::external_body]
    pub fn copy(&self) -> (r: SmartString)
        ensures
            smart_chars(r) == smart_chars(*self),
    {
        SmartString { inner: self.inner.clone() }
    }

    /// Wraps `Deref<Target = str> for smartstring::SmartString`: the contract
    /// claims that the slice holds the characters of the string.
    #[verifier::external_body]
    pub fn as_str(&self) -> (r: &str)
        ensures
            r@ == smart_chars(*self),
    {
        self.inner.as_str()
    }

    /// Wraps `format!("{left}{right}")` followed by `From<String> for
    /// smartstring::SmartString`: the contract claims that the result holds
    /// the characters of `left` followed by those of `right`.
    #[verifier::external_body]
    pub fn concat(left: &SmartString, right: &SmartString) -> (r: SmartString)
        ensures
            smart_chars(r) == smart_chars(*left) + smart_chars(*right),
    {
        SmartString { inner: format!("{}{}", left.inner, right.inner).into() }
    }
}

/// Wraps `PartialEq for str`: the contract claims that two string slices are
/// equal exactly when they hold the same characters.
#[verifier::external_body]
pub fn str_eq(a: &str, b: &str) -> (r: bool)
    ensures
        r == (a@ == b@),
{
    a == b
}

/// The characters of a string slice, in order.
pub fn str_chars(s: &str) -> (r: Vec<char>)
    ensures
        r@ == s@,
{
    broadcast use vstd::string::axiom_spec_iter;

    let mut r: Vec<char> = Vec::new();
    for c in it: s.chars()
        invariant
            r@ == it.seq().take(it.index() as int),
    {
        r.push(c);
    }
    assert(r@ =~= s@);
    r
}

/// Whether a character has the Unicode `Alphabetic` property, as
/// `char::is_alphabetic` answers.
pub uninterp spec fn is_alphabetic(c: char) -> bool;

/// Whether a character is an ASCII letter.
pub open spec fn is_ascii_alpha(c: char) -> bool {
    ('a' <= c && c <= 'z') || ('A' <= c && c <= 'Z')
}

/// Whether a character starts an identifier: an ASCII letter, or outside
/// ASCII a character with the `Alphabetic` property.
pub open spec fn is_letter(c: char) -> bool {
    if (c as u32) < 128 {
        is_ascii_alpha(c)
    } else {
        is_alphabetic(c)
    }
}

/// Whether a character is an ASCII digit.
pub open spec fn is_ascii_digit(c: char) -> bool {
    '0' <= c && c <= '9'
}

/// Wraps `char::is_alphabetic`: the contract names the answer
/// `is_alphabetic(c)` and claims, for ASCII characters only, that the
/// `Alphabetic` property holds of exactly the ASCII letters. What it answers
/// for other characters is left unsaid.
#[verifier::external_body]
pub fn char_is_alphabetic(c: char) -> (r: bool)
    ensures
        r == is_alphabetic(c),
        (c as u32) < 128 ==> (r == is_ascii_alpha(c)),
{
    c.is_alphabetic()
}

} // verus!
