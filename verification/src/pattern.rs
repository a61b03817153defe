//! Regular expressions, through the `regex` crate.
//!
//! A [`Pattern`] pairs a compiled `regex::Regex` with the text it was
//! compiled from; the unproved contracts of the calls into `regex` below
//! speak of that text.
use vstd::prelude::*;

use crate::text::{is_ascii_digit, string_of};

verus! {

#[verifier::external_type_specification]
#[verifier::external_body]
pub struct ExRegex(regex::Regex);

#[verifier::external_type_specification]
#[verifier::external_body]
pub struct ExRegexError(regex::Error);

/// Whether `regex::Regex::new` accepts `pattern`.
pub uninterp spec fn regex_compiles(pattern: Seq<char>) -> bool;

/// Whether the regular expression `pattern` matches somewhere in `haystack`.
pub uninterp spec fn regex_matches(pattern: Seq<char>, haystack: Seq<char>) -> bool;

/// The text of the leftmost-first match of `pattern` in `haystack`, if any.
pub uninterp spec fn regex_first_match(pattern: Seq<char>, haystack: Seq<char>) -> Option<Seq<char>>;

/// A name: an ASCII letter or `_`, then ASCII letters, digits or `_`.
pub open spec fn label_pattern() -> Seq<char> {
    "^[a-zA-Z_][a-zA-Z_0-9]*$"@
}

/// Text that begins with an ASCII digit.
pub open spec fn digit_start_pattern() -> Seq<char> {
    "^[0-9]"@
}

/// The leading number of a memory cell's text.
pub open spec fn value_prefix_pattern() -> Seq<char> {
    "^-?(Inf|NaN|[0-9]+)"@
}

pub open spec fn is_ascii_letter(c: char) -> bool {
    ('a' <= c && c <= 'z') || ('A' <= c && c <= 'Z')
}

/// What `label_pattern()` matches: the whole text is a name.
pub open spec fn is_label_text(s: Seq<char>) -> bool {
    &&& s.len() >= 1
    &&& (is_ascii_letter(s[0]) || s[0] == '_')
    &&& forall|i: int|
        1 <= i < s.len() ==> is_ascii_letter(#[trigger] s[i]) || is_ascii_digit(s[i]) || s[i] == '_'
}

/// What `digit_start_pattern()` matches.
pub open spec fn starts_with_ascii_digit(s: Seq<char>) -> bool {
    s.len() >= 1 && is_ascii_digit(s[0])
}

/// Number of ASCII digits at the front of `s`.
pub open spec fn leading_digits(s: Seq<char>) -> nat
    decreases s.len(),
{
    if s.len() > 0 && is_ascii_digit(s[0]) {
        1 + leading_digits(s.drop_first())
    } else {
        0
    }
}

pub proof fn lemma_leading_digits_len(s: Seq<char>)
    ensures
        leading_digits(s) <= s.len(),
    decreases s.len(),
{
    if s.len() > 0 {
        lemma_leading_digits_len(s.drop_first());
    }
}

pub open spec fn starts_with(s: Seq<char>, prefix: Seq<char>) -> bool {
    prefix.len() <= s.len() && s.take(prefix.len() as int) == prefix
}

/// The leftmost-first match of `value_prefix_pattern()`: an optional `-`,
/// then `Inf`, `NaN` or a run of ASCII digits, all at the front of `s`.
pub open spec fn value_prefix(s: Seq<char>) -> Option<Seq<char>> {
    let k: int = if s.len() > 0 && s[0] == '-' { 1 } else { 0 };
    let rest = s.skip(k);
    if starts_with(rest, seq!['I', 'n', 'f']) || starts_with(rest, seq!['N', 'a', 'N']) {
        Some(s.take(k + 3))
    } else if leading_digits(rest) > 0 {
        Some(s.take(k + leading_digits(rest)))
    } else {
        None
    }
}

/// A compiled regular expression with the text it was compiled from.
pub struct Pattern {
    source: String,
    re: regex::Regex,
}

impl Pattern {
    /// The text this pattern was compiled from.
    pub closed spec fn source_text(&self) -> Seq<char> {
        self.source@
    }

    /// Compiles `pattern` (`regex::Regex::new`).
    pub fn new(pattern: &str) -> (r: Result<Pattern, regex::Error>)
        ensures
            r is Ok <==> regex_compiles(pattern@),
            r matches Ok(p) ==> p.source_text() == pattern@,
            pattern@ == label_pattern() ==> r is Ok,
            pattern@ == digit_start_pattern() ==> r is Ok,
            pattern@ == value_prefix_pattern() ==> r is Ok,
    {
        match regex_new(pattern) {
            Ok(re) => Ok(Pattern { source: string_of(pattern), re }),
            Err(e) => Err(e),
        }
    }

    /// Whether the pattern matches somewhere in `haystack` (`regex::Regex::is_match`).
    pub fn is_match(&self, haystack: &str) -> (r: bool)
        ensures
            r == regex_matches(self.source_text(), haystack@),
            self.source_text() == label_pattern() ==> r == is_label_text(haystack@),
            self.source_text() == digit_start_pattern() ==> r == starts_with_ascii_digit(haystack@),
    {
        regex_is_match(self, haystack)
    }

    /// The text of the first match in `haystack` (`regex::Regex::find`).
    pub fn find(&self, haystack: &str) -> (r: Option<String>)
        ensures
            r matches Some(m) ==> regex_first_match(self.source_text(), haystack@) == Some(m@),
            r is None ==> regex_first_match(self.source_text(), haystack@) is None,
            self.source_text() == value_prefix_pattern() ==> (r matches Some(m) ==> value_prefix(
                haystack@,
            ) == Some(m@)) && (r is None ==> value_prefix(haystack@) is None),
    {
        regex_find(self, haystack)
    }
}

/// `regex::Regex::new`.  Claimed: it succeeds exactly on the texts that
/// `regex_compiles` names, among them the three patterns this library uses,
/// which are valid by the crate's syntax documentation.
#[verifier::external_body]
fn regex_new(pattern: &str) -> (r: Result<regex::Regex, regex::Error>)
    ensures
        r is Ok <==> regex_compiles(pattern@),
        pattern@ == label_pattern() ==> r is Ok,
        pattern@ == digit_start_pattern() ==> r is Ok,
        pattern@ == value_prefix_pattern() ==> r is Ok,
{
    regex::Regex::new(pattern)
}

/// `regex::Regex::is_match` on the regex of `p`.  Claimed: the answer is the
/// named `regex_matches` of the pattern text and the haystack; for the two
/// patterns this library matches with, it is what the regex syntax
/// documentation gives (`^` and `$` anchor at the ends of the haystack,
/// the classes are ASCII ranges).
#[verifier::external_body]
fn regex_is_match(p: &Pattern, haystack: &str) -> (r: bool)
    ensures
        r == regex_matches(p.source_text(), haystack@),
        p.source_text() == label_pattern() ==> r == is_label_text(haystack@),
        p.source_text() == digit_start_pattern() ==> r == starts_with_ascii_digit(haystack@),
{
    p.re.is_match(haystack)
}

/// `regex::Regex::find` on the regex of `p`, converted to the matched text.
/// Claimed: the text is the named `regex_first_match`; for the value pattern
/// it is the leftmost-first match that the syntax documentation gives.
#[verifier::external_body]
fn regex_find(p: &Pattern, haystack: &str) -> (r: Option<String>)
    ensures
        r matches Some(m) ==> regex_first_match(p.source_text(), haystack@) == Some(m@),
        r is None ==> regex_first_match(p.source_text(), haystack@) is None,
        p.source_text() == value_prefix_pattern() ==> (r matches Some(m) ==> value_prefix(haystack@)
            == Some(m@)) && (r is None ==> value_prefix(haystack@) is None),
{
    p.re.find(haystack).map(|m| m.as_str().to_string())
}

} // verus!
