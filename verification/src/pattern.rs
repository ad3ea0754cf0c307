//! Matchers given by a pattern: regular expressions and wildcard patterns.

use vstd::prelude::*;
use regex::Regex;
use wildmatch::WildMatch;
use crate::matcher::Matcher;

verus! {

/// Makes `regex::Regex`, a compiled regular expression, known to the
/// verifier as a type whose inside it does not see.
#[verifier::external_type_specification]
#[verifier::external_body]
pub struct ExRegex(regex::Regex);

/// The strings in which the regular expression `re` finds a match.
pub uninterp spec fn regex_language(re: Regex) -> Set<Seq<char>>;

/// `Regex::is_match` tells whether the expression matches anywhere in the
/// haystack. A compiled expression does not change, so the answer depends on
/// the expression and the haystack alone.
pub assume_specification[ Regex::is_match ](re: &Regex, haystack: &str) -> (found: bool)
    ensures
        found == regex_language(*re).contains(haystack@),
;

/// A regular expression accepts the strings in which it finds a match; to
/// accept whole strings only, the pattern has to be anchored.
impl Matcher for Regex {
    open spec fn matches(&self, value: Seq<char>) -> bool {
        regex_language(*self).contains(value)
    }

    fn matches_value(&self, value: &str) -> (matched: bool) {
        self.is_match(value)
    }
}

/// Whether the wildcard `pattern` describes the whole of `text`: `?` stands for
/// exactly one character, `*` for any number of them, every other character
/// for itself.
pub open spec fn glob_matches(pattern: Seq<char>, text: Seq<char>) -> bool
    decreases pattern.len(), text.len(),
{
    if pattern.len() == 0 {
        text.len() == 0
    } else if pattern[0] == '*' {
        glob_matches(pattern.drop_first(), text) || (text.len() > 0 && glob_matches(
            pattern,
            text.drop_first(),
        ))
    } else {
        text.len() > 0 && (pattern[0] == '?' || pattern[0] == text[0]) && glob_matches(
            pattern.drop_first(),
            text.drop_first(),
        )
    }
}

/// `WildMatch::new(pattern).matches(input)` tells whether the pattern applies
/// to the whole input, with `?` for one character and `*` for any number of
/// characters, case-sensitively and without escapes.
#[verifier::external_body]
fn wildmatch_matches(pattern: &str, input: &str) -> (matched: bool)
    ensures
        matched == glob_matches(pattern@, input@),
{
    WildMatch::new(pattern).matches(input)
}

/// A wildcard pattern with `*` and `?`.
pub struct Wildcard {
    pattern: String,
}

impl Wildcard {
    /// The pattern as it was given.
    pub closed spec fn pattern(&self) -> Seq<char> {
        self.pattern@
    }

    /// The matcher for `pattern`.
    pub fn new(pattern: &str) -> (wildcard: Self)
        ensures
            wildcard.pattern() == pattern@,
    {
        Wildcard { pattern: pattern.to_owned() }
    }

    /// The pattern as it was given.
    pub fn as_str(&self) -> (pattern: &str)
        ensures
            pattern@ == self.pattern(),
    {
        self.pattern.as_str()
    }
}

impl Matcher for Wildcard {
    open spec fn matches(&self, value: Seq<char>) -> bool {
        glob_matches(self.pattern(), value)
    }

    fn matches_value(&self, value: &str) -> (matched: bool) {
        wildmatch_matches(self.pattern.as_str(), value)
    }
}

} // verus!
