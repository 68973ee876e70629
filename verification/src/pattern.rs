//! Regular expressions, as the `regex` crate matches them.
//!
//! What a pattern matches is the crate's business and is not restated here:
//! each result has a name, and the functions of this library say what they
//! do with it.

use vstd::prelude::*;
use regex::Regex;

verus! {

/// Whether `pattern` matches anywhere in `haystack`; `None` where `pattern`
/// is not a regular expression that the crate accepts.
pub uninterp spec fn regex_is_match(pattern: Seq<char>, haystack: Seq<char>) -> Option<bool>;

/// Compiles `pattern` with `Regex::new` and asks `Regex::is_match` whether it
/// matches anywhere in `haystack`. The answer depends on the two texts alone;
/// a pattern that does not compile gives `None`.
#[verifier::external_body]
pub(crate) fn is_match(pattern: &str, haystack: &str) -> (found: Option<bool>)
    ensures
        found == regex_is_match(pattern@, haystack@),
{
    match Regex::new(pattern) {
        Ok(re) => Some(re.is_match(haystack)),
        Err(_) => None,
    }
}

/// `haystack` with the first match of `pattern` replaced by `replacement`,
/// in which `$` refers to capture groups; `None` where `pattern` is not a
/// regular expression that the crate accepts.
pub uninterp spec fn regex_replace(
    pattern: Seq<char>,
    haystack: Seq<char>,
    replacement: Seq<char>,
) -> Option<Seq<char>>;

/// Compiles `pattern` with `Regex::new` and has `Regex::replace` replace its
/// first match in `haystack`. The text that comes back depends on the three
/// texts alone; a pattern that does not compile gives `None`.
#[verifier::external_body]
pub(crate) fn replace_first(pattern: &str, haystack: &str, replacement: &str) -> (replaced: Option<
    String,
>)
    ensures
        match replaced {
            Some(text) => regex_replace(pattern@, haystack@, replacement@) == Some(text@),
            None => regex_replace(pattern@, haystack@, replacement@) is None,
        },
{
    match Regex::new(pattern) {
        Ok(re) => Some(re.replace(haystack, replacement).into_owned()),
        Err(_) => None,
    }
}

/// `haystack` with every match of `pattern` replaced by `replacement`, in
/// which `$` refers to capture groups; `None` where `pattern` is not a
/// regular expression that the crate accepts.
pub uninterp spec fn regex_replace_all(
    pattern: Seq<char>,
    haystack: Seq<char>,
    replacement: Seq<char>,
) -> Option<Seq<char>>;

/// Compiles `pattern` with `Regex::new` and has `Regex::replace_all` replace
/// all its matches in `haystack`. The text that comes back depends on the
/// three texts alone; a pattern that does not compile gives `None`.
#[verifier::external_body]
pub(crate) fn replace_all(pattern: &str, haystack: &str, replacement: &str) -> (replaced: Option<
    String,
>)
    ensures
        match replaced {
            Some(text) => regex_replace_all(pattern@, haystack@, replacement@) == Some(text@),
            None => regex_replace_all(pattern@, haystack@, replacement@) is None,
        },
{
    match Regex::new(pattern) {
        Ok(re) => Some(re.replace_all(haystack, replacement).into_owned()),
        Err(_) => None,
    }
}

/// The text of the first match of `pattern` in `haystack`, or `None` inside
/// where there is no match; `None` outside where `pattern` is not a regular
/// expression that the crate accepts.
pub uninterp spec fn regex_find(pattern: Seq<char>, haystack: Seq<char>) -> Option<
    Option<Seq<char>>,
>;

/// Compiles `pattern` with `Regex::new` and has `Regex::find` search for its
/// first match in `haystack`; of the match only the matched text is kept. The
/// result depends on the two texts alone; a pattern that does not compile
/// gives `None`.
#[verifier::external_body]
pub(crate) fn find(pattern: &str, haystack: &str) -> (found: Option<Option<String>>)
    ensures
        match found {
            Some(Some(text)) => regex_find(pattern@, haystack@) == Some(Some(text@)),
            Some(None) => regex_find(pattern@, haystack@) == Some(None::<Seq<char>>),
            None => regex_find(pattern@, haystack@) is None,
        },
{
    match Regex::new(pattern) {
        Ok(re) => match re.find(haystack) {
            Some(m) => Some(Some(m.as_str().to_string())),
            None => Some(None),
        },
        Err(_) => None,
    }
}

/// The text of the first match of `pattern` in `haystack`, if the pattern is
/// valid and matches.
pub open spec fn first_match(pattern: Seq<char>, haystack: Seq<char>) -> Option<Seq<char>> {
    match regex_find(pattern, haystack) {
        Some(Some(text)) => Some(text),
        _ => None,
    }
}

/// Finds `first_match`.
pub fn find_first(pattern: &str, haystack: &str) -> (found: Option<String>)
    ensures
        match found {
            Some(text) => first_match(pattern@, haystack@) == Some(text@),
            None => first_match(pattern@, haystack@) is None,
        },
{
    match find(pattern, haystack) {
        Some(Some(text)) => Some(text),
        _ => None,
    }
}

} // verus!
