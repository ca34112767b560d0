//! The calls into the `regex` crate, each behind a small trusted wrapper
//! whose contract names what the crate computes.

use vstd::prelude::*;
use crate::text::opt_str;

verus! {

/// What the leftmost-first match of `pattern` (regex syntax) in `text` is.
pub uninterp spec fn regex_first_match(pattern: Seq<char>, text: Seq<char>) -> Option<Seq<char>>;

/// `regex::Regex::new(pattern)` then `find(text)`: the matched text.
/// Claimed: the result is `regex_first_match` of the two texts, a function
/// of them alone (`None` also for a pattern that does not compile).
#[verifier::external_body]
pub(crate) fn regex_find(pattern: &str, text: &str) -> (r: Option<String>)
    ensures
        opt_str(r) == regex_first_match(pattern@, text@),
{
    match regex::Regex::new(pattern) {
        Ok(re) => match re.find(text) {
            Some(m) => Some(m.as_str().to_string()),
            None => None,
        },
        Err(_) => None,
    }
}

/// The capture groups of the leftmost-first match of `pattern` in `text`:
/// group 0 is the whole match, a group that took no part is `None`.
pub uninterp spec fn regex_groups(pattern: Seq<char>, text: Seq<char>) -> Option<Seq<Option<Seq<char>>>>;

/// `regex::Regex::new(pattern)` then `captures(text)`, the text of each
/// group. Claimed: the result is `regex_groups` of the two texts, a
/// function of them alone (`None` also for a pattern that does not
/// compile).
#[verifier::external_body]
pub(crate) fn regex_captures(pattern: &str, text: &str) -> (r: Option<Vec<Option<String>>>)
    ensures
        match r {
            Some(v) => regex_groups(pattern@, text@) == Some(v@.map_values(|g: Option<String>| opt_str(g))),
            None => regex_groups(pattern@, text@) is None,
        },
{
    match regex::Regex::new(pattern) {
        Ok(re) => re.captures(text).map(|c| c.iter().map(|g| g.map(|m| m.as_str().to_string())).collect()),
        Err(_) => None,
    }
}

/// Group `i` of a match's groups (`None` without a match, past the last
/// group, or for a group that took no part).
pub open spec fn group_of(groups: Option<Seq<Option<Seq<char>>>>, i: int) -> Option<Seq<char>> {
    match groups {
        Some(g) => if 0 <= i < g.len() {
            g[i]
        } else {
            None
        },
        None => None,
    }
}

/// The text of group `i` of the leftmost-first match.
pub fn capture_group(pattern: &str, text: &str, i: usize) -> (r: Option<String>)
    ensures
        opt_str(r) == group_of(regex_groups(pattern@, text@), i as int),
{
    match regex_captures(pattern, text) {
        Some(v) => {
            if i < v.len() {
                let ghost gv = v@.map_values(|g: Option<String>| opt_str(g));
                assert(gv[i as int] == opt_str(v@[i as int]));
                match &v[i] {
                    Some(s) => Some(s.clone()),
                    None => None,
                }
            } else {
                None
            }
        },
        None => None,
    }
}

/// `regex::Regex::new(pattern)` then `is_match(text)`. Claimed, as the
/// crate documents: there is a match exactly when `find` has one, so the
/// result is whether `regex_first_match` is `Some` (`false` also for a
/// pattern that does not compile, where `find` gives `None` too).
#[verifier::external_body]
pub(crate) fn regex_is_match(pattern: &str, text: &str) -> (r: bool)
    ensures
        r == regex_first_match(pattern@, text@) is Some,
{
    match regex::Regex::new(pattern) {
        Ok(re) => re.is_match(text),
        Err(_) => false,
    }
}

/// Whether `pattern` compiles as a regex (syntax and size limits).
pub uninterp spec fn regex_valid(pattern: Seq<char>) -> bool;

/// `regex::Regex::new(pattern).is_ok()`. Claimed: the result is
/// `regex_valid` of the pattern, a function of it alone.
#[verifier::external_body]
pub(crate) fn regex_compiles(pattern: &str) -> (r: bool)
    ensures
        r == regex_valid(pattern@),
{
    regex::Regex::new(pattern).is_ok()
}

/// The characters that have a meaning in regex syntax.
pub open spec fn is_meta_char(c: char) -> bool {
    c == '\\' || c == '.' || c == '+' || c == '*' || c == '?' || c == '(' || c == ')' || c
        == '|' || c == '[' || c == ']' || c == '{' || c == '}' || c == '^' || c == '$' || c
        == '#' || c == '&' || c == '-' || c == '~'
}

/// A character as a regex literal: meta characters get a backslash.
pub open spec fn escaped(c: char) -> Seq<char> {
    if is_meta_char(c) {
        seq!['\\', c]
    } else {
        seq![c]
    }
}

/// `regex::escape` on the one-character text `c`. Claimed, as the crate's
/// source shows (a backslash before each meta character, the character
/// itself after it): the result is `escaped(c)`.
#[verifier::external_body]
pub(crate) fn escape_char(c: char) -> (r: String)
    ensures
        r@ == escaped(c),
{
    regex::escape(&c.to_string())
}

} // verus!
