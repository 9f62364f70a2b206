//! Hostname filters: regular expressions, matched by the `regex` crate, that
//! narrow a report or a work list to some of the hosts.

use vstd::prelude::*;

verus! {

/// Whether `regex` accepts `pattern` as a regular expression.
pub uninterp spec fn regex_valid(pattern: Seq<char>) -> bool;

/// Whether the regular expression `pattern` matches somewhere in `text`.
pub uninterp spec fn regex_matches(pattern: Seq<char>, text: Seq<char>) -> bool;

/// Compiles `pattern` with `regex::Regex::new` and searches `text` with
/// `Regex::is_match`.
///
/// Trusted: whether the pattern compiles depends on the pattern alone, and
/// whether the compiled expression matches depends on the pattern and the
/// text alone. `None` stands for a pattern that does not compile.
#[verifier::external_body]
pub(crate) fn regex_search(pattern: &str, text: &str) -> (r: Option<bool>)
    ensures
        r is Some <==> regex_valid(pattern@),
        r matches Some(found) ==> found == regex_matches(pattern@, text@),
{
    match regex::Regex::new(pattern) {
        Ok(re) => Some(re.is_match(text)),
        Err(_) => None,
    }
}

/// Tells whether `hostname` passes the filter `pattern`; `None` where
/// `pattern` is no regular expression.
pub fn hostname_matches(pattern: &str, hostname: &str) -> (r: Option<bool>)
    ensures
        r == if regex_valid(pattern@) {
            Some(regex_matches(pattern@, hostname@))
        } else {
            None::<bool>
        },
{
    regex_search(pattern, hostname)
}

/// Tells whether `pattern` is a regular expression.
pub fn is_valid_filter(pattern: &str) -> (valid: bool)
    ensures
        valid == regex_valid(pattern@),
{
    regex_search(pattern, "").is_some()
}

} // verus!
