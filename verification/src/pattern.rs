//! Regular-expression matching on text.
use vstd::prelude::*;

verus! {

/// The text that capture group `group` of the leftmost-first match of the
/// regular expression `pattern` in `haystack` matched, as the `regex` crate
/// computes it; `None` where there is no match, the group took no part in it,
/// or `pattern` is not a valid expression.
pub uninterp spec fn regex_capture(pattern: Seq<char>, haystack: Seq<char>, group: nat) -> Option<
    Seq<char>,
>;

/// `haystack` with the leftmost-first match of `pattern` replaced by
/// `replacement`, as `regex::Regex::replace` computes it (`haystack` itself
/// where `pattern` is not a valid expression).
pub uninterp spec fn regex_replace_first(
    pattern: Seq<char>,
    haystack: Seq<char>,
    replacement: Seq<char>,
) -> Seq<char>;

/// `regex::Regex::captures` with the expression compiled from `pattern` (by
/// `Regex::new`), reading capture group `group`. The contract claims only that
/// the result is [`regex_capture`] of the arguments.
#[verifier::external_body]
pub(crate) fn capture_group(pattern: &str, haystack: &str, group: usize) -> (r: Option<String>)
    ensures
        r.deep_view() == regex_capture(pattern@, haystack@, group as nat),
{
    match regex::Regex::new(pattern) {
        Ok(re) => re.captures(haystack).and_then(|c| c.get(group)).map(|m| m.as_str().to_string()),
        Err(_) => None,
    }
}

/// `regex::Regex::replace` with the expression compiled from `pattern`. The
/// contract claims only that the result is [`regex_replace_first`] of the
/// arguments.
#[verifier::external_body]
pub(crate) fn replace_first(pattern: &str, haystack: &str, replacement: &str) -> (r: String)
    ensures
        r@ == regex_replace_first(pattern@, haystack@, replacement@),
{
    match regex::Regex::new(pattern) {
        Ok(re) => re.replace(haystack, replacement).into_owned(),
        Err(_) => haystack.to_string(),
    }
}

} // verus!
