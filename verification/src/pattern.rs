use vstd::prelude::*;

verus! {

/// The capture groups of the first match of the regular expression `pattern` in `text`:
/// group 0 is the whole match, a group that took no part is `None`. `None` when there is
/// no match (or `pattern` is no valid expression).
pub uninterp spec fn spec_regex_captures(pattern: Seq<char>, text: Seq<char>) -> Option<
    Seq<Option<Seq<char>>>,
>;

/// The capture groups of the first match of `pattern` in `text`.
///
/// Trusted: `regex::Regex::new` and `Regex::captures`; claims only that the groups are
/// `spec_regex_captures` of the arguments (named, not spelled out): what the `regex` crate
/// matches is a function of the pattern and the text alone.
#[verifier::external_body]
pub(crate) fn regex_captures(pattern: &str, text: &str) -> (r: Option<Vec<Option<String>>>)
    ensures
        r.deep_view() == spec_regex_captures(pattern@, text@),
{
    let re = regex::Regex::new(pattern).ok()?;
    let caps = re.captures(text)?;
    Some(caps.iter().map(|g| g.map(|m| m.as_str().to_string())).collect())
}

} // verus!
