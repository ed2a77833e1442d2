//! Regular-expression matching, delegated to the `regex` crate.
use vstd::prelude::*;

verus! {

/// Whether the regular expression `pattern` matches somewhere in `text`; `None` when the
/// pattern does not compile.
pub uninterp spec fn spec_regex_is_match(pattern: Seq<char>, text: Seq<char>) -> Option<bool>;

/// Calls `regex::Regex::new` on the pattern and `Regex::is_match` on the text. The answer
/// depends on the pattern and the text alone; a pattern that does not compile gives `None`.
#[verifier::external_body]
pub(crate) fn regex_is_match(pattern: &str, text: &str) -> (res: Option<bool>)
    ensures
        res == spec_regex_is_match(pattern@, text@),
{
    match regex::Regex::new(pattern) {
        Ok(re) => Some(re.is_match(text)),
        Err(_) => None,
    }
}

/// Whether the pattern matches; a pattern that does not compile matches nothing.
pub fn matches_pattern(pattern: &str, text: &str) -> (res: bool)
    ensures
        res == (spec_regex_is_match(pattern@, text@) == Some(true)),
{
    match regex_is_match(pattern, text) {
        Some(b) => b,
        None => false,
    }
}

} // verus!

verus! {

/// One match of a regular expression: its byte range in the text, its text, and the text and
/// starting byte of each group (absent for a group that did not take part).
#[derive(Clone, Debug)]
pub struct RegexCapture {
    pub start: usize,
    pub end: usize,
    pub whole: String,
    pub groups: Vec<Option<String>>,
    pub group_starts: Vec<Option<usize>>,
}

/// A match as plain values: start, end, text, groups' texts, groups' starts.
pub type CaptureView = (int, int, Seq<char>, Seq<Option<Seq<char>>>, Seq<Option<int>>);

/// A match as plain values.
pub open spec fn capture_view(c: RegexCapture) -> CaptureView {
    (
        c.start as int,
        c.end as int,
        c.whole@,
        c.groups@.map_values(|g: Option<String>| match g {
            Some(s) => Some(s@),
            None => None,
        }),
        c.group_starts@.map_values(|g: Option<usize>| match g {
            Some(s) => Some(s as int),
            None => None,
        }),
    )
}

/// The successive non-overlapping matches of `pattern` in `text`; `None` when the pattern
/// does not compile.
pub uninterp spec fn spec_regex_captures(pattern: Seq<char>, text: Seq<char>) -> Option<Seq<CaptureView>>;

/// Calls `regex::Regex::new` and `Regex::captures_iter`: every non-overlapping match, left
/// to right, with its byte offsets (`Match::start`, `Match::end`) and its groups with their
/// starts. The matches depend on the pattern and the text alone; their offsets lie within
/// the text, and each group has a start exactly when it has a text.
#[verifier::external_body]
pub(crate) fn regex_captures(pattern: &str, text: &str) -> (res: Option<Vec<RegexCapture>>)
    ensures
        match res {
            Some(v) => spec_regex_captures(pattern@, text@) == Some(v@.map_values(|c: RegexCapture| capture_view(c))),
            None => spec_regex_captures(pattern@, text@) is None,
        },
        res matches Some(v) ==> forall|k: int| 0 <= k < v@.len() ==> (#[trigger] v@[k]).start <= v@[k].end
            && v@[k].end <= vstd::utf8::encode_utf8(text@).len()
            && v@[k].groups@.len() == v@[k].group_starts@.len()
            && forall|g: int| 0 <= g < v@[k].groups@.len() ==> (v@[k].groups@[g] is Some <==> v@[k].group_starts@[g] is Some)
                && (v@[k].group_starts@[g] matches Some(s) ==> s <= vstd::utf8::encode_utf8(text@).len()),
{
    regex::Regex::new(pattern).ok().map(|re| re.captures_iter(text).map(|c| RegexCapture {
        start: c.get(0).map_or(0, |m| m.start()),
        end: c.get(0).map_or(0, |m| m.end()),
        whole: c.get(0).map_or(String::new(), |m| m.as_str().to_string()),
        groups: c.iter().skip(1).map(|g| g.map(|m| m.as_str().to_string())).collect(),
        group_starts: c.iter().skip(1).map(|g| g.map(|m| m.start())).collect(),
    }).collect())
}

} // verus!
