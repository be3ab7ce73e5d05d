//! Regular-expression matching, done by the `regex` crate. Results are named by
//! functions of the pattern and the text; the regex grammar is not restated.
use vstd::prelude::*;

verus! {

/// Whether the pattern compiles (`regex::Regex::new`) and matches somewhere in the
/// text (`Regex::is_match`); `None` when it does not compile.
pub uninterp spec fn spec_regex_is_match(pattern: Seq<char>, text: Seq<char>) -> Option<bool>;

/// The capture groups of the leftmost-first match (`Regex::captures`), group 0 being
/// the whole match and a group that took no part being `None`; `None` when the
/// pattern does not compile or nothing matches.
pub uninterp spec fn spec_regex_captures(pattern: Seq<char>, text: Seq<char>) -> Option<
    Seq<Option<Seq<char>>>,
>;

pub open spec fn groups_view(g: Seq<Option<String>>) -> Seq<Option<Seq<char>>> {
    g.map_values(
        |o: Option<String>|
            match o {
                Some(s) => Some(s@),
                None => None,
            },
    )
}

pub open spec fn caps_view(r: Option<Vec<Option<String>>>) -> Option<Seq<Option<Seq<char>>>> {
    match r {
        Some(v) => Some(groups_view(v@)),
        None => None,
    }
}

/// `regex::Regex::new(pattern)` then `Regex::is_match(text)`.
#[verifier::external_body]
pub(crate) fn regex_is_match(pattern: &str, text: &str) -> (r: Option<bool>)
    ensures
        r == spec_regex_is_match(pattern@, text@),
{
    match regex::Regex::new(pattern) {
        Ok(re) => Some(re.is_match(text)),
        Err(_) => None,
    }
}

/// `regex::Regex::new(pattern)` then `Regex::captures(text)`, each group's text.
#[verifier::external_body]
pub(crate) fn regex_captures(pattern: &str, text: &str) -> (r: Option<Vec<Option<String>>>)
    ensures
        caps_view(r) == spec_regex_captures(pattern@, text@),
{
    let re = regex::Regex::new(pattern).ok()?;
    let caps = re.captures(text)?;
    Some(caps.iter().map(|m| m.map(|m| m.as_str().to_string())).collect())
}

/// Capture group `g`, when the group exists and took part in the match.
pub open spec fn group(caps: Seq<Option<Seq<char>>>, g: int) -> Option<Seq<char>> {
    if 0 <= g < caps.len() {
        caps[g]
    } else {
        None
    }
}

/// A copy of capture group `g` (see [`group`]).
pub fn get_group(caps: &Vec<Option<String>>, g: usize) -> (r: Option<String>)
    ensures
        crate::models::opt_view(r) == group(groups_view(caps@), g as int),
{
    if g < caps.len() {
        match &caps[g] {
            Some(s) => Some(s.clone()),
            None => None,
        }
    } else {
        None
    }
}

} // verus!
