//! Regular expressions, as the `regex` crate matches them.
use vstd::prelude::*;
use vstd::string::*;
use crate::allowlist::ConfigError;

verus! {

/// The capture groups of one match, group 0 (the whole match) first: for
/// each group that took part, the byte offset at which it starts and the
/// text that it matched.
pub type Captures = Vec<Option<(usize, String)>>;

/// The capture groups of one match, with their texts as characters.
pub type MatchView = Seq<Option<(usize, Seq<char>)>>;

/// All matches of a pattern in a text, as the `regex` crate finds them: the
/// successive non-overlapping matches from left to right, each with its
/// capture groups. `None` where the pattern is not a regular expression that
/// the crate accepts.
pub uninterp spec fn regex_captures(pattern: Seq<char>, text: Seq<char>) -> Option<
    Seq<Seq<Option<(usize, Seq<char>)>>>,
>;

/// Whether every group of every match starts inside a text of `len` bytes,
/// or at its end.
pub open spec fn groups_within(matches: Seq<Seq<Option<(usize, Seq<char>)>>>, len: int) -> bool {
    forall|i: int, k: int|
        0 <= i < matches.len() && 0 <= k < matches[i].len() ==> match #[trigger] matches[i][k] {
            Some(g) => g.0 <= len,
            None => true,
        }
}

/// `Regex::new` and `Regex::captures_iter` of the `regex` crate: compiles
/// `pattern` and collects every match in `text` with its capture groups.
///
/// The contract gives the result a name, `regex_captures`, and claims that
/// no group starts behind the end of the text. Nothing else is known of it.
#[verifier::external_body]
pub(crate) fn captures_of(pattern: &str, text: &str) -> (res: Option<Vec<Captures>>)
    ensures
        res.deep_view() == regex_captures(pattern@, text@),
        match res {
            Some(matches) => groups_within(matches.deep_view(), text.spec_bytes().len() as int),
            None => true,
        },
{
    let re = regex::Regex::new(pattern).ok()?;
    Some(
        re.captures_iter(text).map(
            |c| c.iter().map(|g| g.map(|m| (m.start(), m.as_str().to_string()))).collect(),
        ).collect(),
    )
}

/// The text of group `k` of a match, if the group took part in it.
pub open spec fn group_text(m: Seq<Option<(usize, Seq<char>)>>, k: int) -> Option<Seq<char>> {
    if 0 <= k < m.len() {
        match m[k] {
            Some(g) => Some(g.1),
            None => None,
        }
    } else {
        None
    }
}

/// The byte offset at which a match starts.
pub open spec fn match_start(m: Seq<Option<(usize, Seq<char>)>>) -> usize {
    if 0 < m.len() {
        match m[0] {
            Some(g) => g.0,
            None => 0,
        }
    } else {
        0
    }
}

/// The text of group `k` of a match.
pub fn group<'a>(m: &'a Captures, k: usize) -> (r: Option<&'a str>)
    ensures
        match r {
            Some(s) => group_text(m.deep_view(), k as int) == Some(s@),
            None => group_text(m.deep_view(), k as int) is None,
        },
{
    if k < m.len() {
        match &m[k] {
            Some(g) => Some(g.1.as_str()),
            None => None,
        }
    } else {
        None
    }
}

/// The byte offset at which a match starts.
pub fn start_of(m: &Captures) -> (r: usize)
    ensures
        r == match_start(m.deep_view()),
{
    if 0 < m.len() {
        match &m[0] {
            Some(g) => g.0,
            None => 0,
        }
    } else {
        0
    }
}

/// Finds every match of `pattern` in `text`, each with its capture groups.
/// A pattern that is not a regular expression is an error.
pub fn find_captures(pattern: &str, text: &str) -> (res: Result<Vec<Captures>, ConfigError>)
    ensures
        match res {
            Ok(matches) => regex_captures(pattern@, text@) == Some(matches.deep_view())
                && groups_within(matches.deep_view(), text.spec_bytes().len() as int),
            Err(e) => e == ConfigError::InvalidPattern && regex_captures(pattern@, text@) is None,
        },
{
    match captures_of(pattern, text) {
        Some(matches) => Ok(matches),
        None => Err(ConfigError::InvalidPattern),
    }
}

} // verus!
