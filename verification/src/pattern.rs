//! The calls into the `regex` crate. Nothing here is proved: each function
//! states what the crate's matcher is trusted to return, by name.

use vstd::prelude::*;
use regex::Regex;

verus! {

/// One match with the two capture groups that the declaration patterns have:
/// the text of group 1 and of group 2, each absent where the group took no
/// part in the match.
pub type Groups = (Option<String>, Option<String>);

/// One match with its surroundings: the text before it, the match itself,
/// the text of group 1 (absent where it took no part), and the text after it.
pub type Found = (String, String, Option<String>, String);

/// The view of an optional string.
pub open spec fn opt_view(s: Option<String>) -> Option<Seq<char>> {
    match s {
        Some(t) => Some(t@),
        None => None,
    }
}

/// The views of a list of matches.
pub open spec fn groups_view(v: Seq<Groups>) -> Seq<(Option<Seq<char>>, Option<Seq<char>>)> {
    Seq::new(v.len(), |i: int| (opt_view(v[i].0), opt_view(v[i].1)))
}

/// The view of a match with its surroundings.
pub open spec fn found_view(f: Found) -> (Seq<char>, Seq<char>, Option<Seq<char>>, Seq<char>) {
    (f.0@, f.1@, opt_view(f.2), f.3@)
}

/// What `Regex::captures_iter` yields for `pattern` on `text`: for each of
/// the successive non-overlapping matches, in order, the texts of groups 1
/// and 2. `None` where `pattern` does not compile.
pub uninterp spec fn regex_captures(pattern: Seq<char>, text: Seq<char>) -> Option<
    Seq<(Option<Seq<char>>, Option<Seq<char>>)>,
>;

/// What `Regex::captures` finds for `pattern` in `text`: the leftmost match,
/// as the text before it, the match, group 1 and the text after it. `None`
/// where `pattern` does not compile or matches nowhere.
pub uninterp spec fn regex_first(pattern: Seq<char>, text: Seq<char>) -> Option<
    (Seq<char>, Seq<char>, Option<Seq<char>>, Seq<char>),
>;

/// What `Regex::replace_all` makes of `text` for `pattern` and the
/// replacement `rep`. `None` where `pattern` does not compile.
pub uninterp spec fn regex_replaced(pattern: Seq<char>, text: Seq<char>, rep: Seq<char>) -> Option<
    Seq<char>,
>;

/// Compiles `pattern` with `Regex::new` and walks `text` with
/// `Regex::captures_iter`, copying out groups 1 and 2 of every match.
/// Trusted: the result is what the crate's matcher yields, named
/// `regex_captures`; a pattern that `Regex::new` refuses gives `None`.
#[verifier::external_body]
pub(crate) fn all_captures(pattern: &str, text: &str) -> (r: Option<Vec<Groups>>)
    ensures
        match r {
            Some(v) => regex_captures(pattern@, text@) == Some(groups_view(v@)),
            None => regex_captures(pattern@, text@) is None,
        },
{
    let re = Regex::new(pattern).ok()?;
    Some(
        re.captures_iter(text).map(
            |c| (
                c.get(1).map(|m| m.as_str().to_string()),
                c.get(2).map(|m| m.as_str().to_string()),
            ),
        ).collect(),
    )
}

/// Compiles `pattern` with `Regex::new` and searches `text` with
/// `Regex::captures`, cutting `text` at the byte offsets of the match.
/// Trusted: the result is what the crate's matcher finds, named
/// `regex_first`, and the three pieces around and of the match make up
/// `text` again, since the offsets of a match delimit it in the haystack.
#[verifier::external_body]
pub(crate) fn first_capture(pattern: &str, text: &str) -> (r: Option<Found>)
    ensures
        match r {
            Some(f) => regex_first(pattern@, text@) == Some(found_view(f)) && f.0@ + f.1@ + f.3@
                == text@,
            None => regex_first(pattern@, text@) is None,
        },
{
    let re = Regex::new(pattern).ok()?;
    let caps = re.captures(text)?;
    let whole = caps.get_match();
    Some(
        (
            text[..whole.start()].to_string(),
            whole.as_str().to_string(),
            caps.get(1).map(|m| m.as_str().to_string()),
            text[whole.end()..].to_string(),
        ),
    )
}

/// Compiles `pattern` with `Regex::new` and rewrites `text` with
/// `Regex::replace_all`. Trusted: the result is what the crate returns,
/// named `regex_replaced`; a pattern that `Regex::new` refuses gives `None`.
#[verifier::external_body]
pub(crate) fn replace_every(pattern: &str, text: &str, rep: &str) -> (r: Option<String>)
    ensures
        opt_view(r) == regex_replaced(pattern@, text@, rep@),
{
    let re = Regex::new(pattern).ok()?;
    Some(re.replace_all(text, rep).into_owned())
}

} // verus!
