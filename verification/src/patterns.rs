//! Regular expressions: the calls into the `regex` crate that the
//! library makes, and names for what they give back.
use vstd::prelude::*;

verus! {

/// What `Regex::replace_all` gives for the pattern `pattern` on `text`
/// with the replacement `rep`, or `None` where `Regex::new` refuses the
/// pattern.
pub uninterp spec fn regex_replaced(pattern: Seq<char>, text: Seq<char>, rep: Seq<char>) -> Option<Seq<char>>;

/// Compiles `pattern` with `regex::Regex::new` and replaces every match
/// in `text` with `rep` by `Regex::replace_all`. Stated: the result is
/// the named `regex_replaced` of the three texts. Left unsaid: what the
/// regular-expression engine matches.
#[verifier::external_body]
pub(crate) fn regex_replace_all(pattern: &str, text: &str, rep: &str) -> (r: Option<String>)
    ensures
        match r {
            Some(s) => regex_replaced(pattern@, text@, rep@) == Some(s@),
            None => regex_replaced(pattern@, text@, rep@) is None,
        },
{
    match regex::Regex::new(pattern) {
        Ok(re) => Some(re.replace_all(text, rep).into_owned()),
        Err(_) => None,
    }
}

/// What `Regex::is_match` gives for the pattern `pattern` on `text`, or
/// `None` where `Regex::new` refuses the pattern.
pub uninterp spec fn regex_matched(pattern: Seq<char>, text: Seq<char>) -> Option<bool>;

/// Compiles `pattern` with `regex::Regex::new` and tells by
/// `Regex::is_match` whether it matches somewhere in `text`. Stated: the
/// result is the named `regex_matched` of the two texts. Left unsaid: what
/// the regular-expression engine matches.
#[verifier::external_body]
pub(crate) fn regex_is_match(pattern: &str, text: &str) -> (r: Option<bool>)
    ensures
        r == regex_matched(pattern@, text@),
{
    match regex::Regex::new(pattern) {
        Ok(re) => Some(re.is_match(text)),
        Err(_) => None,
    }
}

/// The views of optional strings: a capture group's text, or `None` where
/// the group took no part in the match.
pub open spec fn group_views(v: Seq<Option<String>>) -> Seq<Option<Seq<char>>> {
    Seq::new(
        v.len(),
        |i: int|
            match v[i] {
                Some(s) => Some(s@),
                None => None,
            },
    )
}

/// What `Regex::find_iter` gives for the pattern `pattern` on `text`: the
/// texts of the successive matches, or `None` where `Regex::new` refuses
/// the pattern.
pub uninterp spec fn regex_found(pattern: Seq<char>, text: Seq<char>) -> Option<Seq<Seq<char>>>;

/// Compiles `pattern` with `regex::Regex::new` and collects the text of
/// each match that `Regex::find_iter` gives on `text`, in order. Stated:
/// the result is the named `regex_found` of the two texts. Left unsaid:
/// what the regular-expression engine matches.
#[verifier::external_body]
pub(crate) fn regex_find_all(pattern: &str, text: &str) -> (r: Option<Vec<String>>)
    ensures
        match r {
            Some(v) => regex_found(pattern@, text@) == Some(crate::text::string_views(v@)),
            None => regex_found(pattern@, text@) is None,
        },
{
    match regex::Regex::new(pattern) {
        Ok(re) => Some(re.find_iter(text).map(|m| m.as_str().to_string()).collect()),
        Err(_) => None,
    }
}

/// What `Regex::captures` gives for the pattern `pattern` on `text`: the
/// groups of the first match (group 0 being the whole match), `Some(None)`
/// where nothing matches, and `None` where `Regex::new` refuses the
/// pattern.
pub uninterp spec fn regex_groups(pattern: Seq<char>, text: Seq<char>) -> Option<Option<Seq<Option<Seq<char>>>>>;

/// Compiles `pattern` with `regex::Regex::new` and takes the groups of the
/// first match of `Regex::captures` on `text`. Stated: the result is the
/// named `regex_groups` of the two texts. Left unsaid: what the
/// regular-expression engine matches.
#[verifier::external_body]
pub(crate) fn regex_captures(pattern: &str, text: &str) -> (r: Option<Option<Vec<Option<String>>>>)
    ensures
        match r {
            Some(Some(v)) => regex_groups(pattern@, text@) == Some(Some(group_views(v@))),
            Some(None) => regex_groups(pattern@, text@) == Some(None::<Seq<Option<Seq<char>>>>),
            None => regex_groups(pattern@, text@) is None,
        },
{
    match regex::Regex::new(pattern) {
        Ok(re) => Some(re.captures(text).map(|c| c.iter().map(|g| g.map(|m| m.as_str().to_string())).collect())),
        Err(_) => None,
    }
}

/// What `Regex::captures_iter` gives for the pattern `pattern` on `text`:
/// the groups of each successive match, or `None` where `Regex::new`
/// refuses the pattern.
pub uninterp spec fn regex_all_groups(pattern: Seq<char>, text: Seq<char>) -> Option<Seq<Seq<Option<Seq<char>>>>>;

/// Compiles `pattern` with `regex::Regex::new` and takes the groups of
/// each match that `Regex::captures_iter` gives on `text`, in order.
/// Stated: the result is the named `regex_all_groups` of the two texts.
/// Left unsaid: what the regular-expression engine matches.
#[verifier::external_body]
pub(crate) fn regex_captures_all(pattern: &str, text: &str) -> (r: Option<Vec<Vec<Option<String>>>>)
    ensures
        match r {
            Some(v) => regex_all_groups(pattern@, text@) == Some(
                Seq::new(v@.len(), |i: int| group_views(v@[i]@)),
            ),
            None => regex_all_groups(pattern@, text@) is None,
        },
{
    match regex::Regex::new(pattern) {
        Ok(re) => Some(
            re.captures_iter(text).map(|c| c.iter().map(|g| g.map(|m| m.as_str().to_string())).collect()).collect(),
        ),
        Err(_) => None,
    }
}

} // verus!
