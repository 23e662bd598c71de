//! Regular-expression searches. Each call compiles its pattern and runs one
//! search of the `regex` crate; what a search finds is named, not restated.
use vstd::prelude::*;
use vstd::utf8::{encode_utf8, is_char_boundary};

verus! {

/// One capture group of a match as the engine reports it: start and end byte
/// offsets in the searched text and the text it covers; `None` where the group
/// took no part in the match.
pub type Group = Option<(usize, usize, String)>;

/// A capture group seen as plain values.
pub open spec fn group_view(g: Group) -> Option<(usize, usize, Seq<char>)> {
    match g {
        Some(t) => Some((t.0, t.1, t.2@)),
        None => None,
    }
}

/// The groups of one match seen as plain values.
pub open spec fn groups_view(c: Vec<Group>) -> Seq<Option<(usize, usize, Seq<char>)>> {
    c@.map_values(|g: Group| group_view(g))
}

/// All matches seen as plain values.
pub open spec fn matches_view(all: Vec<Vec<Group>>) -> Seq<Seq<Option<(usize, usize, Seq<char>)>>> {
    all@.map_values(|c: Vec<Group>| groups_view(c))
}

/// Group `k` of a match: `None` past the last group, as `Captures::get` has it.
pub open spec fn group_at(c: Seq<Option<(usize, usize, Seq<char>)>>, k: int) -> Option<(usize, usize, Seq<char>)> {
    if 0 <= k < c.len() {
        c[k]
    } else {
        None
    }
}

/// What the engine guarantees of every match in `text`: group 0 (the whole
/// match) is present, and each group's offsets are ordered and within the
/// text's UTF-8 bytes.
pub open spec fn well_placed(text: Seq<char>, c: Seq<Option<(usize, usize, Seq<char>)>>) -> bool {
    &&& c.len() > 0
    &&& c[0] is Some
    &&& forall|k: int|
        0 <= k < c.len() ==> match #[trigger] c[k] {
            Some(g) => g.0 <= g.1 <= encode_utf8(text).len(),
            None => true,
        }
}

/// The successive non-overlapping matches of `pattern` in `text`, each with its
/// capture groups; `None` where the pattern does not compile.
pub uninterp spec fn regex_captures_iter(pattern: Seq<char>, text: Seq<char>) -> Option<Seq<Seq<Option<(usize, usize, Seq<char>)>>>>;

/// The leftmost-first match of `pattern` in `text` with its capture groups
/// (inner `None`: no match); `None` where the pattern does not compile.
pub uninterp spec fn regex_captures(pattern: Seq<char>, text: Seq<char>) -> Option<Option<Seq<Option<(usize, usize, Seq<char>)>>>>;

/// The start and end byte offsets of the leftmost-first match of `pattern` in
/// `text` (inner `None`: no match); `None` where the pattern does not compile.
pub uninterp spec fn regex_find(pattern: Seq<char>, text: Seq<char>) -> Option<Option<(usize, usize)>>;

/// `text` with every non-overlapping match of `pattern` replaced by the
/// expansion of `replacement` (`$1`, `${1}` name groups); `None` where the
/// pattern does not compile.
pub uninterp spec fn regex_replace_all(pattern: Seq<char>, text: Seq<char>, replacement: Seq<char>) -> Option<Seq<char>>;

/// Whether any pattern of the set matches `text`; `None` where a pattern does
/// not compile.
pub uninterp spec fn regex_set_is_match(patterns: Seq<Seq<char>>, text: Seq<char>) -> Option<bool>;

pub open spec fn opt_matches_view(r: Option<Vec<Vec<Group>>>) -> Option<Seq<Seq<Option<(usize, usize, Seq<char>)>>>> {
    match r {
        Some(all) => Some(matches_view(all)),
        None => None,
    }
}

pub open spec fn opt_first_view(r: Option<Option<Vec<Group>>>) -> Option<Option<Seq<Option<(usize, usize, Seq<char>)>>>> {
    match r {
        Some(Some(c)) => Some(Some(groups_view(c))),
        Some(None) => Some(None),
        None => None,
    }
}

/// `Regex::new(pattern)` then `Regex::captures_iter(text)`: the result is the
/// named one, and every match is placed as the crate documents (group 0 always
/// present, `start <= end <= text.len()`).
#[verifier::external_body]
pub(crate) fn captures_iter(pattern: &str, text: &str) -> (r: Option<Vec<Vec<Group>>>)
    ensures
        opt_matches_view(r) == regex_captures_iter(pattern@, text@),
        r matches Some(all) ==> forall|i: int| 0 <= i < all@.len() ==> well_placed(text@, #[trigger] groups_view(all@[i])),
{
    let re = match regex::Regex::new(pattern) {
        Ok(re) => re,
        Err(_) => return None,
    };
    let mut out = Vec::new();
    for caps in re.captures_iter(text) {
        let mut groups = Vec::new();
        for g in caps.iter() {
            groups.push(match g { Some(m) => Some((m.start(), m.end(), m.as_str().to_string())), None => None });
        }
        out.push(groups);
    }
    Some(out)
}

/// `Regex::new(pattern)` then `Regex::captures(text)`: the result is the named
/// one, and a match is placed as the crate documents.
#[verifier::external_body]
pub(crate) fn captures(pattern: &str, text: &str) -> (r: Option<Option<Vec<Group>>>)
    ensures
        opt_first_view(r) == regex_captures(pattern@, text@),
        r matches Some(Some(c)) ==> well_placed(text@, groups_view(c)),
{
    let re = match regex::Regex::new(pattern) {
        Ok(re) => re,
        Err(_) => return None,
    };
    let caps = match re.captures(text) {
        Some(caps) => caps,
        None => return Some(None),
    };
    let mut groups = Vec::new();
    for g in caps.iter() {
        groups.push(match g { Some(m) => Some((m.start(), m.end(), m.as_str().to_string())), None => None });
    }
    Some(Some(groups))
}

/// `Regex::new(pattern)` then `Regex::find(text)`: the result is the named one,
/// and a match has `start <= end <= text.len()` with `start` on a character
/// boundary, as the crate documents.
#[verifier::external_body]
pub(crate) fn find(pattern: &str, text: &str) -> (r: Option<Option<(usize, usize)>>)
    ensures
        r == regex_find(pattern@, text@),
        r matches Some(Some(m)) ==> m.0 <= m.1 <= encode_utf8(text@).len() && is_char_boundary(encode_utf8(text@), m.0 as int),
{
    match regex::Regex::new(pattern) {
        Ok(re) => Some(re.find(text).map(|m| (m.start(), m.end()))),
        Err(_) => None,
    }
}

/// `Regex::new(pattern)` then `Regex::replace_all(text, replacement)`: the result
/// is the named one.
#[verifier::external_body]
pub(crate) fn replace_all(pattern: &str, text: &str, replacement: &str) -> (r: Option<String>)
    ensures
        match r {
            Some(s) => regex_replace_all(pattern@, text@, replacement@) == Some(s@),
            None => regex_replace_all(pattern@, text@, replacement@) is None,
        },
{
    match regex::Regex::new(pattern) {
        Ok(re) => Some(re.replace_all(text, replacement).into_owned()),
        Err(_) => None,
    }
}

pub open spec fn strs_view(v: Vec<&str>) -> Seq<Seq<char>> {
    v@.map_values(|s: &str| s@)
}

/// `RegexSet::new(patterns)` then `RegexSet::is_match(text)`: the result is the
/// named one.
#[verifier::external_body]
pub(crate) fn set_is_match(patterns: &Vec<&str>, text: &str) -> (r: Option<bool>)
    ensures
        r == regex_set_is_match(strs_view(*patterns), text@),
{
    match regex::RegexSet::new(patterns.iter()) {
        Ok(set) => Some(set.is_match(text)),
        Err(_) => None,
    }
}

} // verus!
