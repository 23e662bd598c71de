//! Tempo, key and category read from sample file names and directory paths
//! (no audio is decoded).
use vstd::prelude::*;
use vstd::utf8::encode_utf8;
use crate::patterns::{captures, captures_iter, find, group_at, groups_view, matches_view, regex_captures, regex_captures_iter, regex_find, regex_replace_all, regex_set_is_match, replace_all, set_is_match, strs_view, Group};
use crate::text::{ascii_lower, ascii_lower_char, char_upper, chars_of, contains_seq, contains_str, eq_ignore_ascii_case, lower_case, opt_view, owned, push_char, push_str, same_ignoring_case, str_eq, trim, trim_ws, unicode_lower, unicode_upper};
use vstd::utf8::is_char_boundary;

verus! {

// ---------------------------------------------------------------------------
// Tempo
// ---------------------------------------------------------------------------

/// Two or three digits before a `bpm` marker (group 1), in square brackets
/// (group 2), or between delimiters `_`, white space, `-` or the ends (group 3).
pub const BPM_PATTERN: &'static str = "(\\d{2,3})\\s*[Bb][Pp][Mm]|\\[(\\d{2,3})\\]|(?:^|[_\\s\\-])(\\d{2,3})(?:[_\\s\\-]|$)";

/// The value of a run of ASCII digits.
pub open spec fn digits_value(d: Seq<char>) -> int
    decreases d.len(),
{
    if d.len() == 0 {
        0
    } else {
        digits_value(d.drop_last()) * 10 + (d.last() as int - 48)
    }
}

pub open spec fn all_ascii_digits(d: Seq<char>) -> bool {
    forall|i: int| 0 <= i < d.len() ==> '0' <= #[trigger] d[i] <= '9'
}

/// `str::parse::<u32>`: an optional `+`, then one or more ASCII digits whose
/// value fits in a `u32`.
pub open spec fn parse_u32(s: Seq<char>) -> Option<u32> {
    let d = if s.len() > 0 && s[0] == '+' { s.drop_first() } else { s };
    if d.len() > 0 && all_ascii_digits(d) && digits_value(d) <= u32::MAX {
        Some(digits_value(d) as u32)
    } else {
        None
    }
}

pub proof fn lemma_digits_value_grows(d: Seq<char>, k: int)
    requires
        all_ascii_digits(d),
        0 <= k <= d.len(),
    ensures
        0 <= digits_value(d.take(k)) <= digits_value(d),
    decreases d.len() - k,
{
    if k < d.len() {
        lemma_digits_value_grows(d, k + 1);
        assert(d.take(k + 1).drop_last() =~= d.take(k));
        assert(d.take(k + 1).last() == d[k]);
    } else {
        assert(d.take(k) =~= d);
        lemma_digits_value_nonneg(d);
    }
}

proof fn lemma_digits_value_nonneg(d: Seq<char>)
    requires
        all_ascii_digits(d),
    ensures
        0 <= digits_value(d),
    decreases d.len(),
{
    if d.len() > 0 {
        assert(all_ascii_digits(d.drop_last()));
        lemma_digits_value_nonneg(d.drop_last());
    }
}

/// Parses a whole string as a `u32` the way `str::parse::<u32>` does.
pub fn parse_u32_text(s: &str) -> (r: Option<u32>)
    ensures
        r == parse_u32(s@),
{
    let cs = chars_of(s);
    let start: usize = if cs.len() > 0 && cs[0] == '+' { 1 } else { 0 };
    let ghost d = if s@.len() > 0 && s@[0] == '+' { s@.drop_first() } else { s@ };
    assert(d =~= cs@.skip(start as int));
    if start == cs.len() {
        return None;
    }
    let mut acc: u64 = 0;
    let mut i: usize = start;
    while i < cs.len()
        invariant
            cs@ == s@,
            d == (if s@.len() > 0 && s@[0] == '+' { s@.drop_first() } else { s@ }),
            d =~= cs@.skip(start as int),
            start <= i <= cs.len(),
            acc == digits_value(d.take(i - start)),
            acc <= u32::MAX,
            all_ascii_digits(d.take(i - start)),
        decreases cs.len() - i,
    {
        let c = cs[i];
        assert(d.take(i - start + 1).drop_last() =~= d.take(i - start));
        assert(d.take(i - start + 1).last() == c);
        assert(d[i - start] == c);
        if !('0' <= c && c <= '9') {
            assert(!all_ascii_digits(d));
            assert(!(d.len() > 0 && all_ascii_digits(d) && digits_value(d) <= u32::MAX));
            assert(parse_u32(s@) is None);
            return None;
        }
        let v: u64 = (c as u32 - 48) as u64;
        assert(v == c as int - 48);
        acc = acc * 10 + v;
        assert(acc == digits_value(d.take(i - start + 1)));
        assert(all_ascii_digits(d.take(i - start + 1))) by {
            assert forall|j: int| 0 <= j < i - start + 1 implies '0' <= #[trigger] d.take(i - start + 1)[j] <= '9' by {
                if j < i - start {
                    assert(d.take(i - start + 1)[j] == d.take(i - start)[j]);
                }
            }
        }
        if acc > 4294967295 {
            proof {
                if all_ascii_digits(d) {
                    lemma_digits_value_grows(d, i - start + 1);
                }
            }
            assert(parse_u32(s@) is None);
            return None;
        }
        i = i + 1;
    }
    assert(d.take(i - start) =~= d);
    Some(acc as u32)
}

/// An ASCII letter `A`–`G` or `a`–`g`.
pub open spec fn is_note_letter_byte(b: u8) -> bool {
    (65 <= b <= 71) || (97 <= b <= 103)
}

/// The character that starts at byte `end` of `name` is a note letter.
pub open spec fn note_letter_at(name: Seq<char>, end: int) -> bool {
    0 <= end < encode_utf8(name).len() && is_note_letter_byte(encode_utf8(name)[end])
}

/// `loop`, in any letter case, at position `i`.
pub open spec fn loop_at(s: Seq<char>, i: int) -> bool {
    &&& ascii_lower(s[i]) == 'l'
    &&& ascii_lower(s[i + 1]) == 'o'
    &&& ascii_lower(s[i + 2]) == 'o'
    &&& ascii_lower(s[i + 3]) == 'p'
}

/// The name contains `loop` in any letter case.
pub open spec fn mentions_loop(s: Seq<char>) -> bool {
    exists|i: int| 0 <= i && i + 4 <= s.len() && #[trigger] loop_at(s, i)
}

/// Whether the name contains `loop` in any letter case.
pub fn contains_loop(name: &str) -> (r: bool)
    ensures
        r == mentions_loop(name@),
{
    let cs = chars_of(name);
    if cs.len() < 4 {
        return false;
    }
    let mut i: usize = 0;
    while i < cs.len() - 3
        invariant
            cs@ == name@,
            cs.len() >= 4,
            i <= cs.len() - 3,
            forall|j: int| 0 <= j < i ==> !#[trigger] loop_at(name@, j),
        decreases cs.len() - i,
    {
        if ascii_lower_char(cs[i]) == 'l' && ascii_lower_char(cs[i + 1]) == 'o' && ascii_lower_char(cs[i + 2]) == 'o'
            && ascii_lower_char(cs[i + 3]) == 'p' {
            assert(loop_at(name@, i as int));
            return true;
        }
        i = i + 1;
    }
    false
}

/// The tempo one match proposes, with its rank (lower ranks win): the number
/// before a `bpm` marker (rank 0), in brackets (rank 1), or between delimiters
/// (rank 2) when the name mentions a loop or a note letter follows the match.
/// Only values from 80 to 180 count.
pub open spec fn bpm_candidate(name: Seq<char>, c: Seq<Option<(usize, usize, Seq<char>)>>, looped: bool) -> Option<(u32, u8)> {
    let picked: Option<(Seq<char>, u8)> = match group_at(c, 1) {
        Some(g) => Some((g.2, 0u8)),
        None => match group_at(c, 2) {
            Some(g) => Some((g.2, 1u8)),
            None => match group_at(c, 3) {
                Some(g) => {
                    let end = match group_at(c, 0) {
                        Some(m) => m.1 as int,
                        None => 0,
                    };
                    if !looped && !note_letter_at(name, end) {
                        None
                    } else {
                        Some((g.2, 2u8))
                    }
                },
                None => None,
            },
        },
    };
    match picked {
        Some(p) => match parse_u32(p.0) {
            Some(v) => if 80 <= v <= 180 {
                Some((v, p.1))
            } else {
                None
            },
            None => None,
        },
        None => None,
    }
}

/// Keeps the earlier candidate unless the new one ranks strictly better.
pub open spec fn keep_better(best: Option<(u32, u8)>, cand: Option<(u32, u8)>) -> Option<(u32, u8)> {
    match cand {
        None => best,
        Some(x) => match best {
            None => Some(x),
            Some(b) => if x.1 < b.1 {
                Some(x)
            } else {
                best
            },
        },
    }
}

/// The best candidate over the matches, taken in order.
pub open spec fn best_bpm(name: Seq<char>, caps: Seq<Seq<Option<(usize, usize, Seq<char>)>>>, looped: bool) -> Option<(u32, u8)>
    decreases caps.len(),
{
    if caps.len() == 0 {
        None
    } else {
        keep_better(best_bpm(name, caps.drop_last(), looped), bpm_candidate(name, caps.last(), looped))
    }
}

/// The tempo that the matches of `BPM_PATTERN` in `name` give.
pub open spec fn bpm_from(name: Seq<char>, caps: Seq<Seq<Option<(usize, usize, Seq<char>)>>>) -> Option<u32> {
    match best_bpm(name, caps, mentions_loop(name)) {
        Some(b) => Some(b.0),
        None => None,
    }
}

/// The tempo of a sample name: `BPM_PATTERN` searched, then `bpm_from`.
pub open spec fn spec_extract_bpm(name: Seq<char>) -> Option<u32> {
    match regex_captures_iter(BPM_PATTERN@, name) {
        Some(caps) => bpm_from(name, caps),
        None => None,
    }
}

fn group_text(c: &Vec<Group>, k: usize) -> (r: Option<&String>)
    ensures
        match group_at(groups_view(*c), k as int) {
            Some(g) => r matches Some(s) && s@ == g.2,
            None => r is None,
        },
{
    if k < c.len() {
        match &c[k] {
            Some(t) => Some(&t.2),
            None => None,
        }
    } else {
        None
    }
}

fn group_end(c: &Vec<Group>) -> (r: usize)
    ensures
        r == match group_at(groups_view(*c), 0) {
            Some(m) => m.1,
            None => 0,
        },
{
    if c.len() > 0 {
        match &c[0] {
            Some(t) => t.1,
            None => 0,
        }
    } else {
        0
    }
}

fn note_letter_follows(name: &str, end: usize) -> (r: bool)
    ensures
        r == note_letter_at(name@, end as int),
{
    let bytes = name.as_bytes();
    if end < bytes.len() {
        let b = bytes[end];
        (65 <= b && b <= 71) || (97 <= b && b <= 103)
    } else {
        false
    }
}

fn candidate_of(name: &str, c: &Vec<Group>, looped: bool) -> (r: Option<(u32, u8)>)
    ensures
        r == bpm_candidate(name@, groups_view(*c), looped),
{
    let picked: Option<(&String, u8)> = match group_text(c, 1) {
        Some(t) => Some((t, 0u8)),
        None => match group_text(c, 2) {
            Some(t) => Some((t, 1u8)),
            None => match group_text(c, 3) {
                Some(t) => {
                    let end = group_end(c);
                    if !looped && !note_letter_follows(name, end) {
                        None
                    } else {
                        Some((t, 2u8))
                    }
                },
                None => None,
            },
        },
    };
    match picked {
        Some(p) => match parse_u32_text(p.0.as_str()) {
            Some(v) => if 80 <= v && v <= 180 {
                Some((v, p.1))
            } else {
                None
            },
            None => None,
        },
        None => None,
    }
}

/// The tempo the matches `caps` of `BPM_PATTERN` in `name` give: the best
/// ranked candidate, the first among equals.
pub fn bpm_from_captures(name: &str, caps: &Vec<Vec<Group>>) -> (r: Option<u32>)
    ensures
        r == bpm_from(name@, matches_view(*caps)),
{
    let looped = contains_loop(name);
    let mut best: Option<(u32, u8)> = None;
    let mut i: usize = 0;
    while i < caps.len()
        invariant
            i <= caps.len(),
            looped == mentions_loop(name@),
            best == best_bpm(name@, matches_view(*caps).take(i as int), looped),
        decreases caps.len() - i,
    {
        let cand = candidate_of(name, &caps[i], looped);
        proof {
            let all = matches_view(*caps);
            assert(all.take(i + 1).drop_last() =~= all.take(i as int));
            assert(all.take(i + 1).last() == groups_view(caps@[i as int]));
        }
        best = match cand {
            None => best,
            Some(x) => match best {
                None => Some(x),
                Some(b) => if x.1 < b.1 {
                    Some(x)
                } else {
                    best
                },
            },
        };
        i = i + 1;
    }
    assert(matches_view(*caps).take(i as int) =~= matches_view(*caps));
    match best {
        Some(b) => Some(b.0),
        None => None,
    }
}

/// Tempo from a sample file name, if one from 80 to 180 is found. A number
/// before `bpm` beats one in brackets, which beats one between delimiters; a
/// delimited number counts only when the name mentions a loop or a note letter
/// follows it.
pub fn extract_bpm(name: &str) -> (r: Option<u32>)
    ensures
        r == spec_extract_bpm(name@),
{
    match captures_iter(BPM_PATTERN, name) {
        Some(all) => bpm_from_captures(name, &all),
        None => None,
    }
}

// ---------------------------------------------------------------------------
// Key
// ---------------------------------------------------------------------------

/// The twelve note names, sharps only.
pub open spec fn is_note_name(u: Seq<char>) -> bool {
    ||| u == "C"@
    ||| u == "C#"@
    ||| u == "D"@
    ||| u == "D#"@
    ||| u == "E"@
    ||| u == "F"@
    ||| u == "F#"@
    ||| u == "G"@
    ||| u == "G#"@
    ||| u == "A"@
    ||| u == "A#"@
    ||| u == "B"@
}

/// A note name with its first character upper-cased (as `char::to_uppercase`
/// does), matched against the sharp names, then, up to ASCII case, against the
/// flats `Db Eb Gb Ab Bb`, which become `C# D# F# G# A#`.
pub open spec fn spec_normalize_note(raw: Seq<char>) -> Option<Seq<char>> {
    if raw.len() == 0 {
        None
    } else {
        let upper = unicode_upper(raw[0]) + raw.drop_first();
        if is_note_name(upper) {
            Some(upper)
        } else if eq_ignore_ascii_case(upper, "Db"@) {
            Some("C#"@)
        } else if eq_ignore_ascii_case(upper, "Eb"@) {
            Some("D#"@)
        } else if eq_ignore_ascii_case(upper, "Gb"@) {
            Some("F#"@)
        } else if eq_ignore_ascii_case(upper, "Ab"@) {
            Some("G#"@)
        } else if eq_ignore_ascii_case(upper, "Bb"@) {
            Some("A#"@)
        } else {
            None
        }
    }
}

fn sharp_name(u: &str) -> (r: Option<&'static str>)
    ensures
        match r {
            Some(n) => is_note_name(u@) && n@ == u@,
            None => !is_note_name(u@),
        },
{
    if str_eq(u, "C") {
        Some("C")
    } else if str_eq(u, "C#") {
        Some("C#")
    } else if str_eq(u, "D") {
        Some("D")
    } else if str_eq(u, "D#") {
        Some("D#")
    } else if str_eq(u, "E") {
        Some("E")
    } else if str_eq(u, "F") {
        Some("F")
    } else if str_eq(u, "F#") {
        Some("F#")
    } else if str_eq(u, "G") {
        Some("G")
    } else if str_eq(u, "G#") {
        Some("G#")
    } else if str_eq(u, "A") {
        Some("A")
    } else if str_eq(u, "A#") {
        Some("A#")
    } else if str_eq(u, "B") {
        Some("B")
    } else {
        None
    }
}

/// Normalises a note name: `f#` → `F#`, `bb` → `A#`; `None` when it is no note.
pub fn normalize_note(raw: &str) -> (r: Option<&'static str>)
    ensures
        opt_view(r) == spec_normalize_note(raw@),
{
    let cs = chars_of(raw);
    if cs.len() == 0 {
        return None;
    }
    let mut upper = char_upper(cs[0]);
    let mut i: usize = 1;
    while i < cs.len()
        invariant
            cs@ == raw@,
            1 <= i <= cs.len(),
            upper@ == unicode_upper(raw@[0]) + raw@.subrange(1, i as int),
        decreases cs.len() - i,
    {
        push_char(&mut upper, cs[i]);
        i = i + 1;
        assert(upper@ =~= unicode_upper(raw@[0]) + raw@.subrange(1, i as int));
    }
    assert(raw@.subrange(1, i as int) =~= raw@.drop_first());
    if let Some(n) = sharp_name(upper.as_str()) {
        return Some(n);
    }
    let uc = chars_of(upper.as_str());
    if same_ignoring_case(&uc, "Db") {
        Some("C#")
    } else if same_ignoring_case(&uc, "Eb") {
        Some("D#")
    } else if same_ignoring_case(&uc, "Gb") {
        Some("F#")
    } else if same_ignoring_case(&uc, "Ab") {
        Some("G#")
    } else if same_ignoring_case(&uc, "Bb") {
        Some("A#")
    } else {
        None
    }
}

/// A note letter with an optional space, `_` or `-` before `sharp`, any case.
pub const SHARP_WORD_PATTERN: &'static str = "(?i)([A-G])[ _\\-]?sharp";

/// A note letter with an optional space, `_` or `-` before `flat`, any case.
pub const FLAT_WORD_PATTERN: &'static str = "(?i)([A-G])[ _\\-]?flat";

/// A replacement, or the text unchanged where the pattern does not compile.
pub open spec fn replaced(pattern: Seq<char>, text: Seq<char>, replacement: Seq<char>) -> Seq<char> {
    match regex_replace_all(pattern, text, replacement) {
        Some(t) => t,
        None => text,
    }
}

/// `G Sharp` → `G#`, `B Flat` → `Bb`.
pub open spec fn spec_normalize_sharp_flat_words(name: Seq<char>) -> Seq<char> {
    replaced(FLAT_WORD_PATTERN@, replaced(SHARP_WORD_PATTERN@, name, "${1}#"@), "${1}b"@)
}

fn replace_or_keep(pattern: &str, text: String, replacement: &str) -> (r: String)
    ensures
        r@ == replaced(pattern@, text@, replacement@),
{
    match replace_all(pattern, text.as_str(), replacement) {
        Some(t) => t,
        None => text,
    }
}

/// Rewrites word accidentals: "G Sharp" → "G#", "B Flat" → "Bb".
pub fn normalize_sharp_flat_words(name: &str) -> (r: String)
    ensures
        r@ == spec_normalize_sharp_flat_words(name@),
{
    let sharp = replace_or_keep(SHARP_WORD_PATTERN, owned(name), "${1}#");
    replace_or_keep(FLAT_WORD_PATTERN, sharp, "${1}b")
}

/// A minor key: a note, then `m`, `min`, `minor` (or a delimiter and `min`,
/// `minor`), optional digits, between delimiters; group 1 is the note.
pub const MINOR_PATTERN: &'static str = "(?i)(?:^|[_\\s\\-\\[(/])([A-G][#b]?)(?:m(?:in(?:or)?)?|[_\\-\\s]min(?:or)?)(?:\\d+)?(?:[_\\s\\-\\])/.,]|$)";

/// A major key: a note, then `maj`, `major`, `M`, `Maj` (digits allowed), between
/// delimiters; group 1 is the note.
pub const MAJOR_PATTERN: &'static str = "(?i)(?:^|[_\\s\\-\\[(/])([A-G][#b]?)(?:maj(?:or)?(?:\\d+)?|[_\\-\\s]maj(?:or)?|M(?:aj)?(?:\\d+)?)(?:[_\\s\\-\\])/.,]|$)";

/// A bare note between delimiters; group 1 is the note.
pub const BARE_NOTE_PATTERN: &'static str = "(?:^|[_\\s\\-\\[(/])([A-G][#b]?)(?:[_\\s\\-\\])/.,]|$)";

/// The first match, or `None` where there is none or the pattern does not compile.
pub open spec fn first_match(r: Option<Option<Seq<Option<(usize, usize, Seq<char>)>>>>) -> Option<Seq<Option<(usize, usize, Seq<char>)>>> {
    match r {
        Some(Some(c)) => Some(c),
        _ => None,
    }
}

pub open spec fn is_ascii_digit_byte(b: u8) -> bool {
    48 <= b <= 57
}

/// A one-letter bare note that looks like a variant marker: a digit before its
/// leading delimiter and a digit at the end of the match, counted in `name`.
pub open spec fn variant_marker(name: Seq<char>, start: int, end: int) -> bool {
    let b = encode_utf8(name);
    &&& start > 1
    &&& is_ascii_digit_byte(b[start - 1])
    &&& end < b.len()
    &&& is_ascii_digit_byte(b[end - 1])
}

/// The bare-note match lies where `name`'s bytes can be read at it: its start
/// is 0 or within `name`, and not past its end.
pub open spec fn bare_in_name(name: Seq<char>, bare: Option<Seq<Option<(usize, usize, Seq<char>)>>>) -> bool {
    match bare {
        Some(c) => match group_at(c, 0) {
            Some(g) => g.0 <= g.1 && (g.0 == 0 || g.0 < encode_utf8(name).len()),
            None => true,
        },
        None => true,
    }
}

/// The note group 1 of a match names, normalised.
pub open spec fn note_in(c: Seq<Option<(usize, usize, Seq<char>)>>) -> Option<Seq<char>> {
    match group_at(c, 1) {
        Some(g) => spec_normalize_note(g.2),
        None => None,
    }
}

/// The key the first matches of the minor, major and bare-note patterns give:
/// a minor match with a valid note wins, then a major one, then a bare note
/// (read as minor) unless it is a one-letter variant marker. A match without
/// its note group ends the search with no key.
pub open spec fn key_from(
    name: Seq<char>,
    minor: Option<Seq<Option<(usize, usize, Seq<char>)>>>,
    major: Option<Seq<Option<(usize, usize, Seq<char>)>>>,
    bare: Option<Seq<Option<(usize, usize, Seq<char>)>>>,
) -> Option<Seq<char>> {
    match minor {
        Some(c) if group_at(c, 1) is None => None,
        Some(c) if note_in(c) is Some => Some(note_in(c)->0 + " Minor"@),
        _ => match major {
            Some(c) if group_at(c, 1) is None => None,
            Some(c) if note_in(c) is Some => Some(note_in(c)->0 + " Major"@),
            _ => match bare {
                Some(c) => match group_at(c, 1) {
                    None => None,
                    Some(g) => match spec_normalize_note(g.2) {
                        None => None,
                        Some(note) => if encode_utf8(g.2).len() == 1 {
                            match group_at(c, 0) {
                                None => None,
                                Some(m) => if variant_marker(name, m.0 as int, m.1 as int) {
                                    None
                                } else {
                                    Some(note + " Minor"@)
                                },
                            }
                        } else {
                            Some(note + " Minor"@)
                        },
                    },
                },
                None => None,
            },
        },
    }
}

/// The key of a sample name.
pub open spec fn spec_extract_key(name: Seq<char>) -> Option<Seq<char>> {
    let normalized = spec_normalize_sharp_flat_words(name);
    let minor = first_match(regex_captures(MINOR_PATTERN@, normalized));
    let major = first_match(regex_captures(MAJOR_PATTERN@, normalized));
    let bare = first_match(regex_captures(BARE_NOTE_PATTERN@, normalized));
    if bare_in_name(name, bare) {
        key_from(name, minor, major, bare)
    } else {
        None
    }
}

pub open spec fn first_view(c: Option<Vec<Group>>) -> Option<Seq<Option<(usize, usize, Seq<char>)>>> {
    match c {
        Some(v) => Some(groups_view(v)),
        None => None,
    }
}

fn first_of(pattern: &str, text: &str) -> (r: Option<Vec<Group>>)
    ensures
        first_view(r) == first_match(regex_captures(pattern@, text@)),
{
    match captures(pattern, text) {
        Some(Some(c)) => Some(c),
        _ => None,
    }
}

fn note_key(note: &str, quality: &str) -> (r: String)
    ensures
        r@ == note@ + quality@,
{
    let mut out = owned(note);
    push_str(&mut out, quality);
    out
}

fn digit_byte_at(name: &str, i: usize) -> (r: bool)
    requires
        i < encode_utf8(name@).len(),
    ensures
        r == is_ascii_digit_byte(encode_utf8(name@)[i as int]),
{
    let b = name.as_bytes()[i];
    48 <= b && b <= 57
}

/// The key the first matches of `MINOR_PATTERN`, `MAJOR_PATTERN` and
/// `BARE_NOTE_PATTERN` (searched in the normalised name) give for `name`.
pub fn key_from_captures(name: &str, minor: &Option<Vec<Group>>, major: &Option<Vec<Group>>, bare: &Option<Vec<Group>>) -> (r: Option<String>)
    requires
        bare_in_name(name@, first_view(*bare)),
    ensures
        match r {
            Some(s) => key_from(name@, first_view(*minor), first_view(*major), first_view(*bare)) == Some(s@),
            None => key_from(name@, first_view(*minor), first_view(*major), first_view(*bare)) is None,
        },
{
    if let Some(c) = minor {
        match group_text(c, 1) {
            None => return None,
            Some(t) => if let Some(note) = normalize_note(t.as_str()) {
                return Some(note_key(note, " Minor"));
            },
        }
    }
    if let Some(c) = major {
        match group_text(c, 1) {
            None => return None,
            Some(t) => if let Some(note) = normalize_note(t.as_str()) {
                return Some(note_key(note, " Major"));
            },
        }
    }
    if let Some(c) = bare {
        let raw = match group_text(c, 1) {
            None => return None,
            Some(t) => t,
        };
        let note = match normalize_note(raw.as_str()) {
            None => return None,
            Some(n) => n,
        };
        if raw.as_str().as_bytes().len() == 1 {
            if c.len() == 0 {
                return None;
            }
            let (start, end) = match &c[0] {
                None => return None,
                Some(m) => (m.0, m.1),
            };
            let len = name.as_bytes().len();
            if start > 1 && digit_byte_at(name, start - 1) && end < len && digit_byte_at(name, end - 1) {
                return None;
            }
        }
        return Some(note_key(note, " Minor"));
    }
    None
}

/// The musical key of a sample name ("A Minor", "C# Major"), if any: word
/// accidentals are normalised first; an explicit minor key beats an explicit
/// major key, which beats a bare note (read as minor).
pub fn extract_key(name: &str) -> (r: Option<String>)
    ensures
        match r {
            Some(s) => spec_extract_key(name@) == Some(s@),
            None => spec_extract_key(name@) is None,
        },
{
    let normalized = normalize_sharp_flat_words(name);
    let minor = first_of(MINOR_PATTERN, normalized.as_str());
    let major = first_of(MAJOR_PATTERN, normalized.as_str());
    let bare = first_of(BARE_NOTE_PATTERN, normalized.as_str());
    let placed = match &bare {
        Some(c) => if c.len() > 0 {
            match &c[0] {
                Some(m) => m.0 <= m.1 && (m.0 == 0 || m.0 < name.as_bytes().len()),
                None => true,
            }
        } else {
            true
        },
        None => true,
    };
    if !placed {
        return None;
    }
    key_from_captures(name, &minor, &major, &bare)
}

/// The database form of a short key: "Bm" → "B Minor", "C#" → "C# Minor".
pub open spec fn spec_short_key_to_db(short: Seq<char>) -> Seq<char> {
    let s = trim_ws(short);
    if s.len() > 0 && s.last() == 'm' {
        s.drop_last() + " Minor"@
    } else {
        s + " Minor"@
    }
}

/// Converts a short key ("Bm", "C#m", "C#", "D") to the stored form ("B Minor",
/// "C# Minor"); a bare note is read as minor.
pub fn short_key_to_db(short: &str) -> (r: String)
    ensures
        r@ == spec_short_key_to_db(short@),
{
    let s = trim(short);
    let cs = chars_of(s);
    let n: usize = if cs.len() > 0 && cs[cs.len() - 1] == 'm' { cs.len() - 1 } else { cs.len() };
    let mut out = String::new();
    let mut i: usize = 0;
    while i < n
        invariant
            cs@ == s@,
            n <= cs.len(),
            i <= n,
            out@ == cs@.take(i as int),
        decreases n - i,
    {
        push_char(&mut out, cs[i]);
        i = i + 1;
        assert(out@ =~= cs@.take(i as int));
    }
    push_str(&mut out, " Minor");
    assert(cs@.take(n as int) =~= (if cs@.len() > 0 && cs@.last() == 'm' { cs@.drop_last() } else { cs@ }));
    out
}

/// A minor key with the delimiters around it kept in groups 1 and 2.
pub const STRIP_MINOR_PATTERN: &'static str = "(?i)([_\\s\\-\\[(/])[A-G][#b]?(?:m(?:in(?:or)?)?|[_\\-\\s]min(?:or)?)(?:\\d+)?([_\\s\\-\\])/.,])";

/// A major key with the delimiters around it kept in groups 1 and 2.
pub const STRIP_MAJOR_PATTERN: &'static str = "(?i)([_\\s\\-\\[(/])[A-G][#b]?(?:maj(?:or)?(?:\\d+)?|[_\\-\\s]maj(?:or)?|M(?:aj)?(?:\\d+)?)([_\\s\\-\\])/.,])";

/// A bare note just before the file extension: `Loop-121-C.wav`.
pub const STRIP_BARE_NOTE_END_PATTERN: &'static str = "([_\\s\\-\\[(/])[A-G][#b]?(\\.[^.]+$)";

/// A bare note followed by a variant number: `_C-02`.
pub const STRIP_BARE_NOTE_VARIANT_PATTERN: &'static str = "([_\\s\\[(/])[A-G][#b]?(\\-\\d)";

/// A bare note between delimiters: `_A_`, `[C#]`, `-F#-`.
pub const STRIP_BARE_NOTE_PATTERN: &'static str = "([_\\s\\-\\[(/])[A-G][#b]?([_\\s\\-\\])/.,])";

/// The path with word accidentals normalised, then minor keys, major keys, a
/// note before the extension, a note before a variant number and a note between
/// delimiters each removed in turn (their delimiters stay).
pub open spec fn spec_strip_key_from_path(path: Seq<char>) -> Seq<char> {
    let n = spec_normalize_sharp_flat_words(path);
    let a = replaced(STRIP_MINOR_PATTERN@, n, "$1$2"@);
    let b = replaced(STRIP_MAJOR_PATTERN@, a, "$1$2"@);
    let c = replaced(STRIP_BARE_NOTE_END_PATTERN@, b, "$1$2"@);
    let d = replaced(STRIP_BARE_NOTE_VARIANT_PATTERN@, c, "$1$2"@);
    replaced(STRIP_BARE_NOTE_PATTERN@, d, "$1$2"@)
}

/// A key-agnostic form of a sample path, so that a sample can be blacklisted
/// whatever its key variant: `/samples/Lead_Am_120.wav` → `/samples/Lead__120.wav`.
pub fn strip_key_from_path(path: &str) -> (r: String)
    ensures
        r@ == spec_strip_key_from_path(path@),
{
    let n = normalize_sharp_flat_words(path);
    let a = replace_or_keep(STRIP_MINOR_PATTERN, n, "$1$2");
    let b = replace_or_keep(STRIP_MAJOR_PATTERN, a, "$1$2");
    let c = replace_or_keep(STRIP_BARE_NOTE_END_PATTERN, b, "$1$2");
    let d = replace_or_keep(STRIP_BARE_NOTE_VARIANT_PATTERN, c, "$1$2");
    replace_or_keep(STRIP_BARE_NOTE_PATTERN, d, "$1$2")
}

// ---------------------------------------------------------------------------
// Category
// ---------------------------------------------------------------------------

/// Entry `i` of the category table, most specific first: name, pattern,
/// parent, one-shot, key-sensitive, loop-preferred.
pub open spec fn category_entry(i: int) -> (Seq<char>, Seq<char>, Option<Seq<char>>, bool, bool, bool) {
    if i == 0 {
        ("kick"@, "(?i)(?:^|[\\s_\\-./])(?:kicks?|kik|bd|kck)(?:[\\s_\\-./]|$)"@, Some("drums"@), false, false, true)
    } else if i == 1 {
        ("snare"@, "(?i)(?:^|[\\s_\\-./])(?:snares?|snr|sd)(?:[\\s_\\-./]|$)|rimshot|rim[\\s_]*shot"@, Some("drums"@), false, false, true)
    } else if i == 2 {
        ("clap"@, "(?i)(?:^|[\\s_\\-./])(?:claps?|clp|cp)(?:[\\s_\\-./]|$)"@, Some("drums"@), false, false, true)
    } else if i == 3 {
        ("closed_hat"@, "(?i)closed.?hats?|closed.?hh|(?:^|[\\s_\\-./])chh(?:[\\s_\\-./]|$)"@, Some("drums"@), false, false, true)
    } else if i == 4 {
        ("open_hat"@, "(?i)open.?hats?|open.?hh|(?:^|[\\s_\\-./])ohh(?:[\\s_\\-./]|$)"@, Some("drums"@), false, false, true)
    } else if i == 5 {
        ("hat"@, "(?i)(?:^|[\\s_\\-./])(?:hats?|hh|hihats?|hi[\\s_\\-]hats?)(?:[\\s_\\-./]|$)"@, Some("drums"@), false, false, true)
    } else if i == 6 {
        ("cymbal"@, "(?i)(?:^|[\\s_\\-./])(?:cymbals?|cym|crash)(?:[\\s_\\-./]|$)"@, Some("drums"@), false, false, true)
    } else if i == 7 {
        ("tom"@, "(?i)(?:^|[\\s_\\-./])(?:toms?|floor[\\s_\\-]*toms?|rack[\\s_\\-]*toms?)(?:[\\s_\\-./]|$)"@, Some("drums"@), false, false, true)
    } else if i == 8 {
        ("ride"@, "(?i)(?:^|[\\s_\\-./])rides?(?:[\\s_\\-./]|$)"@, Some("drums"@), false, false, true)
    } else if i == 9 {
        ("shaker"@, "(?i)(?:^|[\\s_\\-./])(?:shakers?|maracas?|tambourines?|tamb)(?:[\\s_\\-./]|$)"@, Some("drums"@), false, false, true)
    } else if i == 10 {
        ("perc"@, "(?i)(?:^|[\\s_\\-./])(?:percs?|congas?|bongos?|rim|woodblock|cowbell)(?:[\\s_\\-./]|$)"@, Some("drums"@), false, false, true)
    } else if i == 11 {
        ("schranz_kick"@, "(?i)schranz.*kick|kick.*schranz|hard[\\s_]*techno.*kick"@, Some("drums"@), false, false, true)
    } else if i == 12 {
        ("schranz_drive"@, "(?i)schranz.*drive|drive.*schranz|hard[\\s_]*techno.*drive|rumble[\\s_]*(?:bass|loop)|schranz.*bass"@, Some("bass"@), false, false, true)
    } else if i == 13 {
        ("schranz_roll"@, "(?i)kick[\\s_]*roll|roll[\\s_]*kick|schranz[\\s_]*roll"@, Some("drums"@), false, false, true)
    } else if i == 14 {
        ("sub_bass"@, "(?i)(?:^|[\\s_\\-./])(?:sub|808)(?:[\\s_\\-./]|$)|bass[\\s_]*sub|low[\\s_]*end"@, Some("bass"@), true, true, false)
    } else if i == 15 {
        ("mid_bass"@, "(?i)(?:^|[\\s_\\-./])(?:bass|reese|hoover|wobble)(?:[\\s_\\-./]|$)"@, Some("bass"@), false, true, true)
    } else if i == 16 {
        ("lead"@, "(?i)(?:^|[\\s_\\-./])(?:leads?|riffs?)(?:[\\s_\\-./]|$)|(?:^|[\\s_\\-])ld[_\\-]|synth[\\s_]*lead"@, Some("melodic"@), false, true, true)
    } else if i == 17 {
        ("pad"@, "(?i)(?:^|[\\s_\\-./])(?:pads?|strings?|chords?|evolve)(?:[\\s_\\-./]|$)"@, Some("melodic"@), false, true, true)
    } else if i == 18 {
        ("arp"@, "(?i)(?:^|[\\s_\\-./])(?:arps?|sequences?)(?:[\\s_\\-./]|$)|(?:^|[\\s_\\-])seq[_\\-]"@, Some("melodic"@), false, true, true)
    } else if i == 19 {
        ("pluck"@, "(?i)(?:^|[\\s_\\-./])(?:plucks?|pizz|picked|marimba)(?:[\\s_\\-./]|$)"@, Some("melodic"@), true, true, false)
    } else if i == 20 {
        ("stab"@, "(?i)(?:^|[\\s_\\-./])(?:stabs?|brass)(?:[\\s_\\-./]|$)"@, Some("melodic"@), true, true, false)
    } else if i == 21 {
        ("acid"@, "(?i)(?:^|[\\s_\\-./])(?:acid|303|squelch)(?:[\\s_\\-./]|$)"@, Some("melodic"@), false, true, true)
    } else if i == 22 {
        ("atmos"@, "(?i)(?:^|[\\s_\\-./])(?:atmos|ambient|drone|soundscape|background)(?:[\\s_\\-./]|$)"@, Some("atmos"@), false, true, false)
    } else if i == 23 {
        ("texture"@, "(?i)(?:^|[\\s_\\-./])(?:texture|foley)(?:[\\s_\\-./]|$)|field[\\s_]*rec"@, Some("atmos"@), false, false, false)
    } else if i == 24 {
        ("noise"@, "(?i)(?:^|[\\s_\\-./])(?:noise|static|hiss|crackle)(?:[\\s_\\-./]|$)"@, Some("atmos"@), false, false, false)
    } else if i == 25 {
        ("tape"@, "(?i)(?:^|[\\s_\\-./])(?:tape|vinyl|lo-?fi|cassette)(?:[\\s_\\-./]|$)"@, Some("atmos"@), false, false, false)
    } else if i == 26 {
        ("fx_riser"@, "(?i)(?:^|[\\s_\\-./])(?:riser|rise|tension|ascend)(?:[\\s_\\-./]|$)|sweep[\\s_]*up|uplifter|build[\\s_]*up"@, Some("fx"@), false, false, false)
    } else if i == 27 {
        ("fx_downer"@, "(?i)(?:^|[\\s_\\-./])(?:downer|downlifter|descend)(?:[\\s_\\-./]|$)|sweep[\\s_]*down|down[\\s_]*sweep"@, Some("fx"@), false, false, false)
    } else if i == 28 {
        ("fx_swell"@, "(?i)(?:^|[\\s_\\-./])(?:swell|bloom|expand)(?:[\\s_\\-./]|$)"@, Some("fx"@), false, false, false)
    } else if i == 29 {
        ("fx_crash"@, "(?i)(?:^|[\\s_\\-./])(?:crash|china|splash)(?:[\\s_\\-./]|$)"@, Some("fx"@), true, false, false)
    } else if i == 30 {
        ("fx_impact"@, "(?i)(?:^|[\\s_\\-./])(?:impact|slam|boom|thud)(?:[\\s_\\-./]|$)"@, Some("fx"@), true, false, false)
    } else if i == 31 {
        ("fx_explosion"@, "(?i)(?:^|[\\s_\\-./])(?:explo|burst|detonate|blast)(?:[\\s_\\-./]|$)"@, Some("fx"@), true, false, false)
    } else if i == 32 {
        ("fx_fill"@, "(?i)(?:^|[\\s_\\-./])(?:fill|buildup)(?:[\\s_\\-./]|$)|snare[\\s_]*roll|drum[\\s_]*break"@, Some("fx"@), false, false, true)
    } else if i == 33 {
        ("fx_glitch"@, "(?i)(?:^|[\\s_\\-./])(?:glitch|stutter|chop|slice|granular|buffer)(?:[\\s_\\-./]|$)"@, Some("fx"@), false, false, true)
    } else if i == 34 {
        ("fx_whoosh"@, "(?i)(?:^|[\\s_\\-./])(?:whoosh|swish|swoosh)(?:[\\s_\\-./]|$)"@, Some("fx"@), true, false, false)
    } else if i == 35 {
        ("fx_laser"@, "(?i)(?:^|[\\s_\\-./])(?:laser|zap|beam|blaster)(?:[\\s_\\-./]|$)|sci-?fi"@, Some("fx"@), true, false, false)
    } else if i == 36 {
        ("fx_reverse"@, "(?i)(?:^|[\\s_\\-./])(?:reverse|reversed|backwards)(?:[\\s_\\-./]|$)|(?:^|[\\s_\\-])rev[_\\-]"@, Some("fx"@), true, false, false)
    } else if i == 37 {
        ("fx_sub_drop"@, "(?i)sub[\\s_]*drop|808[\\s_]*drop|bass[\\s_]*drop"@, Some("fx"@), true, false, false)
    } else if i == 38 {
        ("fx_white_noise"@, "(?i)white[\\s_]*noise|noise[\\s_]*sweep|filtered[\\s_]*noise"@, Some("fx"@), false, false, false)
    } else if i == 39 {
        ("fx_vocal"@, "(?i)fx[\\s_]*vox|vocal[\\s_]*fx|processed[\\s_]*vocal|vocal[\\s_]*chop"@, Some("fx"@), false, false, true)
    } else if i == 40 {
        ("fx_misc"@, "(?i)(?:^|[\\s_\\-./])(?:fx|sfx|transition|cinematic)(?:[\\s_\\-./]|$)"@, Some("fx"@), false, false, false)
    } else if i == 41 {
        ("vocal_chop"@, "(?i)vocal[\\s_]*chop|chop[\\s_]*vocal|vox[\\s_]*chop"@, Some("vocal"@), false, false, true)
    } else if i == 42 {
        ("vocal_phrase"@, "(?i)vocal[\\s_]*phrase|(?:^|[\\s_\\-./])(?:phrase|spoken|speech)(?:[\\s_\\-./]|$)"@, Some("vocal"@), false, true, false)
    } else if i == 43 {
        ("vocal_adlib"@, "(?i)(?:^|[\\s_\\-./])(?:adlib|shout|scream)(?:[\\s_\\-./]|$)"@, Some("vocal"@), true, false, false)
    } else {
        ("vocal"@, "(?i)(?:^|[\\s_\\-./])(?:vox|vocals?|voices?|chants?|acapella)(?:[\\s_\\-./]|$)"@, Some("vocal"@), false, true, false)
    }
}

/// Number of categories in the table.
pub const CATEGORY_COUNT: usize = 45;

fn category_part0(i: usize) -> (r: (&'static str, &'static str, Option<&'static str>, bool, bool, bool))
    requires
        0 <= i < 15,
    ensures
        category_view(r) == category_entry(i as int),
{
    if i == 0 {
        ("kick", "(?i)(?:^|[\\s_\\-./])(?:kicks?|kik|bd|kck)(?:[\\s_\\-./]|$)", Some("drums"), false, false, true)
    } else if i == 1 {
        ("snare", "(?i)(?:^|[\\s_\\-./])(?:snares?|snr|sd)(?:[\\s_\\-./]|$)|rimshot|rim[\\s_]*shot", Some("drums"), false, false, true)
    } else if i == 2 {
        ("clap", "(?i)(?:^|[\\s_\\-./])(?:claps?|clp|cp)(?:[\\s_\\-./]|$)", Some("drums"), false, false, true)
    } else if i == 3 {
        ("closed_hat", "(?i)closed.?hats?|closed.?hh|(?:^|[\\s_\\-./])chh(?:[\\s_\\-./]|$)", Some("drums"), false, false, true)
    } else if i == 4 {
        ("open_hat", "(?i)open.?hats?|open.?hh|(?:^|[\\s_\\-./])ohh(?:[\\s_\\-./]|$)", Some("drums"), false, false, true)
    } else if i == 5 {
        ("hat", "(?i)(?:^|[\\s_\\-./])(?:hats?|hh|hihats?|hi[\\s_\\-]hats?)(?:[\\s_\\-./]|$)", Some("drums"), false, false, true)
    } else if i == 6 {
        ("cymbal", "(?i)(?:^|[\\s_\\-./])(?:cymbals?|cym|crash)(?:[\\s_\\-./]|$)", Some("drums"), false, false, true)
    } else if i == 7 {
        ("tom", "(?i)(?:^|[\\s_\\-./])(?:toms?|floor[\\s_\\-]*toms?|rack[\\s_\\-]*toms?)(?:[\\s_\\-./]|$)", Some("drums"), false, false, true)
    } else if i == 8 {
        ("ride", "(?i)(?:^|[\\s_\\-./])rides?(?:[\\s_\\-./]|$)", Some("drums"), false, false, true)
    } else if i == 9 {
        ("shaker", "(?i)(?:^|[\\s_\\-./])(?:shakers?|maracas?|tambourines?|tamb)(?:[\\s_\\-./]|$)", Some("drums"), false, false, true)
    } else if i == 10 {
        ("perc", "(?i)(?:^|[\\s_\\-./])(?:percs?|congas?|bongos?|rim|woodblock|cowbell)(?:[\\s_\\-./]|$)", Some("drums"), false, false, true)
    } else if i == 11 {
        ("schranz_kick", "(?i)schranz.*kick|kick.*schranz|hard[\\s_]*techno.*kick", Some("drums"), false, false, true)
    } else if i == 12 {
        ("schranz_drive", "(?i)schranz.*drive|drive.*schranz|hard[\\s_]*techno.*drive|rumble[\\s_]*(?:bass|loop)|schranz.*bass", Some("bass"), false, false, true)
    } else if i == 13 {
        ("schranz_roll", "(?i)kick[\\s_]*roll|roll[\\s_]*kick|schranz[\\s_]*roll", Some("drums"), false, false, true)
    } else {
        ("sub_bass", "(?i)(?:^|[\\s_\\-./])(?:sub|808)(?:[\\s_\\-./]|$)|bass[\\s_]*sub|low[\\s_]*end", Some("bass"), true, true, false)
    }
}

fn category_part1(i: usize) -> (r: (&'static str, &'static str, Option<&'static str>, bool, bool, bool))
    requires
        15 <= i < 30,
    ensures
        category_view(r) == category_entry(i as int),
{
    if i == 15 {
        ("mid_bass", "(?i)(?:^|[\\s_\\-./])(?:bass|reese|hoover|wobble)(?:[\\s_\\-./]|$)", Some("bass"), false, true, true)
    } else if i == 16 {
        ("lead", "(?i)(?:^|[\\s_\\-./])(?:leads?|riffs?)(?:[\\s_\\-./]|$)|(?:^|[\\s_\\-])ld[_\\-]|synth[\\s_]*lead", Some("melodic"), false, true, true)
    } else if i == 17 {
        ("pad", "(?i)(?:^|[\\s_\\-./])(?:pads?|strings?|chords?|evolve)(?:[\\s_\\-./]|$)", Some("melodic"), false, true, true)
    } else if i == 18 {
        ("arp", "(?i)(?:^|[\\s_\\-./])(?:arps?|sequences?)(?:[\\s_\\-./]|$)|(?:^|[\\s_\\-])seq[_\\-]", Some("melodic"), false, true, true)
    } else if i == 19 {
        ("pluck", "(?i)(?:^|[\\s_\\-./])(?:plucks?|pizz|picked|marimba)(?:[\\s_\\-./]|$)", Some("melodic"), true, true, false)
    } else if i == 20 {
        ("stab", "(?i)(?:^|[\\s_\\-./])(?:stabs?|brass)(?:[\\s_\\-./]|$)", Some("melodic"), true, true, false)
    } else if i == 21 {
        ("acid", "(?i)(?:^|[\\s_\\-./])(?:acid|303|squelch)(?:[\\s_\\-./]|$)", Some("melodic"), false, true, true)
    } else if i == 22 {
        ("atmos", "(?i)(?:^|[\\s_\\-./])(?:atmos|ambient|drone|soundscape|background)(?:[\\s_\\-./]|$)", Some("atmos"), false, true, false)
    } else if i == 23 {
        ("texture", "(?i)(?:^|[\\s_\\-./])(?:texture|foley)(?:[\\s_\\-./]|$)|field[\\s_]*rec", Some("atmos"), false, false, false)
    } else if i == 24 {
        ("noise", "(?i)(?:^|[\\s_\\-./])(?:noise|static|hiss|crackle)(?:[\\s_\\-./]|$)", Some("atmos"), false, false, false)
    } else if i == 25 {
        ("tape", "(?i)(?:^|[\\s_\\-./])(?:tape|vinyl|lo-?fi|cassette)(?:[\\s_\\-./]|$)", Some("atmos"), false, false, false)
    } else if i == 26 {
        ("fx_riser", "(?i)(?:^|[\\s_\\-./])(?:riser|rise|tension|ascend)(?:[\\s_\\-./]|$)|sweep[\\s_]*up|uplifter|build[\\s_]*up", Some("fx"), false, false, false)
    } else if i == 27 {
        ("fx_downer", "(?i)(?:^|[\\s_\\-./])(?:downer|downlifter|descend)(?:[\\s_\\-./]|$)|sweep[\\s_]*down|down[\\s_]*sweep", Some("fx"), false, false, false)
    } else if i == 28 {
        ("fx_swell", "(?i)(?:^|[\\s_\\-./])(?:swell|bloom|expand)(?:[\\s_\\-./]|$)", Some("fx"), false, false, false)
    } else {
        ("fx_crash", "(?i)(?:^|[\\s_\\-./])(?:crash|china|splash)(?:[\\s_\\-./]|$)", Some("fx"), true, false, false)
    }
}

fn category_part2(i: usize) -> (r: (&'static str, &'static str, Option<&'static str>, bool, bool, bool))
    requires
        30 <= i < 45,
    ensures
        category_view(r) == category_entry(i as int),
{
    if i == 30 {
        ("fx_impact", "(?i)(?:^|[\\s_\\-./])(?:impact|slam|boom|thud)(?:[\\s_\\-./]|$)", Some("fx"), true, false, false)
    } else if i == 31 {
        ("fx_explosion", "(?i)(?:^|[\\s_\\-./])(?:explo|burst|detonate|blast)(?:[\\s_\\-./]|$)", Some("fx"), true, false, false)
    } else if i == 32 {
        ("fx_fill", "(?i)(?:^|[\\s_\\-./])(?:fill|buildup)(?:[\\s_\\-./]|$)|snare[\\s_]*roll|drum[\\s_]*break", Some("fx"), false, false, true)
    } else if i == 33 {
        ("fx_glitch", "(?i)(?:^|[\\s_\\-./])(?:glitch|stutter|chop|slice|granular|buffer)(?:[\\s_\\-./]|$)", Some("fx"), false, false, true)
    } else if i == 34 {
        ("fx_whoosh", "(?i)(?:^|[\\s_\\-./])(?:whoosh|swish|swoosh)(?:[\\s_\\-./]|$)", Some("fx"), true, false, false)
    } else if i == 35 {
        ("fx_laser", "(?i)(?:^|[\\s_\\-./])(?:laser|zap|beam|blaster)(?:[\\s_\\-./]|$)|sci-?fi", Some("fx"), true, false, false)
    } else if i == 36 {
        ("fx_reverse", "(?i)(?:^|[\\s_\\-./])(?:reverse|reversed|backwards)(?:[\\s_\\-./]|$)|(?:^|[\\s_\\-])rev[_\\-]", Some("fx"), true, false, false)
    } else if i == 37 {
        ("fx_sub_drop", "(?i)sub[\\s_]*drop|808[\\s_]*drop|bass[\\s_]*drop", Some("fx"), true, false, false)
    } else if i == 38 {
        ("fx_white_noise", "(?i)white[\\s_]*noise|noise[\\s_]*sweep|filtered[\\s_]*noise", Some("fx"), false, false, false)
    } else if i == 39 {
        ("fx_vocal", "(?i)fx[\\s_]*vox|vocal[\\s_]*fx|processed[\\s_]*vocal|vocal[\\s_]*chop", Some("fx"), false, false, true)
    } else if i == 40 {
        ("fx_misc", "(?i)(?:^|[\\s_\\-./])(?:fx|sfx|transition|cinematic)(?:[\\s_\\-./]|$)", Some("fx"), false, false, false)
    } else if i == 41 {
        ("vocal_chop", "(?i)vocal[\\s_]*chop|chop[\\s_]*vocal|vox[\\s_]*chop", Some("vocal"), false, false, true)
    } else if i == 42 {
        ("vocal_phrase", "(?i)vocal[\\s_]*phrase|(?:^|[\\s_\\-./])(?:phrase|spoken|speech)(?:[\\s_\\-./]|$)", Some("vocal"), false, true, false)
    } else if i == 43 {
        ("vocal_adlib", "(?i)(?:^|[\\s_\\-./])(?:adlib|shout|scream)(?:[\\s_\\-./]|$)", Some("vocal"), true, false, false)
    } else {
        ("vocal", "(?i)(?:^|[\\s_\\-./])(?:vox|vocals?|voices?|chants?|acapella)(?:[\\s_\\-./]|$)", Some("vocal"), false, true, false)
    }
}

pub open spec fn category_view(r: (&str, &str, Option<&str>, bool, bool, bool)) -> (Seq<char>, Seq<char>, Option<Seq<char>>, bool, bool, bool) {
    (r.0@, r.1@, opt_view(r.2), r.3, r.4, r.5)
}

fn category_at(i: usize) -> (r: (&'static str, &'static str, Option<&'static str>, bool, bool, bool))
    requires
        i < CATEGORY_COUNT,
    ensures
        category_view(r) == category_entry(i as int),
{
    if i < 15 {
        category_part0(i)
    } else if i < 30 {
        category_part1(i)
    } else {
        category_part2(i)
    }
}

/// A sample category: its name, its parent category, the pattern (regular
/// expression source) that recognises it in names and folders, and how samples
/// of it are used.
#[derive(Debug, Clone)]
pub struct CategoryPattern {
    pub name: &'static str,
    pub parent: Option<&'static str>,
    pub pattern: &'static str,
    pub is_oneshot: bool,
    pub is_key_sensitive: bool,
    pub is_loop_preferred: bool,
}

/// The category table entry that `p` holds.
pub open spec fn pattern_view(p: CategoryPattern) -> (Seq<char>, Seq<char>, Option<Seq<char>>, bool, bool, bool) {
    (p.name@, p.pattern@, opt_view(p.parent), p.is_oneshot, p.is_key_sensitive, p.is_loop_preferred)
}

/// All category patterns, most specific first (the first that matches wins).
pub fn category_patterns() -> (r: Vec<CategoryPattern>)
    ensures
        r@.len() == CATEGORY_COUNT,
        forall|i: int| 0 <= i < CATEGORY_COUNT ==> pattern_view(#[trigger] r@[i]) == category_entry(i),
{
    let mut out: Vec<CategoryPattern> = Vec::new();
    let mut i: usize = 0;
    while i < CATEGORY_COUNT
        invariant
            i <= CATEGORY_COUNT,
            out@.len() == i,
            forall|k: int| 0 <= k < i ==> pattern_view(#[trigger] out@[k]) == category_entry(k),
        decreases CATEGORY_COUNT - i,
    {
        let (name, pattern, parent, is_oneshot, is_key_sensitive, is_loop_preferred) = category_at(i);
        out.push(CategoryPattern { name, parent, pattern, is_oneshot, is_key_sensitive, is_loop_preferred });
        i = i + 1;
    }
    out
}

/// The category a sample matched. `confidence_pct` is 100 when the file name
/// matched and 60 when only the directory did.
#[derive(Debug)]
pub struct CategoryMatch {
    pub name: String,
    pub parent: Option<String>,
    pub confidence_pct: u8,
    pub is_oneshot: bool,
    pub is_key_sensitive: bool,
    pub is_loop_preferred: bool,
}

pub open spec fn is_ascii_lower(c: char) -> bool {
    'a' <= c <= 'z'
}

pub open spec fn is_ascii_upper(c: char) -> bool {
    'A' <= c <= 'Z'
}

/// `_` inserted wherever an ASCII upper-case letter follows an ASCII
/// lower-case one ("TechKick" → "Tech_Kick").
pub open spec fn spec_normalize_for_matching(s: Seq<char>) -> Seq<char>
    decreases s.len(),
{
    if s.len() == 0 {
        s
    } else {
        let before = spec_normalize_for_matching(s.drop_last());
        if s.len() >= 2 && is_ascii_lower(s[s.len() - 2]) && is_ascii_upper(s.last()) {
            before + seq!['_', s.last()]
        } else {
            before.push(s.last())
        }
    }
}

/// Splits camelCase words with `_` so that delimiter-bounded patterns see them.
pub fn normalize_for_matching(s: &str) -> (r: String)
    ensures
        r@ == spec_normalize_for_matching(s@),
{
    let cs = chars_of(s);
    let mut out = String::new();
    let mut prev_lower = false;
    let mut i: usize = 0;
    while i < cs.len()
        invariant
            cs@ == s@,
            i <= cs.len(),
            out@ == spec_normalize_for_matching(s@.take(i as int)),
            prev_lower == (i > 0 && is_ascii_lower(s@[i - 1])),
        decreases cs.len() - i,
    {
        let ch = cs[i];
        proof {
            assert(s@.take(i + 1).drop_last() =~= s@.take(i as int));
            assert(s@.take(i + 1).last() == ch);
            if i > 0 {
                assert(s@.take(i + 1)[i - 1] == s@[i - 1]);
            }
        }
        if prev_lower && 'A' <= ch && ch <= 'Z' {
            push_char(&mut out, '_');
        }
        push_char(&mut out, ch);
        prev_lower = 'a' <= ch && ch <= 'z';
        i = i + 1;
        assert(out@ =~= spec_normalize_for_matching(s@.take(i as int)));
    }
    assert(s@.take(i as int) =~= s@);
    out
}

/// ASCII upper-case letters to lower case.
pub open spec fn lower_byte(b: u8) -> u8 {
    if 65 <= b <= 90 {
        (b + 32) as u8
    } else {
        b
    }
}

pub open spec fn lower_bytes(b: Seq<u8>) -> Seq<u8> {
    b.map_values(|x: u8| lower_byte(x))
}

/// `_`, `-`, space or `.`.
pub open spec fn is_sep_byte(b: u8) -> bool {
    b == 95 || b == 45 || b == 32 || b == 46
}

pub open spec fn trim_seps(b: Seq<u8>) -> Seq<u8>
    decreases b.len(),
{
    if b.len() > 0 && is_sep_byte(b.last()) {
        trim_seps(b.drop_last())
    } else {
        b
    }
}

pub open spec fn ends_with_bytes(b: Seq<u8>, suffix: Seq<u8>) -> bool {
    suffix.len() <= b.len() && b.subrange(b.len() - suffix.len(), b.len() as int) == suffix
}

/// The text before byte `start`, lower-cased and without trailing `_ - . `,
/// ends with "no", "non" or "without".
pub open spec fn spec_is_negated(text: Seq<char>, start: int) -> bool {
    let p = trim_seps(lower_bytes(encode_utf8(text).take(start)));
    ||| ends_with_bytes(p, seq![110u8, 111u8])
    ||| ends_with_bytes(p, seq![110u8, 111u8, 110u8])
    ||| ends_with_bytes(p, seq![119u8, 105u8, 116u8, 104u8, 111u8, 117u8, 116u8])
}

fn lower_u8(b: u8) -> (r: u8)
    ensures
        r == lower_byte(b),
{
    if 65 <= b && b <= 90 {
        b + 32
    } else {
        b
    }
}

fn lowered_ends_with(bytes: &[u8], end: usize, suffix: &[u8]) -> (r: bool)
    requires
        end <= bytes@.len(),
    ensures
        r == ends_with_bytes(lower_bytes(bytes@.take(end as int)), suffix@),
{
    let ghost l = lower_bytes(bytes@.take(end as int));
    if suffix.len() > end {
        return false;
    }
    let off = end - suffix.len();
    let mut k: usize = 0;
    while k < suffix.len()
        invariant
            l == lower_bytes(bytes@.take(end as int)),
            off + suffix.len() == end,
            end <= bytes@.len(),
            k <= suffix.len(),
            forall|m: int| 0 <= m < k ==> l[off + m] == suffix@[m],
        decreases suffix.len() - k,
    {
        if lower_u8(bytes[off + k]) != suffix[k] {
            assert(l.subrange(off as int, end as int)[k as int] != suffix@[k as int]);
            return false;
        }
        k = k + 1;
    }
    assert(l.subrange(off as int, end as int) =~= suffix@);
    true
}

/// Whether the match at byte `start` of `text` follows a negation ("No Kick").
pub fn is_negated(text: &str, start: usize) -> (r: bool)
    requires
        start <= encode_utf8(text@).len(),
        is_char_boundary(encode_utf8(text@), start as int),
    ensures
        r == spec_is_negated(text@, start as int),
{
    let bytes = text.as_bytes();
    let ghost l = lower_bytes(bytes@.take(start as int));
    let mut end: usize = start;
    assert(l.take(start as int) =~= l);
    while end > 0 && (lower_u8(bytes[end - 1]) == 95 || lower_u8(bytes[end - 1]) == 45 || lower_u8(bytes[end - 1]) == 32
        || lower_u8(bytes[end - 1]) == 46)
        invariant
            l == lower_bytes(bytes@.take(start as int)),
            bytes@ == encode_utf8(text@),
            end <= start <= bytes@.len(),
            trim_seps(l) == trim_seps(l.take(end as int)),
        decreases end,
    {
        assert(l.take(end as int).drop_last() =~= l.take(end - 1));
        end = end - 1;
    }
    assert(trim_seps(l.take(end as int)) == l.take(end as int));
    assert(l.take(end as int) =~= lower_bytes(bytes@.take(end as int)));
    let no: [u8; 2] = [110, 111];
    let non: [u8; 3] = [110, 111, 110];
    let without: [u8; 7] = [119, 105, 116, 104, 111, 117, 116];
    assert(no@ =~= seq![110u8, 111u8]);
    assert(non@ =~= seq![110u8, 111u8, 110u8]);
    assert(without@ =~= seq![119u8, 105u8, 116u8, 104u8, 111u8, 117u8, 116u8]);
    lowered_ends_with(bytes, end, &no) || lowered_ends_with(bytes, end, &non) || lowered_ends_with(bytes, end, &without)
}

/// Category `i` matches `text` at a place no negation word precedes.
pub open spec fn category_hit(text: Seq<char>, i: int) -> bool {
    match regex_find(category_entry(i).1, text) {
        Some(Some(m)) => !spec_is_negated(text, m.0 as int),
        _ => false,
    }
}

/// The first category from `from` on that `text` hits.
pub open spec fn first_category(text: Seq<char>, from: int) -> Option<int>
    decreases CATEGORY_COUNT - from,
{
    if from < 0 || from >= CATEGORY_COUNT {
        None
    } else if category_hit(text, from) {
        Some(from)
    } else {
        first_category(text, from + 1)
    }
}

/// The category index and confidence in percent for a sample: the first
/// category hit in the normalised file name (100), else in the normalised
/// directory (60).
pub open spec fn spec_match_category(name: Seq<char>, directory: Seq<char>) -> Option<(int, u8)> {
    match first_category(spec_normalize_for_matching(name), 0) {
        Some(i) => Some((i, 100u8)),
        None => match first_category(spec_normalize_for_matching(directory), 0) {
            Some(i) => Some((i, 60u8)),
            None => None,
        },
    }
}

pub open spec fn opt_string_view(o: Option<String>) -> Option<Seq<char>> {
    match o {
        Some(s) => Some(s@),
        None => None,
    }
}

/// The match describes category `i` with confidence `pct`.
pub open spec fn describes(m: CategoryMatch, i: int, pct: u8) -> bool {
    let e = category_entry(i);
    &&& m.name@ == e.0
    &&& opt_string_view(m.parent) == e.2
    &&& m.confidence_pct == pct
    &&& m.is_oneshot == e.3
    &&& m.is_key_sensitive == e.4
    &&& m.is_loop_preferred == e.5
}

fn first_category_in(text: &str) -> (r: Option<usize>)
    ensures
        match r {
            Some(i) => first_category(text@, 0) == Some(i as int) && i < CATEGORY_COUNT,
            None => first_category(text@, 0) is None,
        },
{
    let mut i: usize = 0;
    while i < CATEGORY_COUNT
        invariant
            i <= CATEGORY_COUNT,
            first_category(text@, 0) == first_category(text@, i as int),
        decreases CATEGORY_COUNT - i,
    {
        let e = category_at(i);
        if let Some(Some(m)) = find(e.1, text) {
            if !is_negated(text, m.0) {
                assert(category_hit(text@, i as int));
                return Some(i);
            }
        }
        assert(!category_hit(text@, i as int));
        i = i + 1;
    }
    None
}

fn category_match_of(i: usize, pct: u8) -> (r: CategoryMatch)
    requires
        i < CATEGORY_COUNT,
    ensures
        describes(r, i as int, pct),
{
    let e = category_at(i);
    let parent = match e.2 {
        Some(p) => Some(owned(p)),
        None => None,
    };
    CategoryMatch {
        name: owned(e.0),
        parent,
        confidence_pct: pct,
        is_oneshot: e.3,
        is_key_sensitive: e.4,
        is_loop_preferred: e.5,
    }
}

/// The category of a sample: the file name is tried first (confidence 100),
/// the directory as a fallback (confidence 60); a match right after "No",
/// "Non" or "Without" does not count.
pub fn match_category(name: &str, directory: &str) -> (r: Option<CategoryMatch>)
    ensures
        match r {
            Some(m) => spec_match_category(name@, directory@) matches Some(x) && describes(m, x.0, x.1),
            None => spec_match_category(name@, directory@) is None,
        },
{
    let norm_name = normalize_for_matching(name);
    if let Some(i) = first_category_in(norm_name.as_str()) {
        return Some(category_match_of(i, 100));
    }
    let norm_dir = normalize_for_matching(directory);
    if let Some(i) = first_category_in(norm_dir.as_str()) {
        return Some(category_match_of(i, 60));
    }
    None
}

// ---------------------------------------------------------------------------
// Pack and manufacturer
// ---------------------------------------------------------------------------

/// Entry `i` of the manufacturer table: the name searched for, then genre and
/// hardness scores in hundredths (genre -100 techno … 100 trance; hardness
/// -100 soft … 100 hard).
pub open spec fn signal_entry(i: int) -> (Seq<char>, i8, i8) {
    if i < 25 {
        signal_part_spec0(i)
    } else if i < 50 {
        signal_part_spec1(i)
    } else if i < 75 {
        signal_part_spec2(i)
    } else if i < 100 {
        signal_part_spec3(i)
    } else if i < 125 {
        signal_part_spec4(i)
    } else if i < 150 {
        signal_part_spec5(i)
    } else if i < 175 {
        signal_part_spec6(i)
    } else if i < 200 {
        signal_part_spec7(i)
    } else {
        signal_part_spec8(i)
    }
}

pub open spec fn signal_part_spec0(i: int) -> (Seq<char>, i8, i8) {
    if i == 0 {
        ("Tidy"@, 70i8, 90i8)
    } else if i == 1 {
        ("Full On"@, 90i8, 50i8)
    } else if i == 2 {
        ("Vandit"@, 90i8, 30i8)
    } else if i == 3 {
        ("Armada"@, 70i8, 0i8)
    } else if i == 4 {
        ("Anjuna"@, 80i8, 0i8)
    } else if i == 5 {
        ("FSOE"@, 90i8, 30i8)
    } else if i == 6 {
        ("Blackhole"@, 80i8, 20i8)
    } else if i == 7 {
        ("Grotesque"@, 80i8, 40i8)
    } else if i == 8 {
        ("WAO138"@, 90i8, 60i8)
    } else if i == 9 {
        ("Kearnage"@, 90i8, 70i8)
    } else if i == 10 {
        ("Subculture"@, 80i8, 50i8)
    } else if i == 11 {
        ("Outburst"@, 80i8, 60i8)
    } else if i == 12 {
        ("VII"@, 80i8, 40i8)
    } else if i == 13 {
        ("Pure Trance"@, 90i8, 30i8)
    } else if i == 14 {
        ("Damaged"@, 70i8, 80i8)
    } else if i == 15 {
        ("Definition of Hard Techno"@, -100i8, 100i8)
    } else if i == 16 {
        ("definitionofhardtechno"@, -100i8, 100i8)
    } else if i == 17 {
        ("Chris Liebing"@, -100i8, 95i8)
    } else if i == 18 {
        ("Stigmata"@, -100i8, 95i8)
    } else if i == 19 {
        ("Arkus P"@, -100i8, 100i8)
    } else if i == 20 {
        ("Robert Natus"@, -100i8, 100i8)
    } else if i == 21 {
        ("Viper XXL"@, -100i8, 100i8)
    } else if i == 22 {
        ("Leo Laker"@, -100i8, 100i8)
    } else if i == 23 {
        ("Sven Wittekind"@, -100i8, 100i8)
    } else {
        ("DJ Rush"@, -100i8, 90i8)
    }
}

pub open spec fn signal_part_spec1(i: int) -> (Seq<char>, i8, i8) {
    if i == 25 {
        ("Boris S"@, -100i8, 100i8)
    } else if i == 26 {
        ("Frank Kvitta"@, -100i8, 100i8)
    } else if i == 27 {
        ("O.B.I."@, -100i8, 100i8)
    } else if i == 28 {
        ("Noise Not War"@, -100i8, 100i8)
    } else if i == 29 {
        ("Klangkuenstler"@, -100i8, 95i8)
    } else if i == 30 {
        ("Pet Duo"@, -100i8, 95i8)
    } else if i == 31 {
        ("A.N.I"@, -100i8, 100i8)
    } else if i == 32 {
        ("Nikolina"@, -100i8, 95i8)
    } else if i == 33 {
        ("TRIPTYKH"@, -100i8, 100i8)
    } else if i == 34 {
        ("Elektrabel"@, -100i8, 100i8)
    } else if i == 35 {
        ("Schranz Total"@, -100i8, 100i8)
    } else if i == 36 {
        ("Schranz"@, -100i8, 100i8)
    } else if i == 37 {
        ("Hardtechno"@, -100i8, 100i8)
    } else if i == 38 {
        ("Hard Techno"@, -100i8, 100i8)
    } else if i == 39 {
        ("Amok"@, -100i8, 100i8)
    } else if i == 40 {
        ("Nachtstrom"@, -100i8, 95i8)
    } else if i == 41 {
        ("MB Elektronics"@, -100i8, 90i8)
    } else if i == 42 {
        ("Drumcode"@, -90i8, 50i8)
    } else if i == 43 {
        ("Filth on Acid"@, -80i8, 70i8)
    } else if i == 44 {
        ("Exhale"@, -70i8, 70i8)
    } else if i == 45 {
        ("KNTXT"@, -80i8, 60i8)
    } else if i == 46 {
        ("Possession"@, -70i8, 85i8)
    } else if i == 47 {
        ("Perc Trax"@, -80i8, 80i8)
    } else if i == 48 {
        ("Mord"@, -90i8, 85i8)
    } else {
        ("Planet Rhythm"@, -80i8, 50i8)
    }
}

pub open spec fn signal_part_spec2(i: int) -> (Seq<char>, i8, i8) {
    if i == 50 {
        ("Soma"@, -70i8, 30i8)
    } else if i == 51 {
        ("Tresor"@, -80i8, 30i8)
    } else if i == 52 {
        ("Ostgut Ton"@, -90i8, 40i8)
    } else if i == 53 {
        ("CLR"@, -90i8, 70i8)
    } else if i == 54 {
        ("Tronic"@, -70i8, 40i8)
    } else if i == 55 {
        ("Bedrock"@, -60i8, 20i8)
    } else if i == 56 {
        ("Cocoon"@, -70i8, 30i8)
    } else if i == 57 {
        ("Minus"@, -80i8, 20i8)
    } else if i == 58 {
        ("M_nus"@, -80i8, 20i8)
    } else if i == 59 {
        ("ZTEKNO"@, -80i8, 50i8)
    } else if i == 60 {
        ("True Samples"@, -30i8, 20i8)
    } else if i == 61 {
        ("Loopmasters"@, 0i8, 0i8)
    } else if i == 62 {
        ("Splice"@, 0i8, 0i8)
    } else if i == 63 {
        ("Sample Magic"@, 0i8, 0i8)
    } else if i == 64 {
        ("Vengeance"@, 0i8, 30i8)
    } else if i == 65 {
        ("Black Octopus"@, 0i8, 0i8)
    } else if i == 66 {
        ("Ghosthack"@, 0i8, 20i8)
    } else if i == 67 {
        ("Industrial Strength"@, -50i8, 90i8)
    } else if i == 68 {
        ("Singomakers"@, 0i8, 0i8)
    } else if i == 69 {
        ("Function Loops"@, 0i8, 0i8)
    } else if i == 70 {
        ("Producer Loops"@, 0i8, 0i8)
    } else if i == 71 {
        ("Zenhiser"@, 0i8, 10i8)
    } else if i == 72 {
        ("Freshly Squeezed"@, 70i8, 30i8)
    } else if i == 73 {
        ("Mutekki"@, -60i8, 40i8)
    } else {
        ("Toolroom"@, -40i8, 20i8)
    }
}

pub open spec fn signal_part_spec3(i: int) -> (Seq<char>, i8, i8) {
    if i == 75 {
        ("Revealed"@, 30i8, 40i8)
    } else if i == 76 {
        ("Spinnin"@, 20i8, 20i8)
    } else if i == 77 {
        ("Noiiz"@, -30i8, 30i8)
    } else if i == 78 {
        ("noizz"@, -30i8, 30i8)
    } else if i == 79 {
        ("UNDRGRND"@, -60i8, 30i8)
    } else if i == 80 {
        ("Riemann"@, -80i8, 50i8)
    } else if i == 81 {
        ("SINEE"@, -90i8, 80i8)
    } else if i == 82 {
        ("Bluezone"@, -50i8, 60i8)
    } else if i == 83 {
        ("Datacode"@, -60i8, 40i8)
    } else if i == 84 {
        ("Sonic Academy"@, -30i8, 30i8)
    } else if i == 85 {
        ("Glitchedtones"@, -30i8, 50i8)
    } else if i == 86 {
        ("Glitchmachines"@, -30i8, 50i8)
    } else if i == 87 {
        ("Ueberschall"@, -50i8, 60i8)
    } else if i == 88 {
        ("Zero-G"@, 0i8, 0i8)
    } else if i == 89 {
        ("Resonance Sound"@, -30i8, 30i8)
    } else if i == 90 {
        ("Samplesound"@, -40i8, 20i8)
    } else if i == 91 {
        ("ADSR"@, 0i8, 0i8)
    } else if i == 92 {
        ("Sounds of KSHMR"@, 0i8, 30i8)
    } else if i == 93 {
        ("R-Loops"@, 0i8, 0i8)
    } else if i == 94 {
        ("Myloops"@, 70i8, 30i8)
    } else if i == 95 {
        ("Samplified"@, 0i8, 0i8)
    } else if i == 96 {
        ("Sounds.com"@, -30i8, 30i8)
    } else if i == 97 {
        ("from Mars"@, -50i8, 30i8)
    } else if i == 98 {
        ("Producers Choice"@, 0i8, 0i8)
    } else {
        ("WA Production"@, 0i8, 0i8)
    }
}

pub open spec fn signal_part_spec4(i: int) -> (Seq<char>, i8, i8) {
    if i == 100 {
        ("W. A. Production"@, 0i8, 0i8)
    } else if i == 101 {
        ("WA_Prod"@, 0i8, 0i8)
    } else if i == 102 {
        ("WAProd"@, 0i8, 0i8)
    } else if i == 103 {
        ("Angry Parrot"@, 0i8, 0i8)
    } else if i == 104 {
        ("AngryParrot"@, 0i8, 0i8)
    } else if i == 105 {
        ("Soundtrack Loops"@, 0i8, 0i8)
    } else if i == 106 {
        ("soundtrack_loops"@, 0i8, 0i8)
    } else if i == 107 {
        ("glitchmach"@, -30i8, 50i8)
    } else if i == 108 {
        ("glitchtone"@, -30i8, 50i8)
    } else if i == 109 {
        ("Asonic"@, 0i8, 0i8)
    } else if i == 110 {
        ("Computer Music"@, 0i8, 0i8)
    } else if i == 111 {
        ("sonicacademy"@, -30i8, 30i8)
    } else if i == 112 {
        ("functionloops"@, 0i8, 0i8)
    } else if i == 113 {
        ("from_mars"@, -50i8, 30i8)
    } else if i == 114 {
        ("Krotosaudio"@, 0i8, 0i8)
    } else if i == 115 {
        ("Allen Watts"@, 90i8, 50i8)
    } else if i == 116 {
        ("Bryan Kearney"@, 90i8, 70i8)
    } else if i == 117 {
        ("Simon Patterson"@, 80i8, 50i8)
    } else if i == 118 {
        ("John Askew"@, 80i8, 70i8)
    } else if i == 119 {
        ("Sean Tyas"@, 80i8, 50i8)
    } else if i == 120 {
        ("Will Atkinson"@, 80i8, 60i8)
    } else if i == 121 {
        ("Adam Ellis"@, 90i8, 40i8)
    } else if i == 122 {
        ("ReOrder"@, 90i8, 40i8)
    } else if i == 123 {
        ("Sneijder"@, 80i8, 60i8)
    } else {
        ("Factor B"@, 90i8, 30i8)
    }
}

pub open spec fn signal_part_spec5(i: int) -> (Seq<char>, i8, i8) {
    if i == 125 {
        ("Adam Beyer"@, -90i8, 50i8)
    } else if i == 126 {
        ("Charlotte de Witte"@, -80i8, 70i8)
    } else if i == 127 {
        ("Amelie Lens"@, -70i8, 70i8)
    } else if i == 128 {
        ("Reinier Zonneveld"@, -80i8, 70i8)
    } else if i == 129 {
        ("UMEK"@, -70i8, 50i8)
    } else if i == 130 {
        ("Enrico Sangiuliano"@, -70i8, 50i8)
    } else if i == 131 {
        ("Spartaque"@, -80i8, 60i8)
    } else if i == 132 {
        ("Alignment"@, -80i8, 80i8)
    } else if i == 133 {
        ("DYEN"@, -70i8, 60i8)
    } else if i == 134 {
        ("Afterlife"@, -50i8, 20i8)
    } else if i == 135 {
        ("Tale of Us"@, -50i8, 10i8)
    } else if i == 136 {
        ("Metta & Glyde"@, 90i8, 50i8)
    } else if i == 137 {
        ("Metta Glyde"@, 90i8, 50i8)
    } else if i == 138 {
        ("mettaglyde"@, 90i8, 50i8)
    } else if i == 139 {
        ("Sunny Lax"@, 80i8, 20i8)
    } else if i == 140 {
        ("Activa"@, 90i8, 50i8)
    } else if i == 141 {
        ("Dave Parkinson"@, 70i8, 40i8)
    } else if i == 142 {
        ("Driftmoon"@, 80i8, 40i8)
    } else if i == 143 {
        ("Max Braiman"@, 90i8, 50i8)
    } else if i == 144 {
        ("Temple One"@, 90i8, 30i8)
    } else if i == 145 {
        ("Thrillseekers"@, 80i8, 40i8)
    } else if i == 146 {
        ("Talamanca"@, 70i8, 20i8)
    } else if i == 147 {
        ("Kobana"@, 50i8, 10i8)
    } else if i == 148 {
        ("Jerome Isma-Ae"@, 50i8, 30i8)
    } else {
        ("Ad Brown"@, 50i8, 20i8)
    }
}

pub open spec fn signal_part_spec6(i: int) -> (Seq<char>, i8, i8) {
    if i == 150 {
        ("Vitodito"@, 60i8, 20i8)
    } else if i == 151 {
        ("Genix"@, 80i8, 50i8)
    } else if i == 152 {
        ("Sander Van Doorn"@, 60i8, 40i8)
    } else if i == 153 {
        ("Kolonie"@, 70i8, 30i8)
    } else if i == 154 {
        ("Looplicious"@, 60i8, 10i8)
    } else if i == 155 {
        ("Carl Cox"@, -80i8, 50i8)
    } else if i == 156 {
        ("Axel Karakasis"@, -80i8, 60i8)
    } else if i == 157 {
        ("David Moleon"@, -90i8, 70i8)
    } else if i == 158 {
        ("Pedro Delgardo"@, -90i8, 70i8)
    } else if i == 159 {
        ("Alex Di Stefano"@, 80i8, 60i8)
    } else if i == 160 {
        ("Airbase"@, 90i8, 30i8)
    } else if i == 161 {
        ("Bart Skils"@, -80i8, 60i8)
    } else if i == 162 {
        ("Sean Truby"@, 90i8, 40i8)
    } else if i == 163 {
        ("Ryan K"@, 80i8, 50i8)
    } else if i == 164 {
        ("Laura May"@, 0i8, 50i8)
    } else if i == 165 {
        ("Tom Exo"@, 90i8, 40i8)
    } else if i == 166 {
        ("MAG Signature"@, 90i8, 50i8)
    } else if i == 167 {
        ("Trance Euphoria"@, 90i8, 40i8)
    } else if i == 168 {
        ("HighLife Samples"@, 70i8, 30i8)
    } else if i == 169 {
        ("Nano Musik Loops"@, 60i8, 20i8)
    } else if i == 170 {
        ("Wave Alchemy"@, -50i8, 30i8)
    } else if i == 171 {
        ("ModeAudio"@, -40i8, 20i8)
    } else if i == 172 {
        ("Mind Flux"@, -60i8, 40i8)
    } else if i == 173 {
        ("Noise Design"@, -60i8, 50i8)
    } else {
        ("Element One"@, -50i8, 30i8)
    }
}

pub open spec fn signal_part_spec7(i: int) -> (Seq<char>, i8, i8) {
    if i == 175 {
        ("CONNECTD Audio"@, -50i8, 30i8)
    } else if i == 176 {
        ("Artisan Audio"@, -50i8, 30i8)
    } else if i == 177 {
        ("Samplestate"@, -50i8, 30i8)
    } else if i == 178 {
        ("Push Button Bang"@, -40i8, 30i8)
    } else if i == 179 {
        ("Leitmotif"@, -50i8, 30i8)
    } else if i == 180 {
        ("Konturi"@, -60i8, 40i8)
    } else if i == 181 {
        ("EST Studios"@, -50i8, 30i8)
    } else if i == 182 {
        ("Blind Audio"@, -50i8, 30i8)
    } else if i == 183 {
        ("Form Audioworks"@, -40i8, 20i8)
    } else if i == 184 {
        ("THICK Sounds"@, -60i8, 50i8)
    } else if i == 185 {
        ("BFractal Music"@, -50i8, 30i8)
    } else if i == 186 {
        ("ODD SMPLS"@, -50i8, 40i8)
    } else if i == 187 {
        ("Rankin Audio"@, -40i8, 30i8)
    } else if i == 188 {
        ("Production Music Live"@, -50i8, 20i8)
    } else if i == 189 {
        ("Sample Tools By Cr2"@, -30i8, 20i8)
    } else if i == 190 {
        ("Cr2 Records"@, -30i8, 20i8)
    } else if i == 191 {
        ("Defected"@, -20i8, 0i8)
    } else if i == 192 {
        ("Deeperfect"@, -40i8, 30i8)
    } else if i == 193 {
        ("House Of Loop"@, -30i8, 20i8)
    } else if i == 194 {
        ("Hot Creations"@, -30i8, 20i8)
    } else if i == 195 {
        ("Looptone"@, -30i8, 20i8)
    } else if i == 196 {
        ("Bass Boutique"@, -20i8, 30i8)
    } else if i == 197 {
        ("Class A Samples"@, -30i8, 20i8)
    } else if i == 198 {
        ("Ghost Syndicate"@, -30i8, 50i8)
    } else {
        ("Production Master"@, -20i8, 40i8)
    }
}

pub open spec fn signal_part_spec8(i: int) -> (Seq<char>, i8, i8) {
    if i == 200 {
        ("Renegade Audio"@, -30i8, 40i8)
    } else if i == 201 {
        ("Soul Rush Records"@, -20i8, 30i8)
    } else if i == 202 {
        ("5Pin Media"@, -20i8, 20i8)
    } else if i == 203 {
        ("LP24 Audio"@, -20i8, 30i8)
    } else if i == 204 {
        ("Capsun ProAudio"@, -10i8, 30i8)
    } else if i == 205 {
        ("IQ Samples"@, -30i8, 30i8)
    } else if i == 206 {
        ("VIPZONE Samples"@, 30i8, 80i8)
    } else if i == 207 {
        ("Cymatics"@, 0i8, 0i8)
    } else if i == 208 {
        ("Big Fish Audio"@, 0i8, 0i8)
    } else if i == 209 {
        ("Loopcloud"@, 0i8, 0i8)
    } else if i == 210 {
        ("Beatport Sounds"@, 0i8, 0i8)
    } else if i == 211 {
        ("Touch Loops"@, 0i8, 0i8)
    } else if i == 212 {
        ("Prime Loops"@, 0i8, 0i8)
    } else if i == 213 {
        ("Cinetools"@, 0i8, 0i8)
    } else if i == 214 {
        ("Audentity Records"@, 10i8, 20i8)
    } else if i == 215 {
        ("Vandalism"@, 20i8, 30i8)
    } else if i == 216 {
        ("Equinox Sounds"@, 0i8, 0i8)
    } else if i == 217 {
        ("EarthMoments"@, 0i8, 0i8)
    } else if i == 218 {
        ("Bingoshakerz"@, 0i8, 0i8)
    } else if i == 219 {
        ("Frontline Producer"@, 0i8, 0i8)
    } else if i == 220 {
        ("Apollo Sound"@, 0i8, 0i8)
    } else if i == 221 {
        ("Famous Audio"@, 0i8, 0i8)
    } else if i == 222 {
        ("Niche Audio"@, -40i8, 20i8)
    } else if i == 223 {
        ("Sample Diggers"@, -40i8, 20i8)
    } else {
        ("Raw Cutz"@, -40i8, 30i8)
    }
}

/// Number of manufacturer signals in the table.
pub const SIGNAL_COUNT: usize = 225;

fn signal_part0(i: usize) -> (r: (&'static str, i8, i8))
    requires
        0 <= i < 25,
    ensures
        (r.0@, r.1, r.2) == signal_entry(i as int),
{
    if i == 0 {
        ("Tidy", 70, 90)
    } else if i == 1 {
        ("Full On", 90, 50)
    } else if i == 2 {
        ("Vandit", 90, 30)
    } else if i == 3 {
        ("Armada", 70, 0)
    } else if i == 4 {
        ("Anjuna", 80, 0)
    } else if i == 5 {
        ("FSOE", 90, 30)
    } else if i == 6 {
        ("Blackhole", 80, 20)
    } else if i == 7 {
        ("Grotesque", 80, 40)
    } else if i == 8 {
        ("WAO138", 90, 60)
    } else if i == 9 {
        ("Kearnage", 90, 70)
    } else if i == 10 {
        ("Subculture", 80, 50)
    } else if i == 11 {
        ("Outburst", 80, 60)
    } else if i == 12 {
        ("VII", 80, 40)
    } else if i == 13 {
        ("Pure Trance", 90, 30)
    } else if i == 14 {
        ("Damaged", 70, 80)
    } else if i == 15 {
        ("Definition of Hard Techno", -100, 100)
    } else if i == 16 {
        ("definitionofhardtechno", -100, 100)
    } else if i == 17 {
        ("Chris Liebing", -100, 95)
    } else if i == 18 {
        ("Stigmata", -100, 95)
    } else if i == 19 {
        ("Arkus P", -100, 100)
    } else if i == 20 {
        ("Robert Natus", -100, 100)
    } else if i == 21 {
        ("Viper XXL", -100, 100)
    } else if i == 22 {
        ("Leo Laker", -100, 100)
    } else if i == 23 {
        ("Sven Wittekind", -100, 100)
    } else {
        ("DJ Rush", -100, 90)
    }
}

fn signal_part1(i: usize) -> (r: (&'static str, i8, i8))
    requires
        25 <= i < 50,
    ensures
        (r.0@, r.1, r.2) == signal_entry(i as int),
{
    if i == 25 {
        ("Boris S", -100, 100)
    } else if i == 26 {
        ("Frank Kvitta", -100, 100)
    } else if i == 27 {
        ("O.B.I.", -100, 100)
    } else if i == 28 {
        ("Noise Not War", -100, 100)
    } else if i == 29 {
        ("Klangkuenstler", -100, 95)
    } else if i == 30 {
        ("Pet Duo", -100, 95)
    } else if i == 31 {
        ("A.N.I", -100, 100)
    } else if i == 32 {
        ("Nikolina", -100, 95)
    } else if i == 33 {
        ("TRIPTYKH", -100, 100)
    } else if i == 34 {
        ("Elektrabel", -100, 100)
    } else if i == 35 {
        ("Schranz Total", -100, 100)
    } else if i == 36 {
        ("Schranz", -100, 100)
    } else if i == 37 {
        ("Hardtechno", -100, 100)
    } else if i == 38 {
        ("Hard Techno", -100, 100)
    } else if i == 39 {
        ("Amok", -100, 100)
    } else if i == 40 {
        ("Nachtstrom", -100, 95)
    } else if i == 41 {
        ("MB Elektronics", -100, 90)
    } else if i == 42 {
        ("Drumcode", -90, 50)
    } else if i == 43 {
        ("Filth on Acid", -80, 70)
    } else if i == 44 {
        ("Exhale", -70, 70)
    } else if i == 45 {
        ("KNTXT", -80, 60)
    } else if i == 46 {
        ("Possession", -70, 85)
    } else if i == 47 {
        ("Perc Trax", -80, 80)
    } else if i == 48 {
        ("Mord", -90, 85)
    } else {
        ("Planet Rhythm", -80, 50)
    }
}

fn signal_part2(i: usize) -> (r: (&'static str, i8, i8))
    requires
        50 <= i < 75,
    ensures
        (r.0@, r.1, r.2) == signal_entry(i as int),
{
    if i == 50 {
        ("Soma", -70, 30)
    } else if i == 51 {
        ("Tresor", -80, 30)
    } else if i == 52 {
        ("Ostgut Ton", -90, 40)
    } else if i == 53 {
        ("CLR", -90, 70)
    } else if i == 54 {
        ("Tronic", -70, 40)
    } else if i == 55 {
        ("Bedrock", -60, 20)
    } else if i == 56 {
        ("Cocoon", -70, 30)
    } else if i == 57 {
        ("Minus", -80, 20)
    } else if i == 58 {
        ("M_nus", -80, 20)
    } else if i == 59 {
        ("ZTEKNO", -80, 50)
    } else if i == 60 {
        ("True Samples", -30, 20)
    } else if i == 61 {
        ("Loopmasters", 0, 0)
    } else if i == 62 {
        ("Splice", 0, 0)
    } else if i == 63 {
        ("Sample Magic", 0, 0)
    } else if i == 64 {
        ("Vengeance", 0, 30)
    } else if i == 65 {
        ("Black Octopus", 0, 0)
    } else if i == 66 {
        ("Ghosthack", 0, 20)
    } else if i == 67 {
        ("Industrial Strength", -50, 90)
    } else if i == 68 {
        ("Singomakers", 0, 0)
    } else if i == 69 {
        ("Function Loops", 0, 0)
    } else if i == 70 {
        ("Producer Loops", 0, 0)
    } else if i == 71 {
        ("Zenhiser", 0, 10)
    } else if i == 72 {
        ("Freshly Squeezed", 70, 30)
    } else if i == 73 {
        ("Mutekki", -60, 40)
    } else {
        ("Toolroom", -40, 20)
    }
}

fn signal_part3(i: usize) -> (r: (&'static str, i8, i8))
    requires
        75 <= i < 100,
    ensures
        (r.0@, r.1, r.2) == signal_entry(i as int),
{
    if i == 75 {
        ("Revealed", 30, 40)
    } else if i == 76 {
        ("Spinnin", 20, 20)
    } else if i == 77 {
        ("Noiiz", -30, 30)
    } else if i == 78 {
        ("noizz", -30, 30)
    } else if i == 79 {
        ("UNDRGRND", -60, 30)
    } else if i == 80 {
        ("Riemann", -80, 50)
    } else if i == 81 {
        ("SINEE", -90, 80)
    } else if i == 82 {
        ("Bluezone", -50, 60)
    } else if i == 83 {
        ("Datacode", -60, 40)
    } else if i == 84 {
        ("Sonic Academy", -30, 30)
    } else if i == 85 {
        ("Glitchedtones", -30, 50)
    } else if i == 86 {
        ("Glitchmachines", -30, 50)
    } else if i == 87 {
        ("Ueberschall", -50, 60)
    } else if i == 88 {
        ("Zero-G", 0, 0)
    } else if i == 89 {
        ("Resonance Sound", -30, 30)
    } else if i == 90 {
        ("Samplesound", -40, 20)
    } else if i == 91 {
        ("ADSR", 0, 0)
    } else if i == 92 {
        ("Sounds of KSHMR", 0, 30)
    } else if i == 93 {
        ("R-Loops", 0, 0)
    } else if i == 94 {
        ("Myloops", 70, 30)
    } else if i == 95 {
        ("Samplified", 0, 0)
    } else if i == 96 {
        ("Sounds.com", -30, 30)
    } else if i == 97 {
        ("from Mars", -50, 30)
    } else if i == 98 {
        ("Producers Choice", 0, 0)
    } else {
        ("WA Production", 0, 0)
    }
}

fn signal_part4(i: usize) -> (r: (&'static str, i8, i8))
    requires
        100 <= i < 125,
    ensures
        (r.0@, r.1, r.2) == signal_entry(i as int),
{
    if i == 100 {
        ("W. A. Production", 0, 0)
    } else if i == 101 {
        ("WA_Prod", 0, 0)
    } else if i == 102 {
        ("WAProd", 0, 0)
    } else if i == 103 {
        ("Angry Parrot", 0, 0)
    } else if i == 104 {
        ("AngryParrot", 0, 0)
    } else if i == 105 {
        ("Soundtrack Loops", 0, 0)
    } else if i == 106 {
        ("soundtrack_loops", 0, 0)
    } else if i == 107 {
        ("glitchmach", -30, 50)
    } else if i == 108 {
        ("glitchtone", -30, 50)
    } else if i == 109 {
        ("Asonic", 0, 0)
    } else if i == 110 {
        ("Computer Music", 0, 0)
    } else if i == 111 {
        ("sonicacademy", -30, 30)
    } else if i == 112 {
        ("functionloops", 0, 0)
    } else if i == 113 {
        ("from_mars", -50, 30)
    } else if i == 114 {
        ("Krotosaudio", 0, 0)
    } else if i == 115 {
        ("Allen Watts", 90, 50)
    } else if i == 116 {
        ("Bryan Kearney", 90, 70)
    } else if i == 117 {
        ("Simon Patterson", 80, 50)
    } else if i == 118 {
        ("John Askew", 80, 70)
    } else if i == 119 {
        ("Sean Tyas", 80, 50)
    } else if i == 120 {
        ("Will Atkinson", 80, 60)
    } else if i == 121 {
        ("Adam Ellis", 90, 40)
    } else if i == 122 {
        ("ReOrder", 90, 40)
    } else if i == 123 {
        ("Sneijder", 80, 60)
    } else {
        ("Factor B", 90, 30)
    }
}

fn signal_part5(i: usize) -> (r: (&'static str, i8, i8))
    requires
        125 <= i < 150,
    ensures
        (r.0@, r.1, r.2) == signal_entry(i as int),
{
    if i == 125 {
        ("Adam Beyer", -90, 50)
    } else if i == 126 {
        ("Charlotte de Witte", -80, 70)
    } else if i == 127 {
        ("Amelie Lens", -70, 70)
    } else if i == 128 {
        ("Reinier Zonneveld", -80, 70)
    } else if i == 129 {
        ("UMEK", -70, 50)
    } else if i == 130 {
        ("Enrico Sangiuliano", -70, 50)
    } else if i == 131 {
        ("Spartaque", -80, 60)
    } else if i == 132 {
        ("Alignment", -80, 80)
    } else if i == 133 {
        ("DYEN", -70, 60)
    } else if i == 134 {
        ("Afterlife", -50, 20)
    } else if i == 135 {
        ("Tale of Us", -50, 10)
    } else if i == 136 {
        ("Metta & Glyde", 90, 50)
    } else if i == 137 {
        ("Metta Glyde", 90, 50)
    } else if i == 138 {
        ("mettaglyde", 90, 50)
    } else if i == 139 {
        ("Sunny Lax", 80, 20)
    } else if i == 140 {
        ("Activa", 90, 50)
    } else if i == 141 {
        ("Dave Parkinson", 70, 40)
    } else if i == 142 {
        ("Driftmoon", 80, 40)
    } else if i == 143 {
        ("Max Braiman", 90, 50)
    } else if i == 144 {
        ("Temple One", 90, 30)
    } else if i == 145 {
        ("Thrillseekers", 80, 40)
    } else if i == 146 {
        ("Talamanca", 70, 20)
    } else if i == 147 {
        ("Kobana", 50, 10)
    } else if i == 148 {
        ("Jerome Isma-Ae", 50, 30)
    } else {
        ("Ad Brown", 50, 20)
    }
}

fn signal_part6(i: usize) -> (r: (&'static str, i8, i8))
    requires
        150 <= i < 175,
    ensures
        (r.0@, r.1, r.2) == signal_entry(i as int),
{
    if i == 150 {
        ("Vitodito", 60, 20)
    } else if i == 151 {
        ("Genix", 80, 50)
    } else if i == 152 {
        ("Sander Van Doorn", 60, 40)
    } else if i == 153 {
        ("Kolonie", 70, 30)
    } else if i == 154 {
        ("Looplicious", 60, 10)
    } else if i == 155 {
        ("Carl Cox", -80, 50)
    } else if i == 156 {
        ("Axel Karakasis", -80, 60)
    } else if i == 157 {
        ("David Moleon", -90, 70)
    } else if i == 158 {
        ("Pedro Delgardo", -90, 70)
    } else if i == 159 {
        ("Alex Di Stefano", 80, 60)
    } else if i == 160 {
        ("Airbase", 90, 30)
    } else if i == 161 {
        ("Bart Skils", -80, 60)
    } else if i == 162 {
        ("Sean Truby", 90, 40)
    } else if i == 163 {
        ("Ryan K", 80, 50)
    } else if i == 164 {
        ("Laura May", 0, 50)
    } else if i == 165 {
        ("Tom Exo", 90, 40)
    } else if i == 166 {
        ("MAG Signature", 90, 50)
    } else if i == 167 {
        ("Trance Euphoria", 90, 40)
    } else if i == 168 {
        ("HighLife Samples", 70, 30)
    } else if i == 169 {
        ("Nano Musik Loops", 60, 20)
    } else if i == 170 {
        ("Wave Alchemy", -50, 30)
    } else if i == 171 {
        ("ModeAudio", -40, 20)
    } else if i == 172 {
        ("Mind Flux", -60, 40)
    } else if i == 173 {
        ("Noise Design", -60, 50)
    } else {
        ("Element One", -50, 30)
    }
}

fn signal_part7(i: usize) -> (r: (&'static str, i8, i8))
    requires
        175 <= i < 200,
    ensures
        (r.0@, r.1, r.2) == signal_entry(i as int),
{
    if i == 175 {
        ("CONNECTD Audio", -50, 30)
    } else if i == 176 {
        ("Artisan Audio", -50, 30)
    } else if i == 177 {
        ("Samplestate", -50, 30)
    } else if i == 178 {
        ("Push Button Bang", -40, 30)
    } else if i == 179 {
        ("Leitmotif", -50, 30)
    } else if i == 180 {
        ("Konturi", -60, 40)
    } else if i == 181 {
        ("EST Studios", -50, 30)
    } else if i == 182 {
        ("Blind Audio", -50, 30)
    } else if i == 183 {
        ("Form Audioworks", -40, 20)
    } else if i == 184 {
        ("THICK Sounds", -60, 50)
    } else if i == 185 {
        ("BFractal Music", -50, 30)
    } else if i == 186 {
        ("ODD SMPLS", -50, 40)
    } else if i == 187 {
        ("Rankin Audio", -40, 30)
    } else if i == 188 {
        ("Production Music Live", -50, 20)
    } else if i == 189 {
        ("Sample Tools By Cr2", -30, 20)
    } else if i == 190 {
        ("Cr2 Records", -30, 20)
    } else if i == 191 {
        ("Defected", -20, 0)
    } else if i == 192 {
        ("Deeperfect", -40, 30)
    } else if i == 193 {
        ("House Of Loop", -30, 20)
    } else if i == 194 {
        ("Hot Creations", -30, 20)
    } else if i == 195 {
        ("Looptone", -30, 20)
    } else if i == 196 {
        ("Bass Boutique", -20, 30)
    } else if i == 197 {
        ("Class A Samples", -30, 20)
    } else if i == 198 {
        ("Ghost Syndicate", -30, 50)
    } else {
        ("Production Master", -20, 40)
    }
}

fn signal_part8(i: usize) -> (r: (&'static str, i8, i8))
    requires
        200 <= i < 225,
    ensures
        (r.0@, r.1, r.2) == signal_entry(i as int),
{
    if i == 200 {
        ("Renegade Audio", -30, 40)
    } else if i == 201 {
        ("Soul Rush Records", -20, 30)
    } else if i == 202 {
        ("5Pin Media", -20, 20)
    } else if i == 203 {
        ("LP24 Audio", -20, 30)
    } else if i == 204 {
        ("Capsun ProAudio", -10, 30)
    } else if i == 205 {
        ("IQ Samples", -30, 30)
    } else if i == 206 {
        ("VIPZONE Samples", 30, 80)
    } else if i == 207 {
        ("Cymatics", 0, 0)
    } else if i == 208 {
        ("Big Fish Audio", 0, 0)
    } else if i == 209 {
        ("Loopcloud", 0, 0)
    } else if i == 210 {
        ("Beatport Sounds", 0, 0)
    } else if i == 211 {
        ("Touch Loops", 0, 0)
    } else if i == 212 {
        ("Prime Loops", 0, 0)
    } else if i == 213 {
        ("Cinetools", 0, 0)
    } else if i == 214 {
        ("Audentity Records", 10, 20)
    } else if i == 215 {
        ("Vandalism", 20, 30)
    } else if i == 216 {
        ("Equinox Sounds", 0, 0)
    } else if i == 217 {
        ("EarthMoments", 0, 0)
    } else if i == 218 {
        ("Bingoshakerz", 0, 0)
    } else if i == 219 {
        ("Frontline Producer", 0, 0)
    } else if i == 220 {
        ("Apollo Sound", 0, 0)
    } else if i == 221 {
        ("Famous Audio", 0, 0)
    } else if i == 222 {
        ("Niche Audio", -40, 20)
    } else if i == 223 {
        ("Sample Diggers", -40, 20)
    } else {
        ("Raw Cutz", -40, 30)
    }
}

fn signal_at(i: usize) -> (r: (&'static str, i8, i8))
    requires
        i < SIGNAL_COUNT,
    ensures
        (r.0@, r.1, r.2) == signal_entry(i as int),
{
    if i < 25 {
        signal_part0(i)
    } else if i < 50 {
        signal_part1(i)
    } else if i < 75 {
        signal_part2(i)
    } else if i < 100 {
        signal_part3(i)
    } else if i < 125 {
        signal_part4(i)
    } else if i < 150 {
        signal_part5(i)
    } else if i < 175 {
        signal_part6(i)
    } else if i < 200 {
        signal_part7(i)
    } else {
        signal_part8(i)
    }
}

/// The manufacturer a directory names, with its genre and hardness scores in
/// hundredths.
#[derive(Debug)]
pub struct PackMatch {
    pub manufacturer_pattern: String,
    pub genre_centi: i8,
    pub hardness_centi: i8,
}

/// A signal with both scores zero.
pub open spec fn neutral(i: int) -> bool {
    signal_entry(i).1 == 0 && signal_entry(i).2 == 0
}

/// Signal `i` ranks before signal `j`: a scored signal before a neutral one,
/// then the longer name (in bytes) first.
pub open spec fn ranks_before(i: int, j: int) -> bool {
    ||| (!neutral(i) && neutral(j))
    ||| (neutral(i) == neutral(j) && encode_utf8(signal_entry(i).0).len() > encode_utf8(signal_entry(j).0).len())
}

/// The lower-cased directory contains the lower-cased name of signal `i`.
pub open spec fn signal_hit(lowered: Seq<char>, i: int) -> bool {
    contains_seq(lowered, unicode_lower(signal_entry(i).0))
}

/// The best ranked signal among the first `n` that hit, the earliest among equals.
pub open spec fn best_signal(lowered: Seq<char>, n: int) -> Option<int>
    decreases n,
{
    if n <= 0 {
        None
    } else {
        let b = best_signal(lowered, n - 1);
        if signal_hit(lowered, n - 1) && match b {
            Some(j) => ranks_before(n - 1, j),
            None => true,
        } {
            Some(n - 1)
        } else {
            b
        }
    }
}

/// The manufacturer signal a directory path gives.
pub open spec fn spec_detect_manufacturer(directory: Seq<char>) -> Option<int> {
    best_signal(unicode_lower(directory), SIGNAL_COUNT as int)
}

/// The manufacturer or label a directory path names, if any: a scored signal
/// beats a neutral one, then the longer name wins, then the earlier entry.
pub fn detect_manufacturer(directory: &str) -> (r: Option<PackMatch>)
    ensures
        match r {
            Some(m) => spec_detect_manufacturer(directory@) matches Some(i) && m.manufacturer_pattern@ == signal_entry(i).0
                && m.genre_centi == signal_entry(i).1 && m.hardness_centi == signal_entry(i).2,
            None => spec_detect_manufacturer(directory@) is None,
        },
{
    let lowered = lower_case(directory);
    let mut best: Option<usize> = None;
    let mut i: usize = 0;
    while i < SIGNAL_COUNT
        invariant
            i <= SIGNAL_COUNT,
            lowered@ == unicode_lower(directory@),
            match best {
                Some(b) => best_signal(lowered@, i as int) == Some(b as int) && b < i,
                None => best_signal(lowered@, i as int) is None,
            },
        decreases SIGNAL_COUNT - i,
    {
        let e = signal_at(i);
        let pat = lower_case(e.0);
        if contains_str(lowered.as_str(), pat.as_str()) {
            let better = match best {
                None => true,
                Some(b) => {
                    let o = signal_at(b);
                    let i_neutral = e.1 == 0 && e.2 == 0;
                    let b_neutral = o.1 == 0 && o.2 == 0;
                    (!i_neutral && b_neutral) || (i_neutral == b_neutral && e.0.as_bytes().len() > o.0.as_bytes().len())
                },
            };
            if better {
                best = Some(i);
            }
        }
        i = i + 1;
    }
    match best {
        Some(b) => {
            let e = signal_at(b);
            Some(PackMatch { manufacturer_pattern: owned(e.0), genre_centi: e.1, hardness_centi: e.2 })
        },
        None => None,
    }
}

/// Names of generic sub-folders ("Kicks", "Loops", "Processed" …) that are
/// no pack names, whole component, any case.
pub open spec fn generic_dir_patterns() -> Seq<Seq<char>> {
    seq![
        "(?i)^(kicks?|snares?|claps?|hats?|rides?|percs?|percussion|cymbals?)$"@,
        "(?i)^(bass|basses|leads?|pads?|synths?|strings?|keys?)$"@,
        "(?i)^(fx|effects?|sfx|risers?|impacts?|sweeps?|transitions?)$"@,
        "(?i)^(vocals?|vox|atmosphere|atmos|ambient|drones?)$"@,
        "(?i)^(loops?|oneshots?|one[_\\-]shots?|samples?|midi|audio|wav|presets?)$"@,
        "(?i)^(drums?|melodic|tonal|rhythmic|percussive|fills?)$"@,
        "(?i)^(Imported|Processed|Bounced|Rendered|Recorded|Raw|Original)$"@,
    ]
}

fn generic_dir_pattern_list() -> (r: Vec<&'static str>)
    ensures
        strs_view(r) == generic_dir_patterns(),
{
    let mut v: Vec<&'static str> = Vec::new();
    v.push("(?i)^(kicks?|snares?|claps?|hats?|rides?|percs?|percussion|cymbals?)$");
    v.push("(?i)^(bass|basses|leads?|pads?|synths?|strings?|keys?)$");
    v.push("(?i)^(fx|effects?|sfx|risers?|impacts?|sweeps?|transitions?)$");
    v.push("(?i)^(vocals?|vox|atmosphere|atmos|ambient|drones?)$");
    v.push("(?i)^(loops?|oneshots?|one[_\\-]shots?|samples?|midi|audio|wav|presets?)$");
    v.push("(?i)^(drums?|melodic|tonal|rhythmic|percussive|fills?)$");
    v.push("(?i)^(Imported|Processed|Bounced|Rendered|Recorded|Raw|Original)$");
    assert(strs_view(v) =~= generic_dir_patterns());
    v
}

/// A directory component is generic when the pattern set matches it.
pub open spec fn is_generic(c: Seq<char>) -> bool {
    regex_set_is_match(generic_dir_patterns(), c) == Some(true)
}

pub open spec fn is_path_sep(c: char) -> bool {
    c == '/' || c == '\\'
}

/// The non-empty components of a path split at `/` and `\`.
pub open spec fn path_components(s: Seq<char>) -> Seq<Seq<char>>
    decreases s.len(),
{
    if s.len() == 0 {
        Seq::empty()
    } else {
        let cs = path_components(s.drop_last());
        let c = s.last();
        if is_path_sep(c) {
            cs
        } else if s.len() >= 2 && !is_path_sep(s[s.len() - 2]) {
            cs.update(cs.len() - 1, cs.last().push(c))
        } else {
            cs.push(seq![c])
        }
    }
}

/// A component that looks like a pack name: a space, a dash or "Vol".
pub open spec fn pack_marked(c: Seq<char>) -> bool {
    contains_seq(c, " "@) || contains_seq(c, "-"@) || contains_seq(c, "Vol"@)
}

/// The deepest non-generic component that looks like a pack name.
pub open spec fn deepest_pack(cs: Seq<Seq<char>>) -> Option<Seq<char>>
    decreases cs.len(),
{
    if cs.len() == 0 {
        None
    } else if !is_generic(cs.last()) && pack_marked(cs.last()) {
        Some(cs.last())
    } else {
        deepest_pack(cs.drop_last())
    }
}

/// The deepest non-generic component.
pub open spec fn deepest_non_generic(cs: Seq<Seq<char>>) -> Option<Seq<char>>
    decreases cs.len(),
{
    if cs.len() == 0 {
        None
    } else if !is_generic(cs.last()) {
        Some(cs.last())
    } else {
        deepest_non_generic(cs.drop_last())
    }
}

/// The pack name of a directory path.
pub open spec fn spec_extract_pack_name(directory: Seq<char>) -> Option<Seq<char>> {
    match deepest_pack(path_components(directory)) {
        Some(c) => Some(c),
        None => deepest_non_generic(path_components(directory)),
    }
}

pub open spec fn components_view(v: Vec<Vec<char>>) -> Seq<Seq<char>> {
    v@.map_values(|c: Vec<char>| c@)
}

proof fn lemma_components_nonempty(s: Seq<char>)
    requires
        s.len() > 0,
        !is_path_sep(s.last()),
    ensures
        path_components(s).len() > 0,
    decreases s.len(),
{
    if s.len() >= 2 && !is_path_sep(s[s.len() - 2]) {
        lemma_components_nonempty(s.drop_last());
    }
}

fn split_components(dir: &str) -> (r: Vec<Vec<char>>)
    ensures
        components_view(r) == path_components(dir@),
{
    let cs = chars_of(dir);
    let mut comps: Vec<Vec<char>> = Vec::new();
    let mut i: usize = 0;
    while i < cs.len()
        invariant
            cs@ == dir@,
            i <= cs.len(),
            components_view(comps) == path_components(dir@.take(i as int)),
        decreases cs.len() - i,
    {
        let c = cs[i];
        let ghost pre = dir@.take(i as int);
        proof {
            assert(dir@.take(i + 1).drop_last() =~= pre);
            assert(dir@.take(i + 1).last() == c);
            if i > 0 {
                assert(dir@.take(i + 1)[i - 1] == dir@[i - 1]);
                assert(pre.last() == dir@[i - 1]);
                if !is_path_sep(dir@[i - 1]) {
                    lemma_components_nonempty(pre);
                }
            }
        }
        if c == '/' || c == '\\' {
        } else if i > 0 && !(cs[i - 1] == '/' || cs[i - 1] == '\\') {
            let mut cur = comps.pop().unwrap();
            cur.push(c);
            comps.push(cur);
        } else {
            let mut cur: Vec<char> = Vec::new();
            cur.push(c);
            comps.push(cur);
        }
        i = i + 1;
        assert(components_view(comps) =~= path_components(dir@.take(i as int)));
    }
    assert(dir@.take(i as int) =~= dir@);
    comps
}

fn string_from(cs: &Vec<char>) -> (r: String)
    ensures
        r@ == cs@,
{
    let mut out = String::new();
    let mut i: usize = 0;
    while i < cs.len()
        invariant
            i <= cs.len(),
            out@ == cs@.take(i as int),
        decreases cs.len() - i,
    {
        push_char(&mut out, cs[i]);
        i = i + 1;
        assert(out@ =~= cs@.take(i as int));
    }
    assert(cs@.take(i as int) =~= cs@);
    out
}

/// The likely sample-pack name in a directory path: the deepest component that
/// is not a generic sub-folder and has a space, a dash or "Vol"; else the
/// deepest non-generic component.
pub fn extract_pack_name(directory: &str) -> (r: Option<String>)
    ensures
        opt_string_view(r) == spec_extract_pack_name(directory@),
{
    let comps = split_components(directory);
    let ghost all = components_view(comps);
    let pats = generic_dir_pattern_list();
    let mut names: Vec<String> = Vec::new();
    let mut generic: Vec<bool> = Vec::new();
    let mut i: usize = 0;
    while i < comps.len()
        invariant
            all == components_view(comps),
            strs_view(pats) == generic_dir_patterns(),
            i <= comps.len(),
            names.len() == i,
            generic.len() == i,
            forall|k: int| 0 <= k < i ==> names@[k]@ == all[k] && generic@[k] == is_generic(all[k]),
        decreases comps.len() - i,
    {
        let name = string_from(&comps[i]);
        let g = match set_is_match(&pats, name.as_str()) {
            Some(b) => b,
            None => false,
        };
        names.push(name);
        generic.push(g);
        i = i + 1;
    }
    let mut k: usize = comps.len();
    assert(all.take(k as int) =~= all);
    while k > 0
        invariant
            all == components_view(comps),
            all == path_components(directory@),
            k <= comps.len(),
            names.len() == comps.len(),
            generic.len() == comps.len(),
            forall|j: int| 0 <= j < comps.len() ==> names@[j]@ == all[j] && generic@[j] == is_generic(all[j]),
            deepest_pack(all) == deepest_pack(all.take(k as int)),
        decreases k,
    {
        assert(all.take(k as int).drop_last() =~= all.take(k - 1));
        assert(all.take(k as int).last() == all[k - 1]);
        let s = names[k - 1].as_str();
        if !generic[k - 1] && (contains_str(s, " ") || contains_str(s, "-") || contains_str(s, "Vol")) {
            return Some(owned(s));
        }
        k = k - 1;
    }
    assert(all.take(0) =~= Seq::<Seq<char>>::empty());
    let mut k: usize = comps.len();
    assert(all.take(k as int) =~= all);
    while k > 0
        invariant
            all == components_view(comps),
            all == path_components(directory@),
            k <= comps.len(),
            names.len() == comps.len(),
            generic.len() == comps.len(),
            forall|j: int| 0 <= j < comps.len() ==> names@[j]@ == all[j] && generic@[j] == is_generic(all[j]),
            deepest_pack(all) is None,
            deepest_non_generic(all) == deepest_non_generic(all.take(k as int)),
        decreases k,
    {
        assert(all.take(k as int).drop_last() =~= all.take(k - 1));
        assert(all.take(k as int).last() == all[k - 1]);
        if !generic[k - 1] {
            return Some(owned(names[k - 1].as_str()));
        }
        k = k - 1;
    }
    assert(all.take(0) =~= Seq::<Seq<char>>::empty());
    None
}

// ---------------------------------------------------------------------------
// Full analysis
// ---------------------------------------------------------------------------

/// Everything read from one sample's name and directory.
#[derive(Debug)]
pub struct SampleAnalysis {
    pub parsed_bpm: Option<u32>,
    pub parsed_key: Option<String>,
    pub category: Option<CategoryMatch>,
    pub pack_name: Option<String>,
    pub manufacturer: Option<PackMatch>,
    pub is_loop: bool,
}

/// Analyses a sample from its file name and directory path (no audio decoding).
pub fn analyze_sample(name: &str, directory: &str) -> (r: SampleAnalysis)
    ensures
        r.parsed_bpm == spec_extract_bpm(name@),
        opt_string_view(r.parsed_key) == spec_extract_key(name@),
        match r.category {
            Some(m) => spec_match_category(name@, directory@) matches Some(x) && describes(m, x.0, x.1),
            None => spec_match_category(name@, directory@) is None,
        },
        opt_string_view(r.pack_name) == spec_extract_pack_name(directory@),
        match r.manufacturer {
            Some(m) => spec_detect_manufacturer(directory@) matches Some(i) && m.manufacturer_pattern@ == signal_entry(i).0
                && m.genre_centi == signal_entry(i).1 && m.hardness_centi == signal_entry(i).2,
            None => spec_detect_manufacturer(directory@) is None,
        },
        r.is_loop == mentions_loop(name@),
{
    let parsed_bpm = extract_bpm(name);
    let parsed_key = extract_key(name);
    let category = match_category(name, directory);
    let pack_name = extract_pack_name(directory);
    let manufacturer = detect_manufacturer(directory);
    let is_loop = contains_loop(name);
    SampleAnalysis { parsed_bpm, parsed_key, category, pack_name, manufacturer, is_loop }
}

// ---------------------------------------------------------------------------
// Laws
// ---------------------------------------------------------------------------

proof fn lemma_best_bpm_in_range(name: Seq<char>, caps: Seq<Seq<Option<(usize, usize, Seq<char>)>>>, looped: bool)
    ensures
        best_bpm(name, caps, looped) matches Some(b) ==> 80 <= b.0 <= 180,
    decreases caps.len(),
{
    if caps.len() > 0 {
        lemma_best_bpm_in_range(name, caps.drop_last(), looped);
    }
}

/// Tempos read from names are always from 80 to 180 BPM, whatever the name.
pub proof fn law_bpm_in_range(name: Seq<char>)
    ensures
        spec_extract_bpm(name) matches Some(v) ==> 80 <= v <= 180,
{
    match regex_captures_iter(BPM_PATTERN@, name) {
        Some(caps) => lemma_best_bpm_in_range(name, caps, mentions_loop(name)),
        None => {},
    }
}

proof fn lemma_normalized_note_is_sharp(raw: Seq<char>)
    ensures
        spec_normalize_note(raw) matches Some(n) ==> is_note_name(n),
{
}

/// Keys read from names are always stored as a sharp note name followed by
/// " Minor" or " Major" (flats are folded into sharps).
pub proof fn law_key_stored_form(name: Seq<char>)
    ensures
        spec_extract_key(name) matches Some(k) ==> exists|note: Seq<char>|
            #[trigger] is_note_name(note) && (k == note + " Minor"@ || k == note + " Major"@),
{
    let normalized = spec_normalize_sharp_flat_words(name);
    let minor = first_match(regex_captures(MINOR_PATTERN@, normalized));
    let major = first_match(regex_captures(MAJOR_PATTERN@, normalized));
    let bare = first_match(regex_captures(BARE_NOTE_PATTERN@, normalized));
    if let Some(c) = minor {
        if let Some(g) = group_at(c, 1) {
            lemma_normalized_note_is_sharp(g.2);
        }
    }
    if let Some(c) = major {
        if let Some(g) = group_at(c, 1) {
            lemma_normalized_note_is_sharp(g.2);
        }
    }
    if let Some(c) = bare {
        if let Some(g) = group_at(c, 1) {
            lemma_normalized_note_is_sharp(g.2);
        }
    }
}

} // verus!
