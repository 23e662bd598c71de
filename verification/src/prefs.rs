//! Numeric preferences: a count read from the preferences file (as text or as
//! a number), with its default and its allowed range.
use vstd::prelude::*;
use crate::sample_analysis::{all_ascii_digits, digits_value, lemma_digits_value_grows};
use crate::text::chars_of;

verus! {

/// A preference value as far as a count is concerned.
#[derive(Debug)]
pub enum PrefValue {
    /// A text value; it counts when it parses as a number.
    Text(String),
    /// A non-negative whole number.
    Number(u64),
    /// Anything else (a negative or fractional number, a list …).
    Other,
}

/// `str::parse::<u64>`: an optional `+`, then one or more ASCII digits whose
/// value fits in a `u64`.
pub open spec fn parse_u64(s: Seq<char>) -> Option<u64> {
    let d = if s.len() > 0 && s[0] == '+' { s.drop_first() } else { s };
    if d.len() > 0 && all_ascii_digits(d) && digits_value(d) <= u64::MAX {
        Some(digits_value(d) as u64)
    } else {
        None
    }
}

/// Parses a whole string as a `u64` the way `str::parse::<u64>` does.
pub fn parse_u64_text(s: &str) -> (r: Option<u64>)
    ensures
        r == parse_u64(s@),
{
    let cs = chars_of(s);
    let start: usize = if cs.len() > 0 && cs[0] == '+' { 1 } else { 0 };
    let ghost d = if s@.len() > 0 && s@[0] == '+' { s@.drop_first() } else { s@ };
    assert(d =~= cs@.skip(start as int));
    if start == cs.len() {
        return None;
    }
    let mut acc: u128 = 0;
    let mut i: usize = start;
    while i < cs.len()
        invariant
            cs@ == s@,
            d == (if s@.len() > 0 && s@[0] == '+' { s@.drop_first() } else { s@ }),
            d =~= cs@.skip(start as int),
            start <= i <= cs.len(),
            acc == digits_value(d.take(i - start)),
            acc <= u64::MAX,
            all_ascii_digits(d.take(i - start)),
        decreases cs.len() - i,
    {
        let c = cs[i];
        assert(d.take(i - start + 1).drop_last() =~= d.take(i - start));
        assert(d.take(i - start + 1).last() == c);
        assert(d[i - start] == c);
        if !('0' <= c && c <= '9') {
            assert(!all_ascii_digits(d));
            return None;
        }
        let v: u128 = (c as u32 - 48) as u128;
        assert(v == c as int - 48);
        acc = acc * 10 + v;
        assert(acc == digits_value(d.take(i - start + 1)));
        assert(all_ascii_digits(d.take(i - start + 1))) by {
            assert forall|j: int| 0 <= j < i - start + 1 implies '0' <= #[trigger] d.take(i - start + 1)[j] <= '9' by {
                if j < i - start {
                    assert(d.take(i - start + 1)[j] == d.take(i - start)[j]);
                }
            }
        }
        if acc > 18446744073709551615 {
            proof {
                if all_ascii_digits(d) {
                    lemma_digits_value_grows(d, i - start + 1);
                }
            }
            return None;
        }
        i = i + 1;
    }
    assert(d.take(i - start) =~= d);
    Some(acc as u64)
}

/// The number a preference value gives: a text that parses, or a number.
pub open spec fn pref_number(v: Option<PrefValue>) -> Option<u64> {
    match v {
        Some(PrefValue::Text(s)) => parse_u64(s@),
        Some(PrefValue::Number(n)) => Some(n),
        _ => None,
    }
}

/// `n` brought into `lo ..= hi`.
pub open spec fn clamped(n: u64, lo: u64, hi: u64) -> u64 {
    if n < lo { lo } else if n > hi { hi } else { n }
}

/// A count preference: the number it gives, else `default`, brought into
/// `lo ..= hi`. Scans read "batchSize" (default 100, 10–200) and
/// "channelBuffer" (256, 64–512); start-up reads "fdLimit" (10240, 256–65536)
/// and "threadMultiplier" (8, 1–16).
pub fn pref_count(v: Option<PrefValue>, default: u64, lo: u64, hi: u64) -> (r: u64)
    requires
        lo <= hi,
    ensures
        r == clamped(
            match pref_number(v) {
                Some(n) => n,
                None => default,
            },
            lo,
            hi,
        ),
{
    let n = match v {
        Some(PrefValue::Text(s)) => match parse_u64_text(s.as_str()) {
            Some(n) => n,
            None => default,
        },
        Some(PrefValue::Number(n)) => n,
        _ => default,
    };
    if n < lo {
        lo
    } else if n > hi {
        hi
    } else {
        n
    }
}

} // verus!
