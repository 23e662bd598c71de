//! Small text utilities shared by the parsers and the file-name builders:
//! decimal rendering, Unicode whitespace trimming and UTF-8 decoding.
use vstd::prelude::*;
use vstd::utf8::*;

verus! {

/// The character that stands for the decimal digit `d`.
pub open spec fn digit_char(d: int) -> char {
    if d == 0 { '0' }
    else if d == 1 { '1' }
    else if d == 2 { '2' }
    else if d == 3 { '3' }
    else if d == 4 { '4' }
    else if d == 5 { '5' }
    else if d == 6 { '6' }
    else if d == 7 { '7' }
    else if d == 8 { '8' }
    else { '9' }
}

/// The decimal representation of `n`, without leading zeros ("0" for zero).
pub open spec fn decimal(n: nat) -> Seq<char>
    decreases n,
{
    if n < 10 {
        seq![digit_char(n as int)]
    } else {
        decimal(n / 10).push(digit_char((n % 10) as int))
    }
}

/// The decimal representation of `n`, left-padded with zeros to at least `width` digits.
pub open spec fn decimal_padded(n: nat, width: nat) -> Seq<char> {
    let d = decimal(n);
    if d.len() >= width {
        d
    } else {
        Seq::new((width - d.len()) as nat, |i: int| '0') + d
    }
}

pub fn digit_to_char(d: u64) -> (c: char)
    requires
        d < 10,
    ensures
        c == digit_char(d as int),
{
    if d == 0 { '0' }
    else if d == 1 { '1' }
    else if d == 2 { '2' }
    else if d == 3 { '3' }
    else if d == 4 { '4' }
    else if d == 5 { '5' }
    else if d == 6 { '6' }
    else if d == 7 { '7' }
    else if d == 8 { '8' }
    else { '9' }
}

/// Appends one character to a `String` (`String::push`).
#[verifier::external_body]
pub(crate) fn push_char(s: &mut String, c: char)
    ensures
        final(s)@ == old(s)@.push(c),
{
    s.push(c);
}

/// Appends a string slice to a `String` (`String::push_str`).
#[verifier::external_body]
pub(crate) fn push_str(s: &mut String, t: &str)
    ensures
        final(s)@ == old(s)@ + t@,
{
    s.push_str(t);
}

/// Appends the decimal representation of `n`.
pub fn push_decimal(s: &mut String, n: u64)
    ensures
        final(s)@ == old(s)@ + decimal(n as nat),
    decreases n,
{
    if n >= 10 {
        push_decimal(s, n / 10);
    }
    let c = digit_to_char(n % 10);
    push_char(s, c);
    proof {
        if n >= 10 {
            assert(old(s)@ + decimal((n / 10) as nat) + seq![c] =~= old(s)@ + decimal(n as nat));
        } else {
            assert(old(s)@ + seq![c] =~= old(s)@ + decimal(n as nat));
        }
    }
}

pub proof fn lemma_decimal_len_pos(n: nat)
    ensures
        decimal(n).len() >= 1,
    decreases n,
{
    if n >= 10 {
        lemma_decimal_len_pos(n / 10);
    }
}

/// `10^k`.
pub open spec fn pow10(k: nat) -> nat
    decreases k,
{
    if k == 0 { 1 } else { 10 * pow10((k - 1) as nat) }
}

/// `decimal(n)` has at most `k` digits when `n < 10^k`.
pub proof fn lemma_decimal_len_le(n: nat, k: nat)
    requires
        k >= 1,
        n < pow10(k),
    ensures
        decimal(n).len() <= k,
    decreases n,
{
    if n >= 10 {
        if k == 1 {
            reveal_with_fuel(pow10, 2);
        } else {
            let p = pow10((k - 1) as nat);
            assert(n / 10 < p);
            lemma_decimal_len_le(n / 10, (k - 1) as nat);
        }
    }
}

/// Number of decimal digits of `n`.
pub fn decimal_len(n: u64) -> (r: u64)
    ensures
        r == decimal(n as nat).len(),
        1 <= r <= 20,
    decreases n,
{
    proof {
        reveal_with_fuel(pow10, 21);
        lemma_decimal_len_le(n as nat, 20);
    }
    if n < 10 {
        1
    } else {
        let k = decimal_len(n / 10);
        k + 1
    }
}

/// Appends the decimal representation of `n` left-padded with zeros to `width` digits.
pub fn push_decimal_padded(s: &mut String, n: u64, width: u64)
    requires
        width <= 64,
    ensures
        final(s)@ == old(s)@ + decimal_padded(n as nat, width as nat),
{
    let len = decimal_len(n);
    let mut k: u64 = len;
    while k < width
        invariant
            len == decimal(n as nat).len(),
            len <= k,
            k <= width || len > width,
            len >= width ==> k == len,
            width <= 64,
            s@ == old(s)@ + Seq::new((k - len) as nat, |i: int| '0'),
        decreases width - k,
    {
        push_char(s, '0');
        k = k + 1;
        assert(s@ =~= old(s)@ + Seq::new((k - len) as nat, |i: int| '0'));
    }
    let ghost mid = s@;
    push_decimal(s, n);
    proof {
        let d = decimal(n as nat);
        if d.len() >= width {
            assert(k == len);
            assert(mid =~= old(s)@);
        } else {
            assert(k == width);
            assert(s@ =~= old(s)@ + (Seq::new((width - d.len()) as nat, |i: int| '0') + d));
        }
    }
}

/// The characters that have the Unicode `White_Space` property, which is what
/// `char::is_whitespace` and `str::trim` test.
pub open spec fn is_unicode_whitespace(c: char) -> bool {
    let u = c as u32;
    (0x9 <= u <= 0xD) || u == 0x20 || u == 0x85 || u == 0xA0 || u == 0x1680 || (0x2000 <= u
        <= 0x200A) || u == 0x2028 || u == 0x2029 || u == 0x202F || u == 0x205F || u == 0x3000
}

pub open spec fn trim_start_ws(s: Seq<char>) -> Seq<char>
    decreases s.len(),
{
    if s.len() > 0 && is_unicode_whitespace(s[0]) {
        trim_start_ws(s.drop_first())
    } else {
        s
    }
}

pub open spec fn trim_end_ws(s: Seq<char>) -> Seq<char>
    decreases s.len(),
{
    if s.len() > 0 && is_unicode_whitespace(s.last()) {
        trim_end_ws(s.drop_last())
    } else {
        s
    }
}

/// `s` without leading and trailing Unicode whitespace.
pub open spec fn trim_ws(s: Seq<char>) -> Seq<char> {
    trim_end_ws(trim_start_ws(s))
}

/// `str::trim`: the slice without leading and trailing characters that have the
/// Unicode `White_Space` property.
#[verifier::external_body]
pub(crate) fn trim(s: &str) -> (r: &str)
    ensures
        r@ == trim_ws(s@),
{
    s.trim()
}

/// `std::str::from_utf8`: succeeds exactly on well-formed UTF-8 and then yields the
/// decoded characters.
#[verifier::external_body]
pub(crate) fn utf8_decode(bytes: &[u8]) -> (r: Option<&str>)
    ensures
        r is Some <==> valid_utf8(bytes@),
        r matches Some(s) ==> s@ == decode_utf8(bytes@),
{
    std::str::from_utf8(bytes).ok()
}

/// A fresh `String` holding the characters of `s`.
pub fn owned(s: &str) -> (r: String)
    ensures
        r@ == s@,
{
    s.to_owned()
}

broadcast use vstd::string::axiom_spec_iter;

/// The characters of `s`, in order.
pub fn chars_of(s: &str) -> (r: Vec<char>)
    ensures
        r@ == s@,
{
    let mut out: Vec<char> = Vec::new();
    for c in it: s.chars()
        invariant
            out@ == it.seq().take(it.index() as int),
            it.seq() == s@,
    {
        out.push(c);
    }
    out
}

/// Whether two string slices hold the same characters.
pub fn str_eq(a: &str, b: &str) -> (r: bool)
    ensures
        r == (a@ == b@),
{
    let x = chars_of(a);
    let y = chars_of(b);
    if x.len() != y.len() {
        return false;
    }
    let mut i: usize = 0;
    while i < x.len()
        invariant
            x@ == a@,
            y@ == b@,
            x.len() == y.len(),
            i <= x.len(),
            forall|k: int| 0 <= k < i ==> x@[k] == y@[k],
        decreases x.len() - i,
    {
        if x[i] != y[i] {
            return false;
        }
        i = i + 1;
    }
    assert(a@ =~= b@);
    true
}

/// ASCII upper-case letters to lower case; every other character unchanged.
pub open spec fn ascii_lower(c: char) -> char {
    if 'A' <= c <= 'Z' { ((c as u32) + 32) as char } else { c }
}

/// Equality up to ASCII letter case.
pub open spec fn eq_ignore_ascii_case(a: Seq<char>, b: Seq<char>) -> bool {
    a.len() == b.len() && forall|i: int| 0 <= i < a.len() ==> ascii_lower(#[trigger] a[i]) == ascii_lower(b[i])
}

/// `char::to_ascii_lowercase`.
pub fn ascii_lower_char(c: char) -> (r: char)
    ensures
        r == ascii_lower(c),
{
    if 'A' <= c && c <= 'Z' {
        let b: u8 = (c as u32) as u8;
        ((b + 32) as char)
    } else {
        c
    }
}

/// Equality of `a` and `b` up to ASCII letter case.
pub fn same_ignoring_case(a: &Vec<char>, b: &str) -> (r: bool)
    ensures
        r == eq_ignore_ascii_case(a@, b@),
{
    let bc = chars_of(b);
    if a.len() != bc.len() {
        return false;
    }
    let mut i: usize = 0;
    while i < a.len()
        invariant
            a.len() == bc.len(),
            bc@ == b@,
            i <= a.len(),
            forall|k: int| 0 <= k < i ==> ascii_lower(#[trigger] a@[k]) == ascii_lower(bc@[k]),
        decreases a.len() - i,
    {
        if ascii_lower_char(a[i]) != ascii_lower_char(bc[i]) {
            return false;
        }
        i = i + 1;
    }
    true
}

/// A borrowed string option seen as plain values.
pub open spec fn opt_view(o: Option<&str>) -> Option<Seq<char>> {
    match o {
        Some(s) => Some(s@),
        None => None,
    }
}

/// The characters `char::to_uppercase` maps `c` to (one or more).
pub uninterp spec fn unicode_upper(c: char) -> Seq<char>;

/// `char::to_uppercase`, collected into a string: the result is the named one.
#[verifier::external_body]
pub(crate) fn char_upper(c: char) -> (r: String)
    ensures
        r@ == unicode_upper(c),
{
    c.to_uppercase().collect()
}

/// What `str::to_uppercase` makes of `s` (Unicode upper case).
pub uninterp spec fn unicode_upper_str(s: Seq<char>) -> Seq<char>;

/// `str::to_uppercase`: the result is the named one.
#[verifier::external_body]
pub(crate) fn upper_case(s: &str) -> (r: String)
    ensures
        r@ == unicode_upper_str(s@),
{
    s.to_uppercase()
}

/// What `str::to_lowercase` makes of `s` (Unicode lower case).
pub uninterp spec fn unicode_lower(s: Seq<char>) -> Seq<char>;

/// `str::to_lowercase`: the result is the named one.
#[verifier::external_body]
pub(crate) fn lower_case(s: &str) -> (r: String)
    ensures
        r@ == unicode_lower(s@),
{
    s.to_lowercase()
}

/// `needle` occurs in `hay` starting at `i`.
pub open spec fn occurs_at(hay: Seq<char>, needle: Seq<char>, i: int) -> bool {
    0 <= i && i + needle.len() <= hay.len() && hay.subrange(i, i + needle.len()) == needle
}

/// `needle` occurs somewhere in `hay` (`str::contains`).
pub open spec fn contains_seq(hay: Seq<char>, needle: Seq<char>) -> bool {
    exists|i: int| #[trigger] occurs_at(hay, needle, i)
}

/// Whether `needle` occurs in `hay`.
pub fn contains_str(hay: &str, needle: &str) -> (r: bool)
    ensures
        r == contains_seq(hay@, needle@),
{
    let h = chars_of(hay);
    let n = chars_of(needle);
    if n.len() > h.len() {
        return false;
    }
    let mut i: usize = 0;
    while i <= h.len() - n.len()
        invariant
            h@ == hay@,
            n@ == needle@,
            n.len() <= h.len(),
            i <= h.len() - n.len() + 1,
            forall|j: int| 0 <= j < i ==> !#[trigger] occurs_at(hay@, needle@, j),
        decreases h.len() - n.len() + 1 - i,
    {
        let mut k: usize = 0;
        let mut same = true;
        while k < n.len()
            invariant
                h@ == hay@,
                n@ == needle@,
                i + n.len() <= h.len(),
                k <= n.len(),
                same == (forall|m: int| 0 <= m < k ==> h@[i + m] == n@[m]),
            decreases n.len() - k,
        {
            if h[i + k] != n[k] {
                same = false;
            }
            k = k + 1;
        }
        if same {
            assert(hay@.subrange(i as int, i + needle@.len()) =~= needle@);
            assert(occurs_at(hay@, needle@, i as int));
            return true;
        }
        assert(!occurs_at(hay@, needle@, i as int)) by {
            let m = choose|m: int| 0 <= m < k && h@[i + m] != n@[m];
            assert(hay@.subrange(i as int, i + needle@.len())[m] != needle@[m]);
        }
        i = i + 1;
    }
    assert forall|j: int| #[trigger] occurs_at(hay@, needle@, j) implies false by {
        assert(0 <= j < i);
    }
    false
}

/// What `<str as Debug>::fmt` writes for `s`: the text in double quotes, with
/// quotes, backslashes and non-printable characters escaped.
pub uninterp spec fn str_debug(s: Seq<char>) -> Seq<char>;

/// `format!("{:?}", s)`: the result is the named one.
#[verifier::external_body]
pub(crate) fn debug_quoted(s: &str) -> (r: String)
    ensures
        r@ == str_debug(s@),
{
    format!("{:?}", s)
}

} // verus!
