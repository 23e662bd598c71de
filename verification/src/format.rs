//! Human-readable sizes and delimiter-separated-value escaping.
use vstd::prelude::*;
use vstd::arithmetic::power2::pow2;
use crate::text::{chars_of, decimal, digit_char, push_char, push_decimal, push_str};

verus! {

/// Number of binary digits of `b` (0 for 0).
pub open spec fn bit_len(b: nat) -> nat
    decreases b,
{
    if b == 0 { 0 } else { 1 + bit_len(b / 2) }
}

/// `n / d` rounded to the nearest integer, ties to the even one.
pub open spec fn round_half_even(n: nat, d: nat) -> nat
    recommends
        d > 0,
{
    let q = n / d;
    let r = n % d;
    if 2 * r > d || (2 * r == d && q % 2 == 1) { q + 1 } else { q }
}

/// The value an integer takes as an `f64`: rounded to 53 significant bits, ties to even.
pub open spec fn f64_value(b: nat) -> nat {
    if bit_len(b) <= 53 {
        b
    } else {
        let e = (bit_len(b) - 53) as nat;
        round_half_even(b, pow2(e)) * pow2(e)
    }
}

/// `1024^i`.
pub open spec fn pow1024(i: nat) -> nat
    decreases i,
{
    if i == 0 { 1 } else { 1024 * pow1024((i - 1) as nat) }
}

/// Index of the largest unit (of B, KB, MB, GB, TB) not larger than `x`.
pub open spec fn size_tier(x: nat) -> nat {
    if x >= 1099511627776 { 4 }
    else if x >= 1073741824 { 3 }
    else if x >= 1048576 { 2 }
    else if x >= 1024 { 1 }
    else { 0 }
}

pub open spec fn unit_name(i: nat) -> Seq<char> {
    if i == 0 { "B"@ } else if i == 1 { "KB"@ } else if i == 2 { "MB"@ } else if i == 3 { "GB"@ } else { "TB"@ }
}

/// `bytes` as a number with one decimal in the largest fitting unit up to TB,
/// such as "2.5 KB"; "0 B" for zero. The number is the `f64` value of `bytes`
/// divided by the unit, rounded to one decimal with ties to even.
pub open spec fn spec_format_size(bytes: nat) -> Seq<char> {
    if bytes == 0 {
        "0 B"@
    } else {
        let x = f64_value(bytes);
        let i = size_tier(x);
        let t = round_half_even(x * 10, pow1024(i));
        decimal(t / 10) + "."@ + seq![digit_char((t % 10) as int)] + " "@ + unit_name(i)
    }
}

proof fn lemma_bit_len_range(n: nat, m: nat)
    requires
        m >= 1,
        pow2((m - 1) as nat) <= n < pow2(m),
    ensures
        bit_len(n) == m,
    decreases m,
{
    vstd::arithmetic::power2::lemma_pow2_unfold(m);
    if m == 1 {
        vstd::arithmetic::power2::lemma2_to64();
        assert(n == 1);
        assert(bit_len(0) == 0);
    } else {
        vstd::arithmetic::power2::lemma_pow2_unfold((m - 1) as nat);
        lemma_bit_len_range(n / 2, (m - 1) as nat);
    }
}

proof fn lemma_bit_len_le(n: nat, m: nat)
    requires
        n < pow2(m),
    ensures
        bit_len(n) <= m,
    decreases m,
{
    if m == 0 {
        vstd::arithmetic::power2::lemma2_to64();
        assert(n == 0);
    } else {
        vstd::arithmetic::power2::lemma_pow2_unfold(m);
        if n > 0 {
            lemma_bit_len_le(n / 2, (m - 1) as nat);
        }
    }
}

proof fn lemma_bit_len_ge(n: nat, m: nat)
    requires
        n >= pow2(m),
    ensures
        bit_len(n) >= m + 1,
    decreases m,
{
    vstd::arithmetic::power2::lemma_pow2_pos(m);
    if m > 0 {
        vstd::arithmetic::power2::lemma_pow2_unfold(m);
        lemma_bit_len_ge(n / 2, (m - 1) as nat);
    }
}

/// The `f64` value of `b`, as an integer (at most 2^64).
fn f64_value_of(b: u64) -> (r: u128)
    ensures
        r as nat == f64_value(b as nat),
        r <= 0x1_0000_0000_0000_0000,
        b > 0 ==> r > 0,
        (b as nat) < 0x20_0000_0000_0000 ==> r == b,
{
    proof {
        vstd::arithmetic::power2::lemma2_to64();
        vstd::arithmetic::power2::lemma2_to64_rest();
        lemma_bit_len_le(b as nat, 64);
    }
    let mut n: u64 = b;
    let mut d: u128 = 1;
    let mut k: u64 = 0;
    assert(b as nat / 1 == b);
    while n >= 0x20_0000_0000_0000
        invariant
            bit_len(b as nat) == k + bit_len(n as nat),
            d as nat == pow2(k as nat),
            k > 0 ==> n >= 0x10_0000_0000_0000,
            n as nat * d as nat <= b as nat,
            b as nat / d as nat == n,
            1 <= d <= 0x1_0000_0000_0000_0000,
            k <= 11,
            bit_len(b as nat) <= 64,
            pow2(53) == 0x20_0000_0000_0000,
            pow2(52) == 0x10_0000_0000_0000,
        decreases n,
    {
        assert(bit_len(n as nat) == 1 + bit_len((n / 2) as nat));
        proof {
            lemma_bit_len_ge(n as nat, 53);
            vstd::arithmetic::power2::lemma_pow2_unfold((k + 1) as nat);
            vstd::arithmetic::div_mod::lemma_div_denominator(b as int, d as int, 2);
            let nn = n as nat;
            let dd = d as nat;
            assert((nn / 2) * (dd * 2) <= nn * dd) by (nonlinear_arith);
            assert(dd * 2 <= b as nat) by (nonlinear_arith)
                requires
                    nn >= 0x20_0000_0000_0000,
                    nn * dd <= b as nat,
                    dd >= 1,
            ;
        }
        n = n / 2;
        d = d * 2;
        k = k + 1;
    }
    if k == 0 {
        proof {
            lemma_bit_len_le(b as nat, 53);
        }
        return b as u128;
    }
    proof {
        lemma_bit_len_range(n as nat, 53);
        if k < 11 {
            vstd::arithmetic::power2::lemma_pow2_strictly_increases(k as nat, 11);
        }
        vstd::arithmetic::power2::lemma_pow2_strictly_increases(0, k as nat);
        let nn = n as nat;
        let dd = d as nat;
        assert(b as nat >= 0x20_0000_0000_0000) by (nonlinear_arith)
            requires
                nn >= 0x10_0000_0000_0000,
                nn * dd <= b as nat,
                dd >= 2,
        ;
    }
    let q = (b as u128) / d;
    let rem = (b as u128) % d;
    assert(q == n);
    let rounded: u128 = if 2 * rem > d || (2 * rem == d && q % 2 == 1) {
        q + 1
    } else {
        q
    };
    proof {
        let rr = rounded as nat;
        let dd = d as nat;
        assert(rr * dd <= 0x1_0000_0000_0000_0000) by (nonlinear_arith)
            requires
                rr <= 0x20_0000_0000_0000,
                dd <= 2048,
        ;
        assert(rr * dd > 0) by (nonlinear_arith)
            requires
                rr >= 1,
                dd >= 1,
        ;
    }
    rounded * d
}

fn unit_str(i: u64) -> (r: &'static str)
    ensures
        r@ == unit_name(i as nat),
{
    if i == 0 { "B" } else if i == 1 { "KB" } else if i == 2 { "MB" } else if i == 3 { "GB" } else { "TB" }
}

/// Formats a byte count for display: one decimal in the largest unit up to TB
/// ("2.5 KB", "1.0 MB", "1024.0 TB"), or "0 B".
pub fn format_size(bytes: u64) -> (r: String)
    ensures
        r@ == spec_format_size(bytes as nat),
{
    if bytes == 0 {
        return crate::text::owned("0 B");
    }
    let x = f64_value_of(bytes);
    proof {
        reveal_with_fuel(pow1024, 5);
    }
    let (i, unit): (u64, u128) = if x >= 1099511627776 {
        (4, 1099511627776)
    } else if x >= 1073741824 {
        (3, 1073741824)
    } else if x >= 1048576 {
        (2, 1048576)
    } else if x >= 1024 {
        (1, 1024)
    } else {
        (0, 1)
    };
    assert(i as nat == size_tier(x as nat));
    assert(unit as nat == pow1024(i as nat));
    let num = x * 10;
    let q = num / unit;
    let rem = num % unit;
    proof {
        let xx = x as nat;
        let uu = unit as nat;
        assert(q as nat <= 10 * 0x1000000 + 10240) by (nonlinear_arith)
            requires
                q as nat == (xx * 10) / uu,
                uu >= 1,
                xx <= 0x1_0000_0000_0000_0000,
                uu == 1099511627776 || xx < uu * 1024,
        ;
    }
    let t: u128 = if 2 * rem > unit || (2 * rem == unit && q % 2 == 1) {
        q + 1
    } else {
        q
    };
    let mut out = String::new();
    push_decimal(&mut out, (t / 10) as u64);
    push_char(&mut out, '.');
    let c = crate::text::digit_to_char((t % 10) as u64);
    push_char(&mut out, c);
    push_str(&mut out, " ");
    push_str(&mut out, unit_str(i));
    proof {
        assert(out@ =~= decimal((t / 10) as nat) + "."@ + seq![digit_char((t % 10) as int)] + " "@
            + unit_name(i as nat)) by {
            reveal_strlit(".");
            reveal_strlit(" ");
        }
    }
    out
}

/// `s` with every double quote doubled.
pub open spec fn double_quotes(s: Seq<char>) -> Seq<char>
    decreases s.len(),
{
    if s.len() == 0 {
        Seq::empty()
    } else {
        double_quotes(s.drop_last()) + if s.last() == '"' { seq!['"', '"'] } else { seq![s.last()] }
    }
}

/// Whether a field has to be quoted in a file separated by `sep`.
pub open spec fn needs_quoting(s: Seq<char>, sep: char) -> bool {
    s.contains(sep) || s.contains('"') || s.contains('\n')
}

/// A field of a delimiter-separated file: quoted, with inner quotes doubled, when it
/// holds the separator, a double quote or a newline; otherwise unchanged.
pub open spec fn spec_dsv_escape(s: Seq<char>, sep: char) -> Seq<char> {
    if needs_quoting(s, sep) {
        seq!['"'] + double_quotes(s) + seq!['"']
    } else {
        s
    }
}

/// Escapes one field for a file separated by `sep`.
pub fn dsv_escape(s: &str, sep: char) -> (r: String)
    ensures
        r@ == spec_dsv_escape(s@, sep),
{
    let cs = chars_of(s);
    let mut quote = false;
    let mut i: usize = 0;
    while i < cs.len()
        invariant
            cs@ == s@,
            i <= cs.len(),
            quote == exists|j: int| 0 <= j < i && (cs@[j] == sep || cs@[j] == '"' || cs@[j] == '\n'),
        decreases cs.len() - i,
    {
        let c = cs[i];
        if c == sep || c == '"' || c == '\n' {
            quote = true;
        }
        i = i + 1;
    }
    assert(quote == needs_quoting(s@, sep)) by {
        if needs_quoting(s@, sep) {
            if s@.contains(sep) {
                let j = choose|j: int| 0 <= j < s@.len() && s@[j] == sep;
                assert(cs@[j] == sep);
            } else if s@.contains('"') {
                let j = choose|j: int| 0 <= j < s@.len() && s@[j] == '"';
                assert(cs@[j] == '"');
            } else {
                let j = choose|j: int| 0 <= j < s@.len() && s@[j] == '\n';
                assert(cs@[j] == '\n');
            }
        }
        if quote {
            let j = choose|j: int| 0 <= j < i && (cs@[j] == sep || cs@[j] == '"' || cs@[j] == '\n');
            assert(s@[j] == cs@[j]);
        }
    }
    let mut out = String::new();
    if !quote {
        push_str(&mut out, s);
        return out;
    }
    push_char(&mut out, '"');
    let mut k: usize = 0;
    while k < cs.len()
        invariant
            cs@ == s@,
            k <= cs.len(),
            out@ == seq!['"'] + double_quotes(cs@.take(k as int)),
        decreases cs.len() - k,
    {
        let c = cs[k];
        if c == '"' {
            push_char(&mut out, '"');
            push_char(&mut out, '"');
        } else {
            push_char(&mut out, c);
        }
        assert(cs@.take((k + 1) as int).drop_last() =~= cs@.take(k as int));
        k = k + 1;
        assert(out@ =~= seq!['"'] + double_quotes(cs@.take(k as int)));
    }
    assert(cs@.take(cs.len() as int) =~= s@);
    push_char(&mut out, '"');
    out
}

/// Escapes one field for a comma-separated file.
pub fn csv_escape(s: &str) -> (r: String)
    ensures
        r@ == spec_dsv_escape(s@, ','),
{
    dsv_escape(s, ',')
}

/// Whether `path` ends with ".tsv".
pub open spec fn is_tsv_path(path: Seq<char>) -> bool {
    path.len() >= 4 && path.subrange(path.len() - 4, path.len() as int) == ".tsv"@
}

/// The field separator for an export path: a tab for ".tsv" files, else a comma.
pub fn detect_separator(file_path: &str) -> (r: char)
    ensures
        r == if is_tsv_path(file_path@) { '\t' } else { ',' },
{
    let cs = chars_of(file_path);
    let n = cs.len();
    proof {
        reveal_strlit(".tsv");
    }
    if n >= 4 && cs[n - 4] == '.' && cs[n - 3] == 't' && cs[n - 2] == 's' && cs[n - 1] == 'v' {
        assert(file_path@.subrange(n - 4, n as int) =~= ".tsv"@);
        '\t'
    } else {
        if n >= 4 {
            let ghost sub = file_path@.subrange(n - 4, n as int);
            assert(sub[0] == cs@[n - 4]);
            assert(sub[1] == cs@[n - 3]);
            assert(sub[2] == cs@[n - 2]);
            assert(sub[3] == cs@[n - 1]);
        }
        ','
    }
}

} // verus!
