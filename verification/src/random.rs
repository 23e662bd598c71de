//! The random-number generator of the MIDI generator: `rand`'s `StdRng`,
//! seeded from the configuration, and the draws the generator makes from it.
//! A generator seeded with `seed_from_u64` gives a fixed sequence of values, so
//! every draw is named by the seed and the requests made before it.
use vstd::prelude::*;
use rand::rngs::StdRng;
use rand::{RngExt, SeedableRng};

verus! {

#[verifier::external_type_specification]
#[verifier::external_body]
pub struct ExStdRng(rand::rngs::StdRng);

/// What `StdRng::seed_from_u64(seed)` answers to the last of `requests` after
/// answering the ones before it. A request is `(kind, a, b)`: kind 0 is
/// `random_range(0..a)` on `usize`, kind 1 `random_range(0..a)` on `u8`, kind 2
/// `random_range(lo..=hi)` on `i8` with `a == lo + 128` and `b == hi + 128`
/// (answered as the value plus 128), kind 3 `random_ratio(a, b)` (answered as 1
/// for `true` and 0 for `false`).
pub uninterp spec fn std_rng_draw(seed: u64, requests: Seq<(u8, u64, u64)>) -> u64;

/// A seeded generator with the seed it was made from and the requests it has
/// answered so far.
pub struct Draws {
    rng: StdRng,
    seed: Ghost<u64>,
    requests: Ghost<Seq<(u8, u64, u64)>>,
}

impl Draws {
    pub closed spec fn seed(&self) -> u64 {
        self.seed@
    }

    pub closed spec fn requests(&self) -> Seq<(u8, u64, u64)> {
        self.requests@
    }
}

/// The answer to request `req` of a generator seeded with `seed` that has
/// answered `requests`.
pub open spec fn answer(seed: u64, requests: Seq<(u8, u64, u64)>, req: (u8, u64, u64)) -> u64 {
    std_rng_draw(seed, requests.push(req))
}

/// `SeedableRng::seed_from_u64`.
#[verifier::external_body]
fn seed_std(seed: u64) -> StdRng {
    StdRng::seed_from_u64(seed)
}

/// A generator seeded with `seed` that has answered nothing yet.
pub(crate) fn seeded(seed: u64) -> (r: Draws)
    ensures
        r.seed() == seed,
        r.requests() == Seq::<(u8, u64, u64)>::empty(),
{
    Draws { rng: seed_std(seed), seed: Ghost(seed), requests: Ghost(Seq::empty()) }
}

/// `RngExt::random_range(0..n)` on `usize`: a value below `n`, the named answer
/// to the request; the range must not be empty (the crate panics on an empty
/// range).
#[verifier::external_body]
pub(crate) fn below(rng: &mut Draws, n: usize) -> (r: usize)
    requires
        n > 0,
    ensures
        r < n,
        r as u64 == std_rng_draw(old(rng).seed(), old(rng).requests().push((0u8, n as u64, 0u64))),
        final(rng).seed() == old(rng).seed(),
        final(rng).requests() == old(rng).requests().push((0u8, n as u64, 0u64)),
{
    rng.rng.random_range(0..n)
}

/// `RngExt::random_range(0..n)` on `u8`: a value below `n`, the named answer to
/// the request; the range must not be empty.
#[verifier::external_body]
pub(crate) fn below_u8(rng: &mut Draws, n: u8) -> (r: u8)
    requires
        n > 0,
    ensures
        r < n,
        r as u64 == std_rng_draw(old(rng).seed(), old(rng).requests().push((1u8, n as u64, 0u64))),
        final(rng).seed() == old(rng).seed(),
        final(rng).requests() == old(rng).requests().push((1u8, n as u64, 0u64)),
{
    rng.rng.random_range(0..n)
}

/// `RngExt::random_range(lo..=hi)` on `i8`: a value from `lo` to `hi`, the named
/// answer (plus 128) to the request; the range must not be empty.
#[verifier::external_body]
pub(crate) fn between(rng: &mut Draws, lo: i8, hi: i8) -> (r: i8)
    requires
        lo <= hi,
    ensures
        lo <= r <= hi,
        r + 128 == std_rng_draw(old(rng).seed(), old(rng).requests().push((2u8, (lo + 128) as u64, (hi + 128) as u64))),
        final(rng).seed() == old(rng).seed(),
        final(rng).requests() == old(rng).requests().push((2u8, (lo + 128) as u64, (hi + 128) as u64)),
{
    rng.rng.random_range(lo..=hi)
}

/// `RngExt::random_ratio(num, den)`: `true` with chance `num` in `den`, the named
/// answer (1 or 0) to the request; always `false` for `num == 0` and always
/// `true` for `num == den`, as the crate documents. It panics for `den == 0` or
/// `num > den`. `random_ratio(1, 2)` and `random_ratio(2, 5)` build the same
/// Bernoulli threshold as `random_bool(0.5)` and `random_bool(0.4)`, so they
/// draw the same outcomes.
#[verifier::external_body]
pub(crate) fn chance(rng: &mut Draws, num: u32, den: u32) -> (r: bool)
    requires
        0 < den,
        num <= den,
    ensures
        num == 0 ==> !r,
        num == den ==> r,
        (if r { 1u64 } else { 0u64 }) == std_rng_draw(old(rng).seed(), old(rng).requests().push((3u8, num as u64, den as u64))),
        final(rng).seed() == old(rng).seed(),
        final(rng).requests() == old(rng).requests().push((3u8, num as u64, den as u64)),
{
    rng.rng.random_ratio(num, den)
}

} // verus!
