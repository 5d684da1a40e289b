//! Random numbers from `rand`'s thread-local generator.
use vstd::prelude::*;
use rand::Rng;

verus! {

/// Whether `b` is an ASCII letter or digit.
pub open spec fn is_alphanumeric(b: u8) -> bool {
    (0x30 <= b <= 0x39) || (0x41 <= b <= 0x5a) || (0x61 <= b <= 0x7a)
}

/// Calls `rand::Rng::gen_range` with the range `low..high` on
/// `rand::thread_rng()`. Claimed: the result lies in the range; `gen_range`
/// panics on an empty range, so `low < high` is required. Which number of
/// the range comes out is left unsaid: it is drawn at random.
#[verifier::external_body]
pub(crate) fn random_in_range(low: usize, high: usize) -> (r: usize)
    requires
        low < high,
    ensures
        low <= r < high,
{
    rand::thread_rng().gen_range(low..high)
}

/// Calls `rand::Rng::sample` with `rand::distributions::Alphanumeric` on
/// `rand::thread_rng()`. Claimed: the byte is an ASCII letter or digit, the
/// set that `Alphanumeric` picks from. Which one is left unsaid: it is drawn
/// at random.
#[verifier::external_body]
pub(crate) fn random_alphanumeric() -> (r: u8)
    ensures
        is_alphanumeric(r),
{
    rand::thread_rng().sample(rand::distributions::Alphanumeric)
}

} // verus!
