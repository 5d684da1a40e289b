//! Pacing of the requests that the program sends over its TLS connection.
use vstd::prelude::*;
use crate::random::random_in_range;

verus! {

/// How many milliseconds to wait before the next request: a random number
/// from 1 to 4999.
pub fn request_delay_ms() -> (r: u64)
    ensures
        1 <= r < 5000,
{
    random_in_range(1, 5000) as u64
}

} // verus!
