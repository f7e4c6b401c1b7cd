//! Draws of random values, taken on trust from the `rand` crate. Nothing is
//! assumed about the values drawn beyond their range.

use vstd::prelude::*;

verus! {

pub assume_specification<T>[ rand::random::<T> ]() -> (r: T)
    where
        rand::distributions::Standard: rand::distributions::Distribution<T>,
;

/// Relies on rand's `Rng::gen_range`: a draw from `0..=9`, uniform over the
/// range. Nothing more than the range is assumed.
#[verifier::external_body]
pub(crate) fn random_digit() -> (d: u8)
    ensures
        d < 10,
{
    rand::Rng::gen_range(&mut rand::thread_rng(), 0..=9)
}

} // verus!
