//! Fresh password generation.

use vstd::prelude::*;

verus! {

/// Relies on `rand::thread_rng` and `rand::Rng::gen_range` over the
/// half-open range `0..i32::MAX`: the sampled value lies in that range, so a
/// fresh password is never negative and in particular never the
/// consumed-password sentinel. Nothing more is assumed of a random value.
#[verifier::external_body]
pub(crate) fn fresh_password() -> (r: i32)
    ensures
        0 <= r < i32::MAX,
{
    rand::Rng::gen_range(&mut rand::thread_rng(), 0..i32::MAX)
}

} // verus!
