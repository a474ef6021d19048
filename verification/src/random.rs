//! The two places where chance enters the simulation: where a new particle
//! lies, and which identity a new group gets. Both draws are made by other
//! crates; what is stated of them here is taken on trust.

use vstd::prelude::*;

verus! {

/// The largest size of a bound that `random_between` accepts: up to here an
/// `i64` and the difference of two of them are whole numbers that a double
/// holds exactly.
pub const MAX_EXACT_BOUND: i64 = 0x10_0000_0000_0000;

/// `id` has the layout of a random (version 4) UUID: the version field
/// holds four and the variant field holds the two bits `10`.
pub open spec fn is_random_uuid(id: u128) -> bool {
    id & 0xf000_c000_0000_0000_0000 == 0x4000_8000_0000_0000_0000
}

/// A pseudo-random whole number from `low` to `high`.
///
/// Calls `macroquad::rand::gen_range`, the `gen_range` of the crate
/// quad-rand under macroquad's name. It takes the next value of a global
/// generator, scales it in double precision to the interval from `low` to
/// `high` and cuts off the fraction. Trusted: for bounds that doubles hold
/// exactly the result lies between them, both ends included. Nothing is
/// claimed of which number comes out.
#[verifier::external_body]
pub(crate) fn random_between(low: i64, high: i64) -> (r: i64)
    requires
        -MAX_EXACT_BOUND <= low <= high <= MAX_EXACT_BOUND,
    ensures
        low <= r <= high,
{
    macroquad::rand::gen_range(low, high)
}

/// A new random identity.
///
/// Calls `uuid::Uuid::new_v4` and reads the UUID as a 128-bit number with
/// `Uuid::as_u128`. Trusted: the number has the version and variant fields
/// of a random UUID. The other 122 bits come from the system's random
/// source, and nothing is claimed of them; in particular two calls are not
/// known to differ.
#[verifier::external_body]
pub(crate) fn fresh_identity() -> (id: u128)
    ensures
        is_random_uuid(id),
{
    uuid::Uuid::new_v4().as_u128()
}

} // verus!
