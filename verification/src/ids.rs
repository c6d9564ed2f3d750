//! Identifiers of processes, requests and subscribers.

use vstd::prelude::*;

verus! {

/// Identifies a process owned by the coordinator.
pub type ProcessId = u128;

/// Identifies one outgoing request and every result pushed back for it.
pub type CorrelationId = u128;

/// Identifies a registered consumer of results.
pub type SubscriberId = u128;

/// Bits of a 128-bit identifier that hold its version and variant fields.
pub const ID_FIXED_MASK: u128 = 0x0000_0000_0000_F000_C000_0000_0000_0000;

/// Value of those bits in every random (version 4) identifier.
pub const ID_FIXED_BITS: u128 = 0x0000_0000_0000_4000_8000_0000_0000_0000;

/// Whether `id` has the shape of a random (version 4) identifier.
pub open spec fn is_random_id(id: u128) -> bool {
    id & ID_FIXED_MASK == ID_FIXED_BITS
}

/// Mints a fresh identifier with `uuid::Uuid::new_v4` and hands it out as its
/// 128-bit value (`Uuid::as_u128`).
///
/// Trusted: the version and variant bits are the ones `new_v4` always sets.
/// Every other bit comes from the operating system's random source, so nothing
/// is said about it, and two calls may well differ. `new_v4` panics if that
/// source cannot be read.
#[verifier::external_body]
pub(crate) fn mint_id() -> (id: u128)
    ensures
        is_random_id(id),
{
    uuid::Uuid::new_v4().as_u128()
}

/// Whether `id` has the shape of a random (version 4) identifier.
pub fn has_random_shape(id: u128) -> (shaped: bool)
    ensures
        shaped == is_random_id(id),
{
    id & ID_FIXED_MASK == ID_FIXED_BITS
}

/// A random identifier is never the all-zero (nil) identifier.
pub proof fn lemma_random_id_is_not_nil(id: u128)
    requires
        is_random_id(id),
    ensures
        id != 0,
{
    assert(0u128 & 0x0000_0000_0000_F000_C000_0000_0000_0000u128 == 0u128) by (bit_vector);
}

} // verus!
