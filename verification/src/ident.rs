use vstd::prelude::*;

verus! {

/// The bits of an identifier that carry the UUID version and variant.
pub const VERSION_VARIANT_MASK: u128 = 0x0000_0000_0000_F000_C000_0000_0000_0000;

/// What those bits hold in a random (version 4) UUID.
pub const RANDOM_UUID_MARK: u128 = 0x0000_0000_0000_4000_8000_0000_0000_0000;

/// Draws a fresh boat identifier.
///
/// Calls `uuid::Uuid::new_v4` and returns the 128 bits of the UUID as
/// `uuid::Uuid::as_u128` packs them. The value is random, so nothing is
/// claimed about it beyond the version and variant bits that `new_v4` always
/// sets. This is trusted, not proved. `new_v4` panics if the operating system
/// cannot supply random bytes.
#[verifier::external_body]
pub(crate) fn fresh_id() -> (id: u128)
    ensures
        id & VERSION_VARIANT_MASK == RANDOM_UUID_MARK,
{
    uuid::Uuid::new_v4().as_u128()
}

} // verus!
