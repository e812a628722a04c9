use vstd::prelude::*;

verus! {

/// The bits that say which version and variant an id has.
pub const ID_FORMAT_MASK: u128 = 0x0000_0000_0000_f000_c000_0000_0000_0000;

/// The version and variant of an id that was drawn at random.
pub const ID_FORMAT_RANDOM: u128 = 0x0000_0000_0000_4000_8000_0000_0000_0000;

/// The id is marked as one that was drawn at random: version 4 of the
/// standard variant.
pub open spec fn is_random_id(id: u128) -> bool {
    id & ID_FORMAT_MASK == ID_FORMAT_RANDOM
}

/// Whether the id is marked as one that was drawn at random.
pub fn has_random_format(id: u128) -> (random: bool)
    ensures
        random == is_random_id(id),
{
    id & ID_FORMAT_MASK == ID_FORMAT_RANDOM
}

/// A fresh id from `uuid::Uuid::new_v4`, as the 128-bit number that
/// `Uuid::as_u128` gives for it. Trusted: `new_v4` sets the version bits to 4
/// and the variant bits to the standard variant, which is all that is claimed
/// of the number; the rest of it comes from the operating system's random
/// source. `new_v4` panics if that source fails; nothing a caller of this
/// library passes can bring that about.
#[verifier::external_body]
pub(crate) fn random_id() -> (id: u128)
    ensures
        is_random_id(id),
{
    uuid::Uuid::new_v4().as_u128()
}

} // verus!
