//! Counter identifiers: 128-bit values, drawn at random or read from text.
use vstd::prelude::*;

verus! {

/// The identifier that `uuid::Uuid::try_parse_ascii` reads from the given
/// bytes, as its 128-bit big-endian value, or `None` where the bytes are not
/// a UUID in one of the crate's accepted text forms.
pub uninterp spec fn parsed_id(text: Seq<u8>) -> Option<u128>;

/// A version-4 (random) identifier of the RFC 4122 variant: the version
/// nibble is 4 and the two top bits of the variant octet are `10`.
pub open spec fn is_random_id(id: u128) -> bool {
    (id >> 76u128) & 0xfu128 == 4 && (id >> 62u128) & 0x3u128 == 2
}

/// Relies on `uuid::Uuid::new_v4`: random bits with the version and variant
/// fields set, read back whole by `as_u128`.
#[verifier::external_body]
pub(crate) fn random_id() -> (r: u128)
    ensures
        is_random_id(r),
{
    uuid::Uuid::new_v4().as_u128()
}

/// Relies on `uuid::Uuid::try_parse_ascii`: the parsed identifier, read whole
/// by `as_u128`, or `None` on its error.
#[verifier::external_body]
pub(crate) fn parse_id(text: &[u8]) -> (r: Option<u128>)
    ensures
        r == parsed_id(text@),
{
    match uuid::Uuid::try_parse_ascii(text) {
        Ok(u) => Some(u.as_u128()),
        Err(_) => None,
    }
}

} // verus!
