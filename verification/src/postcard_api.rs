use vstd::prelude::*;

use crate::tag::tag_from_bytes;

verus! {

/// Reads a `u16` varint with `postcard::take_from_bytes::<u16>`.
///
/// Trusted: the contract states that the call returns the value and the
/// unread rest of `bytes` (`None` for an error) exactly as `tag_from_bytes` describes the varint
/// reader of postcard's slice deserializer, and fails where it gives `None`.
#[verifier::external_body]
pub(crate) fn postcard_take_tag<'a>(bytes: &'a [u8]) -> (r: Option<(u16, &'a [u8])>)
    ensures
        match tag_from_bytes(bytes@) {
            Some((v, k)) => r matches Some((t, rest)) && t == v && rest@ == bytes@.subrange(
                k as int,
                bytes@.len() as int,
            ),
            None => r is None,
        },
{
    match postcard::take_from_bytes::<u16>(bytes) {
        Ok(found) => Some(found),
        Err(_) => None,
    }
}

} // verus!
