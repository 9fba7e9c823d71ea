use vstd::prelude::*;

use crate::postcard_api::postcard_take_tag;

verus! {

/// The postcard varint of a `u16` version tag: seven bits per byte, least
/// significant group first, the high bit set on every byte but the last.
pub open spec fn tag_bytes(v: u16) -> Seq<u8> {
    if v < 0x80 {
        seq![v as u8]
    } else if v < 0x4000 {
        seq![(v % 0x80 + 0x80) as u8, (v / 0x80) as u8]
    } else {
        seq![(v % 0x80 + 0x80) as u8, ((v / 0x80) % 0x80 + 0x80) as u8, (v / 0x4000) as u8]
    }
}

/// How postcard reads a `u16` varint from the front of `s`: the value and the
/// number of bytes it took, or `None` when the bytes run out before a byte
/// without the high bit, when three bytes pass without one, or when the third
/// byte carries bits beyond sixteen.
pub open spec fn tag_from_bytes(s: Seq<u8>) -> Option<(u16, nat)> {
    if s.len() == 0 {
        None
    } else if s[0] < 0x80 {
        Some((s[0] as u16, 1))
    } else if s.len() == 1 {
        None
    } else if s[1] < 0x80 {
        Some((((s[0] - 0x80) + s[1] * 0x80) as u16, 2))
    } else if s.len() == 2 {
        None
    } else if s[2] <= 3 {
        Some((((s[0] - 0x80) + (s[1] - 0x80) * 0x80 + s[2] * 0x4000) as u16, 3))
    } else {
        None
    }
}

/// Decodes the varint tag at the front of `bytes`, returning the tag and the
/// number of bytes it took.
pub fn read_tag(bytes: &[u8]) -> (r: Option<(u16, usize)>)
    ensures
        match tag_from_bytes(bytes@) {
            Some((v, k)) => r == Some((v, k as usize)),
            None => r is None,
        },
{
    match postcard_take_tag(bytes) {
        Some((t, rest)) => {
            let used = bytes.len() - rest.len();
            Some((t, used))
        },
        None => None,
    }
}

/// How many bytes the varint of `tag` takes.
pub(crate) fn tag_len(tag: u16) -> (r: usize)
    ensures
        r == tag_bytes(tag).len(),
{
    if tag < 0x80 {
        1
    } else if tag < 0x4000 {
        2
    } else {
        3
    }
}

/// Writes the varint of `tag` at the front of `buf`, leaving the rest of
/// `buf` as it was. Returns the number of bytes written, or `None` (with
/// `buf` unchanged) when `buf` is too short for them.
pub fn write_tag(tag: u16, buf: &mut [u8]) -> (r: Option<usize>)
    ensures
        final(buf)@.len() == old(buf)@.len(),
        tag_bytes(tag).len() <= old(buf)@.len() ==> r == Some(tag_bytes(tag).len() as usize)
            && final(buf)@ == tag_bytes(tag) + old(buf)@.subrange(
            tag_bytes(tag).len() as int,
            old(buf)@.len() as int,
        ),
        tag_bytes(tag).len() > old(buf)@.len() ==> r is None && final(buf)@ == old(buf)@,
{
    let len = buf.len();
    if tag < 0x80 {
        if len < 1 {
            return None;
        }
        buf[0] = tag as u8;
        assert(buf@ =~= tag_bytes(tag) + old(buf)@.subrange(1, len as int));
        Some(1)
    } else if tag < 0x4000 {
        if len < 2 {
            return None;
        }
        buf[0] = (tag % 0x80 + 0x80) as u8;
        buf[1] = (tag / 0x80) as u8;
        assert(buf@ =~= tag_bytes(tag) + old(buf)@.subrange(2, len as int));
        Some(2)
    } else {
        if len < 3 {
            return None;
        }
        buf[0] = (tag % 0x80 + 0x80) as u8;
        buf[1] = ((tag / 0x80) % 0x80 + 0x80) as u8;
        buf[2] = (tag / 0x4000) as u8;
        assert(buf@ =~= tag_bytes(tag) + old(buf)@.subrange(3, len as int));
        Some(3)
    }
}

/// A tag takes one to three bytes: never more than `varint_max_bytes(2)`.
pub proof fn lemma_tag_bytes_len(v: u16)
    ensures
        1 <= tag_bytes(v).len() <= 3,
        tag_bytes(v).len() <= crate::sizing::spec_varint_max_bytes(2),
{
}

/// Reading back a written tag gives the same tag and its length, whatever
/// bytes follow it.
pub proof fn lemma_tag_roundtrip(v: u16, rest: Seq<u8>)
    ensures
        tag_from_bytes(tag_bytes(v) + rest) == Some((v, tag_bytes(v).len())),
{
    let s = tag_bytes(v) + rest;
    if v < 0x80 {
        assert(s[0] == v as u8);
    } else if v < 0x4000 {
        assert(s[0] == (v % 0x80 + 0x80) as u8);
        assert(s[1] == (v / 0x80) as u8);
    } else {
        assert(s[0] == (v % 0x80 + 0x80) as u8);
        assert(s[1] == ((v / 0x80) % 0x80 + 0x80) as u8);
        assert(s[2] == (v / 0x4000) as u8);
    }
}

/// A tag is written as the shortest postcard varint of its value: one byte
/// below 0x80, two below 0x4000, three otherwise; every byte but the last has
/// the high bit set and carries seven bits of the value, least significant
/// first; the last byte has the high bit clear and, when there is more than
/// one byte, is not zero, so no shorter encoding exists.
pub proof fn lemma_tag_bytes_canonical(v: u16)
    ensures
        tag_bytes(v).len() == (if v < 0x80 {
            1int
        } else if v < 0x4000 {
            2int
        } else {
            3int
        }),
        forall|i: int| 0 <= i < tag_bytes(v).len() - 1 ==> #[trigger] tag_bytes(v)[i] >= 0x80,
        tag_bytes(v)[tag_bytes(v).len() - 1] < 0x80,
        tag_bytes(v).len() > 1 ==> tag_bytes(v)[tag_bytes(v).len() - 1] != 0,
        tag_bytes(v).len() == 1 ==> tag_bytes(v)[0] == v,
        tag_bytes(v).len() == 2 ==> (tag_bytes(v)[0] - 0x80) + 0x80 * tag_bytes(v)[1] == v,
        tag_bytes(v).len() == 3 ==> (tag_bytes(v)[0] - 0x80) + 0x80 * (tag_bytes(v)[1] - 0x80)
            + 0x4000 * tag_bytes(v)[2] == v,
{
    let b = tag_bytes(v);
    if v < 0x80 {
        assert(b[0] == v);
    } else if v < 0x4000 {
        assert(b[0] == v % 0x80 + 0x80);
        assert(b[1] == v / 0x80);
    } else {
        assert(b[0] == v % 0x80 + 0x80);
        assert(b[1] == (v / 0x80) % 0x80 + 0x80);
        assert(b[2] == v / 0x4000);
    }
}

} // verus!
