use vstd::prelude::*;

use crate::format::PostcardFormat;
use crate::tag::{read_tag, tag_bytes, tag_from_bytes, tag_len, write_tag};

verus! {

/// Backend-agnostic (de)serialization error.
#[derive(Debug, Clone, Copy, PartialEq, Eq, Structural)]
pub enum Error {
    /// The output buffer was too small to hold the serialized record.
    BufferTooSmall,
    /// The record could not be decoded (bad bytes, unknown tag, short buffer).
    Corrupt,
}

/// `s` followed by zeros up to length `n`.
pub open spec fn zero_padded(s: Seq<u8>, n: nat) -> Seq<u8> {
    s + Seq::new((n - s.len()) as nat, |i: int| 0u8)
}

/// What splitting a stored `record` with a scratch of `n` bytes gives: the tag
/// read from the zero-padded record and everything after the tag up to `n`,
/// or `None` when the record is longer than `n` or holds no valid tag.
pub open spec fn spec_split_record(record: Seq<u8>, n: nat) -> Option<(u16, Seq<u8>)> {
    if record.len() > n {
        None
    } else {
        let padded = zero_padded(record, n);
        match tag_from_bytes(padded) {
            Some((t, k)) => Some((t, padded.subrange(k as int, n as int))),
            None => None,
        }
    }
}

/// Writes `[ varint tag ][ payload ]` into `buf`, where `payload` is an
/// already encoded wire value, returning the bytes used. When the
/// record does not fit, the result is `BufferTooSmall` and `buf` is left as it
/// was.
pub fn frame_payload(tag: u16, payload: &[u8], buf: &mut [u8]) -> (r: Result<usize, Error>)
    ensures
        final(buf)@.len() == old(buf)@.len(),
        r is Ok <==> tag_bytes(tag).len() + payload@.len() <= old(buf)@.len(),
        r matches Ok(n) ==> {
            &&& n == tag_bytes(tag).len() + payload@.len()
            &&& final(buf)@ == tag_bytes(tag) + payload@ + old(buf)@.subrange(
                n as int,
                old(buf)@.len() as int,
            )
        },
        r is Err ==> r == Err::<usize, Error>(Error::BufferTooSmall) && final(buf)@ == old(buf)@,
{
    let len = buf.len();
    let n1 = tag_len(tag);
    if n1 > len || payload.len() > len - n1 {
        return Err(Error::BufferTooSmall);
    }
    let n1 = match write_tag(tag, buf) {
        Some(n) => n,
        None => return Err(Error::BufferTooSmall),
    };
    let ghost tagged = buf@;
    let mut i: usize = 0;
    while i < payload.len()
        invariant
            n1 == tag_bytes(tag).len(),
            n1 + payload@.len() <= len,
            buf@.len() == len,
            tagged.len() == len,
            i <= payload@.len(),
            forall|j: int| 0 <= j < n1 ==> buf@[j] == tagged[j],
            forall|j: int| 0 <= j < i ==> buf@[n1 + j] == payload@[j],
            forall|j: int| n1 + payload@.len() <= j < len ==> buf@[j] == tagged[j],
        decreases payload@.len() - i,
    {
        buf[n1 + i] = payload[i];
        i = i + 1;
    }
    let n = n1 + payload.len();
    assert(buf@ =~= tag_bytes(tag) + payload@ + old(buf)@.subrange(n as int, len as int)) by {
        assert forall|j: int| 0 <= j < n1 implies buf@[j] == tag_bytes(tag)[j] by {
            assert(tagged[j] == (tag_bytes(tag) + old(buf)@.subrange(n1 as int, len as int))[j]);
        }
        assert forall|j: int| n <= j < len implies buf@[j] == old(buf)@[j] by {
            assert(tagged[j] == (tag_bytes(tag) + old(buf)@.subrange(n1 as int, len as int))[j]);
        }
    }
    Ok(n)
}

/// Writes `[ varint tag ][ postcard(value) ]` into `buf`, returning the bytes
/// used: the tag first, then the value serialized in place right after it,
/// and the rest of `buf` as it was. Every error is `BufferTooSmall`; when not
/// even the tag fits, `buf` is left as it was.
pub fn write_versioned<T: serde::Serialize>(tag: u16, value: &T, buf: &mut [u8]) -> (r: Result<usize, Error>)
    ensures
        final(buf)@.len() == old(buf)@.len(),
        r matches Err(e) ==> e == Error::BufferTooSmall,
        tag_bytes(tag).len() > old(buf)@.len() ==> r is Err && final(buf)@ == old(buf)@,
        r matches Ok(n) ==> {
            &&& tag_bytes(tag).len() <= n <= old(buf)@.len()
            &&& final(buf)@ == tag_bytes(tag) + final(buf)@.subrange(
                tag_bytes(tag).len() as int,
                n as int,
            ) + old(buf)@.subrange(n as int, old(buf)@.len() as int)
        },
{
    let n1 = match write_tag(tag, buf) {
        Some(n) => n,
        None => return Err(Error::BufferTooSmall),
    };
    let ghost tagged = buf@;
    let len = buf.len();
    let (head, rest) = buf.split_at_mut(n1);
    assert(rest@.len() == len - n1);
    let n2 = match PostcardFormat::<0>.serialize(value, rest) {
        Ok(n) => n,
        Err(e) => return Err(e),
    };
    let n = n1 + n2;
    let ghost framed = tag_bytes(tag) + buf@.subrange(n1 as int, n as int) + old(buf)@.subrange(
        n as int,
        len as int,
    );
    assert(buf@.subrange(0, n1 as int) =~= tagged.subrange(0, n1 as int));
    assert(buf@.subrange(n as int, len as int) =~= rest@.subrange(n2 as int, rest@.len() as int));
    assert forall|j: int| 0 <= j < len implies buf@[j] == framed[j] by {
        if j < n1 {
            assert(buf@[j] == buf@.subrange(0, n1 as int)[j]);
            assert(tagged[j] == tag_bytes(tag)[j]);
        } else if j >= n {
            assert(buf@[j] == buf@.subrange(n as int, len as int)[j - n]);
            assert(tagged[j] == old(buf)@[j]);
        }
    }
    assert(buf@ =~= framed);
    Ok(n)
}

/// Splits a stored record into its tag and the body after it. The record is
/// copied into `scratch` and the rest of `scratch` zeroed, so the body runs to
/// the end of `scratch` and ends in zeros; it returns the tag and where the
/// body starts in `scratch`. A record longer than `scratch` (which is then
/// left as it was) or without a valid tag is `Corrupt`.
pub fn split_record(record: &[u8], scratch: &mut [u8]) -> (r: Result<(u16, usize), Error>)
    ensures
        final(scratch)@.len() == old(scratch)@.len(),
        record@.len() <= old(scratch)@.len() ==> final(scratch)@ == zero_padded(
            record@,
            old(scratch)@.len(),
        ),
        record@.len() > old(scratch)@.len() ==> final(scratch)@ == old(scratch)@,
        record@.len() <= old(scratch)@.len() ==> {
            &&& forall|j: int| 0 <= j < record@.len() ==> #[trigger] final(scratch)@[j] == record@[j]
            &&& forall|j: int|
                record@.len() <= j < old(scratch)@.len() ==> #[trigger] final(scratch)@[j] == 0u8
        },
        match spec_split_record(record@, old(scratch)@.len()) {
            Some((t, body)) => r matches Ok((t2, k)) && t2 == t && k <= final(scratch)@.len()
                && final(scratch)@.subrange(k as int, final(scratch)@.len() as int) == body,
            None => r == Err::<(u16, usize), Error>(Error::Corrupt),
        },
{
    let n = scratch.len();
    if record.len() > n {
        return Err(Error::Corrupt);
    }
    let mut i: usize = 0;
    while i < n
        invariant
            record@.len() <= n,
            scratch@.len() == n,
            i <= n,
            forall|j: int| 0 <= j < i ==> scratch@[j] == zero_padded(record@, n as nat)[j],
        decreases n - i,
    {
        if i < record.len() {
            scratch[i] = record[i];
        } else {
            scratch[i] = 0;
        }
        i = i + 1;
    }
    assert(scratch@ =~= zero_padded(record@, n as nat));
    proof {
        lemma_zero_padded(record@, n as nat);
    }
    match read_tag(scratch) {
        Some((t, k)) => Ok((t, k)),
        None => Err(Error::Corrupt),
    }
}

/// A record made of a tag and a payload splits back into that tag and the
/// payload, padded with zeros to the scratch size `n`, as long as the record
/// fits in `n`.
pub proof fn lemma_record_roundtrip(tag: u16, payload: Seq<u8>, n: nat)
    requires
        tag_bytes(tag).len() + payload.len() <= n,
    ensures
        spec_split_record(tag_bytes(tag) + payload, n) == Some(
            (tag, zero_padded(payload, (n - tag_bytes(tag).len()) as nat)),
        ),
{
    let record = tag_bytes(tag) + payload;
    let k = tag_bytes(tag).len();
    let zeros = Seq::new((n - record.len()) as nat, |i: int| 0u8);
    let padded = zero_padded(record, n);
    assert(padded =~= tag_bytes(tag) + (payload + zeros));
    crate::tag::lemma_tag_roundtrip(tag, payload + zeros);
    assert(padded.subrange(k as int, n as int) =~= zero_padded(payload, (n - k) as nat));
}

/// Zero padding keeps the bytes it pads and fills the rest, up to `n`, with
/// zeros: an appended field absent from an old record reads as zero bytes.
pub proof fn lemma_zero_padded(s: Seq<u8>, n: nat)
    requires
        s.len() <= n,
    ensures
        zero_padded(s, n).len() == n,
        forall|j: int| 0 <= j < s.len() ==> #[trigger] zero_padded(s, n)[j] == s[j],
        forall|j: int| s.len() <= j < n ==> #[trigger] zero_padded(s, n)[j] == 0u8,
{
}

} // verus!
