use embedded_nvm_settings::{
    cmax, frame_payload, read_tag, split_record, varint_max_bytes, write_tag, write_versioned, Error,
    PostcardFormat, VersionChain,
};

// --- "growing" chain: `b` is an append-only `Option` in the wire; `None` -> default 99 ---
#[derive(Clone, Copy, PartialEq, Debug)]
struct Demo {
    a: u16,
    b: i16,
}

impl Default for Demo {
    fn default() -> Self {
        Demo { a: 0, b: 99 }
    }
}

// Wire forms, as postcard sees them: `DemoV0 { a: u16 }` and `DemoWire { a: u16, b: Option<i16> }`.
type DemoV0Wire = (u16,);
type DemoWire = (u16, Option<i16>);

const DEMO_V0_TAG: u16 = 1;
const DEMO_TAG: u16 = 2;

fn demo_chain() -> VersionChain {
    let mut chain = VersionChain::new();
    assert!(chain.push(DEMO_V0_TAG, varint_max_bytes(2)));
    assert!(chain.push(DEMO_TAG, varint_max_bytes(2) + (1 + varint_max_bytes(2))));
    chain
}

fn demo_wire(d: Demo) -> DemoWire {
    (d.a, Some(d.b))
}

/// Decodes the body at the version `locate` found, then migrates it up.
fn decode_demo(steps: usize, body: &[u8]) -> Demo {
    let fmt = PostcardFormat::<32>;
    match steps {
        0 => {
            let w: DemoWire = fmt.deserialize(body).unwrap();
            Demo { a: w.0, b: w.1.unwrap_or(Demo::default().b) }
        }
        1 => {
            let v0: DemoV0Wire = fmt.deserialize(body).unwrap();
            Demo { a: v0.0, ..Demo::default() }
        }
        _ => panic!("no such version"),
    }
}

fn deserialize_demo(record: &[u8]) -> Result<Demo, Error> {
    let mut scratch = [0u8; 32];
    let (steps, start) = demo_chain().locate(record, &mut scratch)?;
    Ok(decode_demo(steps, &scratch[start..]))
}

#[test]
fn round_trips_and_stamps_varint_tag() {
    let d = Demo { a: 300, b: -7 };
    let mut buf = [0u8; 32];
    let n = write_versioned(DEMO_TAG, &demo_wire(d), &mut buf).unwrap();
    assert_eq!(buf[0], 2); // varint tag 2, single byte
    assert_eq!(deserialize_demo(&buf[..n]).unwrap(), d);
}

#[test]
fn append_absent_field_normalizes_via_none() {
    // A record written before `b` was appended: tag + just the leading `a` (no Option tag byte).
    let mut buf = [0u8; 32];
    let n = write_versioned(DEMO_TAG, &(5u16,), &mut buf).unwrap();
    let out = deserialize_demo(&buf[..n]).unwrap();
    assert_eq!(out.a, 5);
    assert_eq!(out.b, 99); // absent -> None (from the zero pad) -> default 99
}

#[test]
fn stored_zero_is_not_a_sentinel() {
    let d = Demo { a: 1, b: 0 };
    let mut buf = [0u8; 32];
    let n = write_versioned(DEMO_TAG, &demo_wire(d), &mut buf).unwrap();
    assert_eq!(deserialize_demo(&buf[..n]).unwrap().b, 0);
}

#[test]
fn migrates_from_oldest() {
    let mut buf = [0u8; 32];
    let n = write_versioned(DEMO_V0_TAG, &(7u16,), &mut buf).unwrap();
    assert_eq!(deserialize_demo(&buf[..n]).unwrap(), Demo { a: 7, b: 99 });
}

#[test]
fn unknown_tag_is_corrupt() {
    let mut buf = [0u8; 32];
    let n = write_versioned(9, &(1u16,), &mut buf).unwrap();
    assert_eq!(deserialize_demo(&buf[..n]), Err(Error::Corrupt));
}

#[test]
fn record_max_folds_to_the_larger_prev_and_it_decodes() {
    // Latest `Small { a: u32 }` is smaller than its prev `BigV0 { a, b, c: u32 }`.
    let small_size = varint_max_bytes(4);
    let big_size = 3 * varint_max_bytes(4);
    assert!(small_size < big_size);

    let mut big_only = VersionChain::new();
    assert!(big_only.push(1, big_size));
    let mut chain = VersionChain::new();
    assert!(chain.push(1, big_size));
    assert!(chain.push(2, small_size));
    assert_eq!(chain.record_max(), big_only.record_max());
    assert_eq!(chain.record_max(), 15 + 3);

    let mut buf = [0u8; 32];
    let n = write_versioned(1, &(111u32, 222u32, 333u32), &mut buf).unwrap();
    let mut scratch = [0u8; 32];
    let (steps, start) = chain.locate(&buf[..n], &mut scratch).unwrap();
    assert_eq!(steps, 1);
    let big: (u32, u32, u32) = PostcardFormat::<32>.deserialize(&scratch[start..]).unwrap();
    let small_a = big.1; // the migration keeps `b` as the new `a`
    assert_eq!(small_a, 222);
}

// --- the library's own pieces ---

#[test]
fn varint_max_bytes_matches_postcard_bounds() {
    assert_eq!(varint_max_bytes(1), 2);
    assert_eq!(varint_max_bytes(2), 3);
    assert_eq!(varint_max_bytes(4), 5);
    assert_eq!(varint_max_bytes(8), 10);
    assert_eq!(varint_max_bytes(16), 19);
    assert_eq!(varint_max_bytes(0), 0);
}

#[test]
fn cmax_picks_the_larger() {
    assert_eq!(cmax(3, 7), 7);
    assert_eq!(cmax(7, 3), 7);
    assert_eq!(cmax(4, 4), 4);
}

#[test]
fn write_tag_agrees_with_postcard() {
    for tag in [0u16, 1, 0x7F, 0x80, 300, 0x3FFF, 0x4000, 0xFFFF] {
        let mut ours = [0xEEu8; 4];
        let n = write_tag(tag, &mut ours).unwrap();
        let mut theirs = [0xEEu8; 4];
        let m = postcard::to_slice(&tag, &mut theirs).unwrap().len();
        assert_eq!(n, m);
        assert_eq!(ours, theirs);
        assert_eq!(read_tag(&ours[..n]), Some((tag, n)));
    }
}

#[test]
fn write_tag_short_buffer_leaves_it_unchanged() {
    let mut buf = [0x11u8; 2];
    assert_eq!(write_tag(0x4000, &mut buf), None);
    assert_eq!(buf, [0x11, 0x11]);
    let mut empty: [u8; 0] = [];
    assert_eq!(write_tag(0, &mut empty), None);
}

#[test]
fn read_tag_rejects_bad_varints() {
    assert_eq!(read_tag(&[]), None);
    assert_eq!(read_tag(&[0x80]), None);
    assert_eq!(read_tag(&[0x80, 0x80, 0x04]), None); // overflows 16 bits
    assert_eq!(read_tag(&[0x80, 0x80, 0x80, 0x00]), None); // no end within three bytes
    assert_eq!(read_tag(&[0xFF, 0xFF, 0x03, 0x09]), Some((0xFFFF, 3)));
    assert_eq!(read_tag(&[0x80, 0x00]), Some((0, 2)));
}

#[test]
fn frame_payload_tag_too_large_for_buffer() {
    let mut buf = [0x55u8; 1];
    assert_eq!(frame_payload(300, &[1], &mut buf), Err(Error::BufferTooSmall));
    assert_eq!(buf, [0x55]);
    let mut buf = [0x55u8; 2];
    assert_eq!(frame_payload(300, &[1], &mut buf), Err(Error::BufferTooSmall));
    assert_eq!(buf, [0x55, 0x55]); // nothing written when the payload does not fit
    let mut buf = [0x55u8; 4];
    assert_eq!(frame_payload(300, &[1], &mut buf), Ok(3));
    assert_eq!(buf, [0xAC, 0x02, 0x01, 0x55]);
}

#[test]
fn split_record_pads_with_zeros() {
    let mut scratch = [0xEEu8; 6];
    let (tag, start) = split_record(&[0xAC, 0x02, 0x07], &mut scratch).unwrap();
    assert_eq!(tag, 300);
    assert_eq!(&scratch[start..], &[0x07, 0, 0, 0]);
}

#[test]
fn split_record_longer_than_scratch_is_corrupt() {
    let mut scratch = [0xEEu8; 2];
    assert_eq!(split_record(&[1, 2, 3], &mut scratch), Err(Error::Corrupt));
    assert_eq!(scratch, [0xEE, 0xEE]);
    let mut scratch = [0u8; 4];
    assert_eq!(split_record(&[0xFF, 0xFF, 0xFF], &mut scratch), Err(Error::Corrupt));
}

#[test]
fn empty_record_reads_tag_zero_which_is_never_a_version() {
    // The scratch is all zeros: tag 0, the base, which no version carries.
    let mut scratch = [0xEEu8; 4];
    assert_eq!(split_record(&[], &mut scratch), Ok((0, 1)));
    assert_eq!(scratch, [0, 0, 0, 0]);
    assert_eq!(demo_chain().locate(&[], &mut scratch), Err(Error::Corrupt));
    assert_eq!(demo_chain().resolve(0), Err(Error::Corrupt));
}

#[test]
fn chain_push_refuses_non_increasing_tags() {
    let mut chain = VersionChain::new();
    assert!(!chain.push(0, 1)); // 0 is the base's tag
    assert!(chain.push(5, 1));
    assert!(!chain.push(5, 1));
    assert!(!chain.push(4, 1));
    assert!(!chain.push(6, usize::MAX - 2));
    assert!(chain.push(6, usize::MAX - 3));
    assert_eq!(chain.len(), 2);
    assert_eq!(chain.record_max(), usize::MAX);
}

#[test]
fn resolve_counts_steps_from_the_latest() {
    let mut chain = VersionChain::new();
    assert!(chain.push(1, 2));
    assert!(chain.push(3, 9));
    assert!(chain.push(7, 4));
    assert_eq!(chain.resolve(7), Ok(0));
    assert_eq!(chain.resolve(3), Ok(1));
    assert_eq!(chain.resolve(1), Ok(2));
    assert_eq!(chain.resolve(2), Err(Error::Corrupt));
    assert_eq!(chain.record_max(), 12);
    assert_eq!(VersionChain::new().record_max(), 0);
}

#[test]
fn versioned_roundtrip_at_every_version() {
    let chain = demo_chain();
    for (tag, steps) in [(DEMO_TAG, 0usize), (DEMO_V0_TAG, 1usize)] {
        let mut buf = [0u8; 32];
        let n = write_versioned(tag, &(42u16,), &mut buf).unwrap();
        let mut scratch = [0xEEu8; 32];
        let (found, start) = chain.locate(&buf[..n], &mut scratch).unwrap();
        let body = &scratch[start..];
        assert_eq!(found, steps);
        assert_eq!(body.len(), 32 - 1);
        assert_eq!(body[0], 42);
        assert!(body[1..].iter().all(|b| *b == 0));
    }
}

#[test]
fn write_versioned_frames_the_postcard_payload() {
    let wire: (u16, Option<i16>) = (300, Some(-7));
    let mut payload = [0u8; 16];
    let m = PostcardFormat::<16>.serialize(&wire, &mut payload).unwrap();
    let mut framed = [0x55u8; 16];
    let n = frame_payload(2, &payload[..m], &mut framed).unwrap();
    let mut written = [0x55u8; 16];
    assert_eq!(write_versioned(2, &wire, &mut written), Ok(n));
    assert_eq!(written, framed);
}

#[test]
fn write_versioned_errors_are_buffer_too_small() {
    let mut empty: [u8; 0] = [];
    assert_eq!(write_versioned(1, &(5u16,), &mut empty), Err(Error::BufferTooSmall));
    let mut one = [0u8; 1];
    assert_eq!(write_versioned(1, &(300u16,), &mut one), Err(Error::BufferTooSmall));
    assert_eq!(one, [1]); // the tag went in before the payload did not fit
}
