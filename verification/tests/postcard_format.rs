use embedded_nvm_settings::{Error, PostcardFormat};

#[derive(Debug, Clone, Copy, Default, PartialEq)]
struct TestSettings {
    a: u32,
    b: u16,
}

// postcard encodes a struct as the tuple of its fields.
impl serde::Serialize for TestSettings {
    fn serialize<S: serde::Serializer>(&self, serializer: S) -> Result<S::Ok, S::Error> {
        serde::Serialize::serialize(&(self.a, self.b), serializer)
    }
}

impl<'de> serde::Deserialize<'de> for TestSettings {
    fn deserialize<D: serde::Deserializer<'de>>(deserializer: D) -> Result<Self, D::Error> {
        let (a, b) = <(u32, u16) as serde::Deserialize>::deserialize(deserializer)?;
        Ok(TestSettings { a, b })
    }
}

type Format = PostcardFormat<64>;

fn fmt() -> Format {
    PostcardFormat
}

#[test]
fn plain_postcard_roundtrip() {
    let value = TestSettings {
        a: 0xDEAD,
        b: 0xBEEF,
    };
    let mut buf = [0u8; 64];
    let n = fmt().serialize(&value, &mut buf).unwrap();
    let decoded = fmt().deserialize(&buf[..n]);
    assert_eq!(decoded, Ok(value));
}

#[test]
fn plain_postcard_corrupt_returns_err() {
    let decoded: Result<TestSettings, _> = fmt().deserialize(&[0xFF; 64]);
    assert!(decoded.is_err());
}

#[test]
fn postcard_format_writes_the_postcard_bytes() {
    let value = TestSettings { a: 300, b: 5 };
    let mut buf = [0xAAu8; 8];
    let n = fmt().serialize(&value, &mut buf).unwrap();
    // 300 = varint [0xAC, 0x02], 5 = [0x05]; the rest of the buffer is untouched.
    assert_eq!(n, 3);
    assert_eq!(buf, [0xAC, 0x02, 0x05, 0xAA, 0xAA, 0xAA, 0xAA, 0xAA]);
}

#[test]
fn postcard_format_full_buffer_is_buffer_too_small() {
    let value = TestSettings { a: 0xFFFF_FFFF, b: 0xFFFF };
    let mut buf = [0u8; 4];
    assert_eq!(fmt().serialize(&value, &mut buf), Err(Error::BufferTooSmall));
}

#[test]
fn postcard_format_short_record_is_corrupt() {
    let decoded: Result<TestSettings, _> = fmt().deserialize(&[0x80]);
    assert_eq!(decoded, Err(Error::Corrupt));
}
