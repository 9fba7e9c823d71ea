use vstd::prelude::*;

use crate::record::Error;

verus! {

/// Maximum postcard-serialized size of a wire payload (excludes the record
/// tag). It is the `wire_size` of a version in a `VersionChain`.
pub trait WireSize {
    /// Max serialized size of this wire type's payload.
    const SIZE: usize;
}

/// Transparent newtype for a fixed-point (or other inner-integer) field of a
/// wire struct, serialized exactly as its inner value.
pub struct WireFixed<F>(pub F);

/// Settings format using plain postcard. `BUF_SIZE` is the record buffer
/// size, chosen by the caller since postcard has no compile-time size bound.
///
/// Zero-sized: carries no runtime state.
pub struct PostcardFormat<const BUF_SIZE: usize>;

impl<const BUF_SIZE: usize> PostcardFormat<BUF_SIZE> {
    /// Serializes `value` into the front of `buf` with `postcard::to_slice`,
    /// returning the number of bytes written; `BufferTooSmall` for any error
    /// postcard reports.
    ///
    /// Trusted: the contract states that the buffer keeps its length and that,
    /// on success, the bytes used are a prefix of `buf`, so nothing past them
    /// was touched. Which bytes postcard writes, and whether they fit, depend
    /// on the `Serialize` impl of `T`, which nothing here can name, so the
    /// contract does not say; on failure it does not say how much of `buf` was
    /// written.
    #[verifier::external_body]
    pub fn serialize<T: serde::Serialize>(&self, value: &T, buf: &mut [u8]) -> (r: Result<usize, Error>)
        ensures
            final(buf)@.len() == old(buf)@.len(),
            r matches Err(e) ==> e == Error::BufferTooSmall,
            r matches Ok(n) ==> n <= old(buf)@.len() && final(buf)@.subrange(
                n as int,
                old(buf)@.len() as int,
            ) == old(buf)@.subrange(n as int, old(buf)@.len() as int),
    {
        match postcard::to_slice(value, buf) {
            Ok(used) => Ok(used.len()),
            Err(_) => Err(Error::BufferTooSmall),
        }
    }

    /// Deserializes a value from `record` with `postcard::from_bytes`;
    /// `Corrupt` for any error postcard reports.
    ///
    /// Trusted: the contract states only that every failure is `Corrupt`;
    /// whether decoding succeeds and what it returns depend on the
    /// `Deserialize` impl of `T`, which nothing here can name.
    #[verifier::external_body]
    pub fn deserialize<T: serde::de::DeserializeOwned>(&self, record: &[u8]) -> (r: Result<T, Error>)
        ensures
            r matches Err(e) ==> e == Error::Corrupt,
    {
        match postcard::from_bytes(record) {
            Ok(value) => Ok(value),
            Err(_) => Err(Error::Corrupt),
        }
    }
}

/// Settings format using versioned, migratable postcard records. Set
/// `BUF_SIZE` to the chain's record maximum plus one: it is the scratch that a
/// stored record is zero-padded into before decoding.
///
/// Zero-sized: carries no runtime state.
pub struct PostcardVersionedFormat<const BUF_SIZE: usize>;

} // verus!
