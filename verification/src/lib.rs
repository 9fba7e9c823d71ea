//! Cached persistent settings and versioned, migratable record framing.
//!
//! The library is split into the parts that decide: the size arithmetic of
//! records, the varint framing of a version tag in front of a payload, the
//! walk down a chain of schema versions, the in-memory settings cache with its
//! dirty flag, and the settings formats.

mod cache;
mod chain;
mod format;
mod postcard_api;
mod record;
mod sizing;
mod tag;

pub use cache::{decode_stored, encode_snapshot, CacheCall, Cached, CommitError, LoadError};
pub use chain::{VersionChain, VersionEntry};
pub use format::{PostcardFormat, PostcardVersionedFormat, WireFixed, WireSize};
pub use record::{frame_payload, split_record, write_versioned, Error};
pub use sizing::{cmax, varint_max_bytes};
pub use tag::{read_tag, write_tag};
