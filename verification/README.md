# embedded-nvm-settings

Cached persistent settings for embedded systems, with versioned, migratable
postcard records, written in Verus.

- `src/` is the verified library:
  - `sizing`: varint size bounds and the `cmax` used to fold record sizes.
  - `tag`: the varint framing of a `u16` version tag, checked against postcard's reader.
  - `record`: `write_versioned`, `frame_payload` and `split_record`, the `[ varint tag ][ payload ]` records,
    split in a caller's scratch buffer.
  - `chain`: `VersionChain`, the versions of a schema, oldest first, with tag resolution,
    the record maximum and the read-back laws.
  - `cache`: `Cached`, the in-memory value with its dirty flag, and the load and commit steps.
  - `format`: `PostcardFormat` (its two methods are the trusted calls into postcard's
    `to_slice` and `from_bytes`), `PostcardVersionedFormat`, `WireSize`, `WireFixed`.
  - `postcard_api`: the trusted call into postcard's reader of a `u16` varint.
- `app/` holds the async settings object, the storage backends and the serde-facing
  `Version` trait, which drive the library.
- `tests/` exercise the library on concrete values.
