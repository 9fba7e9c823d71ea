use vstd::prelude::*;

verus! {

/// Number of bytes that a postcard varint of an integer `int_bytes` wide can
/// take at most: seven payload bits per byte, rounded up.
pub open spec fn spec_varint_max_bytes(int_bytes: int) -> int {
    (int_bytes * 8 + 6) / 7
}

/// The larger of two sizes.
pub open spec fn spec_cmax(a: int, b: int) -> int {
    if a > b {
        a
    } else {
        b
    }
}

/// Max bytes for a postcard varint of an integer that is `int_bytes` wide.
pub fn varint_max_bytes(int_bytes: usize) -> (r: usize)
    requires
        int_bytes * 8 + 6 <= usize::MAX,
    ensures
        r == spec_varint_max_bytes(int_bytes as int),
{
    (int_bytes * 8 + 6) / 7
}

/// The larger of `a` and `b`.
pub fn cmax(a: usize, b: usize) -> (r: usize)
    ensures
        r == spec_cmax(a as int, b as int),
{
    if a > b {
        a
    } else {
        b
    }
}

} // verus!
