//! The speaking rate, a 32-bit float by its bit pattern.

use vstd::prelude::*;

verus! {

/// The bit pattern of 0.5, the slowest rate.
pub const SLOWEST: u32 = 0x3f00_0000;

/// The bit pattern of 3.0, the fastest rate.
pub const FASTEST: u32 = 0x4040_0000;

/// The bit pattern of infinity. Patterns above it, the sign aside, are no
/// numbers.
pub const INFINITE: u32 = 0x7f80_0000;

/// The bit pattern without the sign.
pub open spec fn magnitude(bits: u32) -> int {
    bits as int % 0x8000_0000
}

/// The bit pattern of a number, rather than of "not a number".
pub open spec fn is_number(bits: u32) -> bool {
    magnitude(bits) <= INFINITE
}

/// Where a number stands among all numbers. Magnitudes are ordered as their bit
/// patterns are, negative numbers the other way round, and both zeros are alike.
pub open spec fn rank(bits: u32) -> int {
    if bits >= 0x8000_0000 {
        -magnitude(bits)
    } else {
        magnitude(bits)
    }
}

/// A rate between the slowest and the fastest. What is no number stays as it is.
pub open spec fn clamped(bits: u32) -> u32 {
    if !is_number(bits) {
        bits
    } else if rank(bits) < rank(SLOWEST) {
        SLOWEST
    } else if rank(bits) > rank(FASTEST) {
        FASTEST
    } else {
        bits
    }
}

/// Brings a rate between the slowest and the fastest.
pub fn clamp_speed(bits: u32) -> (r: u32)
    ensures
        r == clamped(bits),
{
    if bits % 0x8000_0000 > INFINITE {
        bits
    } else if bits >= 0x8000_0000 || bits < SLOWEST {
        SLOWEST
    } else if bits > FASTEST {
        FASTEST
    } else {
        bits
    }
}

/// A number comes out between the bounds, and unchanged if it was there. Faster
/// stays faster, or equal.
pub proof fn law_speed_is_bounded(bits: u32, more: u32)
    requires
        is_number(bits),
        is_number(more),
    ensures
        rank(SLOWEST) <= rank(clamped(bits)) <= rank(FASTEST),
        rank(SLOWEST) <= rank(bits) <= rank(FASTEST) ==> clamped(bits) == bits,
        clamped(clamped(bits)) == clamped(bits),
        rank(bits) <= rank(more) ==> rank(clamped(bits)) <= rank(clamped(more)),
{
}

/// What becomes of every rate, by its bit pattern. From 0.5 to 3.0 it stays; what is
/// above, up to infinity, becomes 3.0; what is below, zero and every negative
/// number among it, becomes 0.5; what is no number stays.
pub proof fn law_every_rate_is_brought_between_the_bounds(bits: u32)
    ensures
        0x3f00_0000 <= bits <= 0x4040_0000 ==> clamped(bits) == bits,
        0x4040_0000 < bits <= 0x7f80_0000 ==> clamped(bits) == 0x4040_0000,
        bits < 0x3f00_0000 ==> clamped(bits) == 0x3f00_0000,
        0x8000_0000 <= bits <= 0xff80_0000 ==> clamped(bits) == 0x3f00_0000,
        0x7f80_0000 < bits < 0x8000_0000 || 0xff80_0000 < bits ==> clamped(bits) == bits,
{
}

} // verus!
