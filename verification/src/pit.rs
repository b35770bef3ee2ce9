//! The timer programming computation: the divisor that makes the
//! programmable interval timer fire at a requested frequency, and its
//! split into the two bytes written to the timer's data port.

use vstd::prelude::*;

verus! {

/// The programmable interval timer's base frequency in hertz.
pub const PIT_FREQ: u32 = 1193182;

/// The divisor programmed into the timer so that it fires `freq` times
/// a second.
pub fn pit_divisor(freq: u32) -> (d: u32)
    requires
        1 <= freq,
    ensures
        d == PIT_FREQ as int / freq as int,
{
    PIT_FREQ / freq
}

/// The low and high bytes of a divisor, in the order they are written to
/// the timer's data port.
pub fn divisor_bytes(d: u32) -> (r: (u8, u8))
    ensures
        r.0 == d as int % 0x100,
        r.1 == (d as int / 0x100) % 0x100,
{
    ((d % 0x100) as u8, ((d / 0x100) % 0x100) as u8)
}

} // verus!
