//! Small helpers for taking bytes apart into nibbles and putting 12-bit
//! addresses together, shared by the instruction codec and the engine.

use vstd::prelude::*;

verus! {

/// The high and low 4-bit halves of a byte.
pub open spec fn spec_nibbles(byte: u8) -> (u8, u8) {
    ((byte / 16) as u8, (byte % 16) as u8)
}

/// The 12-bit address formed from the low nibble of `byte1` followed by
/// `byte2`.
pub open spec fn spec_addr(byte1: u8, byte2: u8) -> u16 {
    (((byte1 % 16) as u16) * 256 + (byte2 as u16)) as u16
}

/// Split a byte into its high and low nibbles.
pub fn get_nibbles(byte: u8) -> (r: (u8, u8))
    ensures
        r == spec_nibbles(byte),
        r.0 < 16,
        r.1 < 16,
{
    (byte / 16, byte % 16)
}

/// Combine two bytes into a 12-bit address. This drops the high 4 bits of
/// `byte1`.
pub fn make_addr(byte1: u8, byte2: u8) -> (addr: u16)
    ensures
        addr == spec_addr(byte1, byte2),
        addr < 4096,
{
    ((byte1 % 16) as u16) * 256 + (byte2 as u16)
}

/// The framebuffer byte and the bit position within it (7 = most significant)
/// that hold the pixel at column `x` of row `y`, for rows of `row_size`
/// pixels.
pub open spec fn spec_display_bit(x: u8, y: u8, row_size: usize) -> (usize, usize) {
    let bit = row_size * (y as nat) + (x as nat);
    ((bit / 8) as usize, (7 - bit % 8) as usize)
}

/// The (byte, bit) to index into display memory.
pub fn get_display_bit(x: u8, y: u8, row_size: usize) -> (r: (usize, usize))
    requires
        row_size * (y as nat) + (x as nat) <= usize::MAX,
    ensures
        r == spec_display_bit(x, y, row_size),
        r.1 < 8,
{
    let bit: usize = row_size * (y as usize) + (x as usize);
    (bit / 8, 7 - bit % 8)
}

} // verus!
