//! The instruction set: a closed tagged union over the machine's operations
//! and the total, pure mapping between instructions and their fixed 2-byte
//! encoding.
//!
//! Every 16-bit pattern decodes to exactly one `Instruction`; patterns outside
//! the documented layout decode to the `Unknown` sentinel, which is never
//! executable and never produced by the assembler.

use vstd::prelude::*;

use crate::bit_manipulation::spec_addr;
use crate::bit_manipulation::spec_nibbles;

verus! {

/// One machine instruction. Operand fields:
/// `x`, `y` are register indices (0-15), `byte` an 8-bit immediate,
/// `addr` a 12-bit address, `nibble` a 4-bit sprite height.
#[derive(Debug, Clone, Copy, PartialEq, Eq, Structural)]
pub enum Instruction {
    ClearDisplay,
    Return,
    Exit,
    Jump { addr: u16 },
    Call { addr: u16 },
    SkipRegEqualsImm { x: u8, byte: u8 },
    SkipRegNotEqualsImm { x: u8, byte: u8 },
    SkipRegEqualsReg { x: u8, y: u8 },
    LoadImmToReg { x: u8, byte: u8 },
    AddImmToReg { x: u8, byte: u8 },
    LoadRegToReg { x: u8, y: u8 },
    OrReg { x: u8, y: u8 },
    AndReg { x: u8, y: u8 },
    XorReg { x: u8, y: u8 },
    AddReg { x: u8, y: u8 },
    SubReg { x: u8, y: u8 },
    ShiftRight { x: u8 },
    SubNegReg { x: u8, y: u8 },
    ShiftLeft { x: u8 },
    SkipRegNotEqualsReg { x: u8, y: u8 },
    LoadImmToPointer { addr: u16 },
    JumpOffset { addr: u16 },
    Random { x: u8, byte: u8 },
    Draw { x: u8, y: u8, nibble: u8 },
    SkipKeyPressed { x: u8 },
    SkipNotKeyPressed { x: u8 },
    LoadDelayTimerToReg { x: u8 },
    LoadNextKeyPress { x: u8 },
    LoadRegToDelayTimer { x: u8 },
    LoadRegToSoundTimer { x: u8 },
    AddRegToPointer { x: u8 },
    LoadDigitSpriteToPointer { x: u8 },
    LoadDecimalDigitsToPointer { x: u8 },
    WriteRegToPointer { x: u8 },
    ReadRegFromPointer { x: u8 },
    /// An unrecognized bit pattern, kept verbatim for diagnostics.
    /// Decode-time sentinel only: executing it is a fatal engine error.
    Unknown { byte1: u8, byte2: u8 },
}

/// Every operand field lies within the range its encoding slot can carry.
pub open spec fn wf_instruction(i: Instruction) -> bool {
    match i {
        Instruction::ClearDisplay => true,
        Instruction::Return => true,
        Instruction::Exit => true,
        Instruction::Jump { addr } => addr < 4096,
        Instruction::Call { addr } => addr < 4096,
        Instruction::SkipRegEqualsImm { x, byte } => x < 16,
        Instruction::SkipRegNotEqualsImm { x, byte } => x < 16,
        Instruction::SkipRegEqualsReg { x, y } => x < 16 && y < 16,
        Instruction::LoadImmToReg { x, byte } => x < 16,
        Instruction::AddImmToReg { x, byte } => x < 16,
        Instruction::LoadRegToReg { x, y } => x < 16 && y < 16,
        Instruction::OrReg { x, y } => x < 16 && y < 16,
        Instruction::AndReg { x, y } => x < 16 && y < 16,
        Instruction::XorReg { x, y } => x < 16 && y < 16,
        Instruction::AddReg { x, y } => x < 16 && y < 16,
        Instruction::SubReg { x, y } => x < 16 && y < 16,
        Instruction::ShiftRight { x } => x < 16,
        Instruction::SubNegReg { x, y } => x < 16 && y < 16,
        Instruction::ShiftLeft { x } => x < 16,
        Instruction::SkipRegNotEqualsReg { x, y } => x < 16 && y < 16,
        Instruction::LoadImmToPointer { addr } => addr < 4096,
        Instruction::JumpOffset { addr } => addr < 4096,
        Instruction::Random { x, byte } => x < 16,
        Instruction::Draw { x, y, nibble } => x < 16 && y < 16 && nibble < 16,
        Instruction::SkipKeyPressed { x } => x < 16,
        Instruction::SkipNotKeyPressed { x } => x < 16,
        Instruction::LoadDelayTimerToReg { x } => x < 16,
        Instruction::LoadNextKeyPress { x } => x < 16,
        Instruction::LoadRegToDelayTimer { x } => x < 16,
        Instruction::LoadRegToSoundTimer { x } => x < 16,
        Instruction::AddRegToPointer { x } => x < 16,
        Instruction::LoadDigitSpriteToPointer { x } => x < 16,
        Instruction::LoadDecimalDigitsToPointer { x } => x < 16,
        Instruction::WriteRegToPointer { x } => x < 16,
        Instruction::ReadRegFromPointer { x } => x < 16,
        Instruction::Unknown { byte1, byte2 } => true,
    }
}

/// The instruction denoted by the two bytes, per the fixed nibble layout:
/// the top nibble selects the family, the remaining nibbles carry register
/// indices, an immediate byte, a 12-bit address or a sprite-height nibble.
pub open spec fn spec_decode(byte1: u8, byte2: u8) -> Instruction {
    let x = spec_nibbles(byte1).1;
    let y = spec_nibbles(byte2).0;
    let n = spec_nibbles(byte2).1;
    let addr = spec_addr(byte1, byte2);
    match spec_nibbles(byte1).0 {
        0x0u8 => if byte2 == 0xE0 {
            Instruction::ClearDisplay
        } else if byte2 == 0xEE {
            Instruction::Return
        } else if byte2 == 0xFD {
            Instruction::Exit
        } else {
            Instruction::Unknown { byte1, byte2 }
        },
        0x1u8 => Instruction::Jump { addr },
        0x2u8 => Instruction::Call { addr },
        0x3u8 => Instruction::SkipRegEqualsImm { x, byte: byte2 },
        0x4u8 => Instruction::SkipRegNotEqualsImm { x, byte: byte2 },
        0x5u8 => if n == 0 {
            Instruction::SkipRegEqualsReg { x, y }
        } else {
            Instruction::Unknown { byte1, byte2 }
        },
        0x6u8 => Instruction::LoadImmToReg { x, byte: byte2 },
        0x7u8 => Instruction::AddImmToReg { x, byte: byte2 },
        0x8u8 => match n {
            0x0u8 => Instruction::LoadRegToReg { x, y },
            0x1u8 => Instruction::OrReg { x, y },
            0x2u8 => Instruction::AndReg { x, y },
            0x3u8 => Instruction::XorReg { x, y },
            0x4u8 => Instruction::AddReg { x, y },
            0x5u8 => Instruction::SubReg { x, y },
            0x6u8 => Instruction::ShiftRight { x },
            0x7u8 => Instruction::SubNegReg { x, y },
            0xEu8 => Instruction::ShiftLeft { x },
            _ => Instruction::Unknown { byte1, byte2 },
        },
        0x9u8 => if n == 0 {
            Instruction::SkipRegNotEqualsReg { x, y }
        } else {
            Instruction::Unknown { byte1, byte2 }
        },
        0xAu8 => Instruction::LoadImmToPointer { addr },
        0xBu8 => Instruction::JumpOffset { addr },
        0xCu8 => Instruction::Random { x, byte: byte2 },
        0xDu8 => Instruction::Draw { x, y, nibble: n },
        0xEu8 => if byte2 == 0x9E {
            Instruction::SkipKeyPressed { x }
        } else if byte2 == 0xA1 {
            Instruction::SkipNotKeyPressed { x }
        } else {
            Instruction::Unknown { byte1, byte2 }
        },
        _ => match byte2 {
            0x07u8 => Instruction::LoadDelayTimerToReg { x },
            0x0Au8 => Instruction::LoadNextKeyPress { x },
            0x15u8 => Instruction::LoadRegToDelayTimer { x },
            0x18u8 => Instruction::LoadRegToSoundTimer { x },
            0x1Eu8 => Instruction::AddRegToPointer { x },
            0x29u8 => Instruction::LoadDigitSpriteToPointer { x },
            0x33u8 => Instruction::LoadDecimalDigitsToPointer { x },
            0x55u8 => Instruction::WriteRegToPointer { x },
            0x65u8 => Instruction::ReadRegFromPointer { x },
            _ => Instruction::Unknown { byte1, byte2 },
        },
    }
}

/// The 2-byte encoding of a well-formed instruction. `Unknown` reproduces its
/// raw bytes, purely for diagnostics.
pub open spec fn spec_encode(i: Instruction) -> (u8, u8) {
    match i {
        Instruction::ClearDisplay => (0x00u8, 0xE0u8),
        Instruction::Return => (0x00u8, 0xEEu8),
        Instruction::Exit => (0x00u8, 0xFDu8),
        Instruction::Jump { addr } => (
            (0x10 + addr / 256) as u8,
            (addr % 256) as u8,
        ),
        Instruction::Call { addr } => (
            (0x20 + addr / 256) as u8,
            (addr % 256) as u8,
        ),
        Instruction::SkipRegEqualsImm { x, byte } => ((0x30 + x) as u8, byte),
        Instruction::SkipRegNotEqualsImm { x, byte } => ((0x40 + x) as u8, byte),
        Instruction::SkipRegEqualsReg { x, y } => ((0x50 + x) as u8, (y * 16) as u8),
        Instruction::LoadImmToReg { x, byte } => ((0x60 + x) as u8, byte),
        Instruction::AddImmToReg { x, byte } => ((0x70 + x) as u8, byte),
        Instruction::LoadRegToReg { x, y } => ((0x80 + x) as u8, (y * 16) as u8),
        Instruction::OrReg { x, y } => ((0x80 + x) as u8, (y * 16 + 0x1) as u8),
        Instruction::AndReg { x, y } => ((0x80 + x) as u8, (y * 16 + 0x2) as u8),
        Instruction::XorReg { x, y } => ((0x80 + x) as u8, (y * 16 + 0x3) as u8),
        Instruction::AddReg { x, y } => ((0x80 + x) as u8, (y * 16 + 0x4) as u8),
        Instruction::SubReg { x, y } => ((0x80 + x) as u8, (y * 16 + 0x5) as u8),
        Instruction::ShiftRight { x } => ((0x80 + x) as u8, 0x06u8),
        Instruction::SubNegReg { x, y } => ((0x80 + x) as u8, (y * 16 + 0x7) as u8),
        Instruction::ShiftLeft { x } => ((0x80 + x) as u8, 0x0Eu8),
        Instruction::SkipRegNotEqualsReg { x, y } => ((0x90 + x) as u8, (y * 16) as u8),
        Instruction::LoadImmToPointer { addr } => (
            (0xA0 + addr / 256) as u8,
            (addr % 256) as u8,
        ),
        Instruction::JumpOffset { addr } => (
            (0xB0 + addr / 256) as u8,
            (addr % 256) as u8,
        ),
        Instruction::Random { x, byte } => ((0xC0 + x) as u8, byte),
        Instruction::Draw { x, y, nibble } => ((0xD0 + x) as u8, (y * 16 + nibble) as u8),
        Instruction::SkipKeyPressed { x } => ((0xE0 + x) as u8, 0x9Eu8),
        Instruction::SkipNotKeyPressed { x } => ((0xE0 + x) as u8, 0xA1u8),
        Instruction::LoadDelayTimerToReg { x } => ((0xF0 + x) as u8, 0x07u8),
        Instruction::LoadNextKeyPress { x } => ((0xF0 + x) as u8, 0x0Au8),
        Instruction::LoadRegToDelayTimer { x } => ((0xF0 + x) as u8, 0x15u8),
        Instruction::LoadRegToSoundTimer { x } => ((0xF0 + x) as u8, 0x18u8),
        Instruction::AddRegToPointer { x } => ((0xF0 + x) as u8, 0x1Eu8),
        Instruction::LoadDigitSpriteToPointer { x } => ((0xF0 + x) as u8, 0x29u8),
        Instruction::LoadDecimalDigitsToPointer { x } => ((0xF0 + x) as u8, 0x33u8),
        Instruction::WriteRegToPointer { x } => ((0xF0 + x) as u8, 0x55u8),
        Instruction::ReadRegFromPointer { x } => ((0xF0 + x) as u8, 0x65u8),
        Instruction::Unknown { byte1, byte2 } => (byte1, byte2),
    }
}

/// Decode two bytes into an instruction. Total: every byte pair yields a
/// value, with unrecognized patterns mapped to `Unknown`.
pub fn decode_instruction(byte1: u8, byte2: u8) -> (r: Instruction)
    ensures
        r == spec_decode(byte1, byte2),
        wf_instruction(r),
{
    let x = byte1 % 16;
    let y = byte2 / 16;
    let n = byte2 % 16;
    let addr = crate::bit_manipulation::make_addr(byte1, byte2);
    match byte1 / 16 {
        0x0 => if byte2 == 0xE0 {
            Instruction::ClearDisplay
        } else if byte2 == 0xEE {
            Instruction::Return
        } else if byte2 == 0xFD {
            Instruction::Exit
        } else {
            Instruction::Unknown { byte1, byte2 }
        },
        0x1 => Instruction::Jump { addr },
        0x2 => Instruction::Call { addr },
        0x3 => Instruction::SkipRegEqualsImm { x, byte: byte2 },
        0x4 => Instruction::SkipRegNotEqualsImm { x, byte: byte2 },
        0x5 => if n == 0 {
            Instruction::SkipRegEqualsReg { x, y }
        } else {
            Instruction::Unknown { byte1, byte2 }
        },
        0x6 => Instruction::LoadImmToReg { x, byte: byte2 },
        0x7 => Instruction::AddImmToReg { x, byte: byte2 },
        0x8 => match n {
            0x0 => Instruction::LoadRegToReg { x, y },
            0x1 => Instruction::OrReg { x, y },
            0x2 => Instruction::AndReg { x, y },
            0x3 => Instruction::XorReg { x, y },
            0x4 => Instruction::AddReg { x, y },
            0x5 => Instruction::SubReg { x, y },
            0x6 => Instruction::ShiftRight { x },
            0x7 => Instruction::SubNegReg { x, y },
            0xE => Instruction::ShiftLeft { x },
            _ => Instruction::Unknown { byte1, byte2 },
        },
        0x9 => if n == 0 {
            Instruction::SkipRegNotEqualsReg { x, y }
        } else {
            Instruction::Unknown { byte1, byte2 }
        },
        0xA => Instruction::LoadImmToPointer { addr },
        0xB => Instruction::JumpOffset { addr },
        0xC => Instruction::Random { x, byte: byte2 },
        0xD => Instruction::Draw { x, y, nibble: n },
        0xE => if byte2 == 0x9E {
            Instruction::SkipKeyPressed { x }
        } else if byte2 == 0xA1 {
            Instruction::SkipNotKeyPressed { x }
        } else {
            Instruction::Unknown { byte1, byte2 }
        },
        _ => match byte2 {
            0x07 => Instruction::LoadDelayTimerToReg { x },
            0x0A => Instruction::LoadNextKeyPress { x },
            0x15 => Instruction::LoadRegToDelayTimer { x },
            0x18 => Instruction::LoadRegToSoundTimer { x },
            0x1E => Instruction::AddRegToPointer { x },
            0x29 => Instruction::LoadDigitSpriteToPointer { x },
            0x33 => Instruction::LoadDecimalDigitsToPointer { x },
            0x55 => Instruction::WriteRegToPointer { x },
            0x65 => Instruction::ReadRegFromPointer { x },
            _ => Instruction::Unknown { byte1, byte2 },
        },
    }
}

/// Encode a well-formed instruction into its two bytes.
pub fn encode_instruction(i: &Instruction) -> (r: (u8, u8))
    requires
        wf_instruction(*i),
    ensures
        r == spec_encode(*i),
{
    match *i {
        Instruction::ClearDisplay => (0x00, 0xE0),
        Instruction::Return => (0x00, 0xEE),
        Instruction::Exit => (0x00, 0xFD),
        Instruction::Jump { addr } => (0x10 + (addr / 256) as u8, (addr % 256) as u8),
        Instruction::Call { addr } => (0x20 + (addr / 256) as u8, (addr % 256) as u8),
        Instruction::SkipRegEqualsImm { x, byte } => (0x30 + x, byte),
        Instruction::SkipRegNotEqualsImm { x, byte } => (0x40 + x, byte),
        Instruction::SkipRegEqualsReg { x, y } => (0x50 + x, y * 16),
        Instruction::LoadImmToReg { x, byte } => (0x60 + x, byte),
        Instruction::AddImmToReg { x, byte } => (0x70 + x, byte),
        Instruction::LoadRegToReg { x, y } => (0x80 + x, y * 16),
        Instruction::OrReg { x, y } => (0x80 + x, y * 16 + 0x1),
        Instruction::AndReg { x, y } => (0x80 + x, y * 16 + 0x2),
        Instruction::XorReg { x, y } => (0x80 + x, y * 16 + 0x3),
        Instruction::AddReg { x, y } => (0x80 + x, y * 16 + 0x4),
        Instruction::SubReg { x, y } => (0x80 + x, y * 16 + 0x5),
        Instruction::ShiftRight { x } => (0x80 + x, 0x06),
        Instruction::SubNegReg { x, y } => (0x80 + x, y * 16 + 0x7),
        Instruction::ShiftLeft { x } => (0x80 + x, 0x0E),
        Instruction::SkipRegNotEqualsReg { x, y } => (0x90 + x, y * 16),
        Instruction::LoadImmToPointer { addr } => (0xA0 + (addr / 256) as u8, (addr % 256) as u8),
        Instruction::JumpOffset { addr } => (0xB0 + (addr / 256) as u8, (addr % 256) as u8),
        Instruction::Random { x, byte } => (0xC0 + x, byte),
        Instruction::Draw { x, y, nibble } => (0xD0 + x, y * 16 + nibble),
        Instruction::SkipKeyPressed { x } => (0xE0 + x, 0x9E),
        Instruction::SkipNotKeyPressed { x } => (0xE0 + x, 0xA1),
        Instruction::LoadDelayTimerToReg { x } => (0xF0 + x, 0x07),
        Instruction::LoadNextKeyPress { x } => (0xF0 + x, 0x0A),
        Instruction::LoadRegToDelayTimer { x } => (0xF0 + x, 0x15),
        Instruction::LoadRegToSoundTimer { x } => (0xF0 + x, 0x18),
        Instruction::AddRegToPointer { x } => (0xF0 + x, 0x1E),
        Instruction::LoadDigitSpriteToPointer { x } => (0xF0 + x, 0x29),
        Instruction::LoadDecimalDigitsToPointer { x } => (0xF0 + x, 0x33),
        Instruction::WriteRegToPointer { x } => (0xF0 + x, 0x55),
        Instruction::ReadRegFromPointer { x } => (0xF0 + x, 0x65),
        Instruction::Unknown { byte1, byte2 } => (byte1, byte2),
    }
}

/// Splitting `16 * hi + lo` back into nibbles recovers `hi` and `lo`.
proof fn lemma_pack_nibbles(hi: u8, lo: u8)
    requires
        hi < 16,
        lo < 16,
    ensures
        spec_nibbles((16 * hi + lo) as u8).0 == hi,
        spec_nibbles((16 * hi + lo) as u8).1 == lo,
{
    let b = (16 * hi + lo) as u8;
    vstd::arithmetic::div_mod::lemma_fundamental_div_mod_converse(
        b as int,
        16,
        hi as int,
        lo as int,
    );
}

/// Packing a 12-bit address into a low nibble and a byte and reading it back
/// recovers the address.
proof fn lemma_pack_addr(family: u8, addr: u16)
    requires
        family < 16,
        addr < 4096,
    ensures
        spec_nibbles((16 * family + addr / 256) as u8).0 == family,
        spec_addr((16 * family + addr / 256) as u8, (addr % 256) as u8) == addr,
{
    vstd::arithmetic::div_mod::lemma_fundamental_div_mod(addr as int, 256);
    lemma_pack_nibbles(family, (addr / 256) as u8);
}

/// Round trip: decoding the encoding of any well-formed instruction other
/// than the `Unknown` sentinel yields the instruction itself.
pub proof fn lemma_decode_encode(i: Instruction)
    requires
        wf_instruction(i),
        !(i is Unknown),
    ensures
        spec_decode(spec_encode(i).0, spec_encode(i).1) == i,
{
    match i {
        Instruction::ClearDisplay => {},
        Instruction::Return => {},
        Instruction::Exit => {},
        Instruction::Jump { addr } => { lemma_pack_addr(0x1, addr); },
        Instruction::Call { addr } => { lemma_pack_addr(0x2, addr); },
        Instruction::SkipRegEqualsImm { x, byte } => { lemma_pack_nibbles(0x3, x); },
        Instruction::SkipRegNotEqualsImm { x, byte } => { lemma_pack_nibbles(0x4, x); },
        Instruction::SkipRegEqualsReg { x, y } => {
            lemma_pack_nibbles(0x5, x);
            lemma_pack_nibbles(y, 0x0);
        },
        Instruction::LoadImmToReg { x, byte } => { lemma_pack_nibbles(0x6, x); },
        Instruction::AddImmToReg { x, byte } => { lemma_pack_nibbles(0x7, x); },
        Instruction::LoadRegToReg { x, y } => {
            lemma_pack_nibbles(0x8, x);
            lemma_pack_nibbles(y, 0x0);
        },
        Instruction::OrReg { x, y } => {
            lemma_pack_nibbles(0x8, x);
            lemma_pack_nibbles(y, 0x1);
        },
        Instruction::AndReg { x, y } => {
            lemma_pack_nibbles(0x8, x);
            lemma_pack_nibbles(y, 0x2);
        },
        Instruction::XorReg { x, y } => {
            lemma_pack_nibbles(0x8, x);
            lemma_pack_nibbles(y, 0x3);
        },
        Instruction::AddReg { x, y } => {
            lemma_pack_nibbles(0x8, x);
            lemma_pack_nibbles(y, 0x4);
        },
        Instruction::SubReg { x, y } => {
            lemma_pack_nibbles(0x8, x);
            lemma_pack_nibbles(y, 0x5);
        },
        Instruction::ShiftRight { x } => {
            lemma_pack_nibbles(0x8, x);
            lemma_pack_nibbles(0x0, 0x6);
        },
        Instruction::SubNegReg { x, y } => {
            lemma_pack_nibbles(0x8, x);
            lemma_pack_nibbles(y, 0x7);
        },
        Instruction::ShiftLeft { x } => {
            lemma_pack_nibbles(0x8, x);
            lemma_pack_nibbles(0x0, 0xE);
        },
        Instruction::SkipRegNotEqualsReg { x, y } => {
            lemma_pack_nibbles(0x9, x);
            lemma_pack_nibbles(y, 0x0);
        },
        Instruction::LoadImmToPointer { addr } => { lemma_pack_addr(0xA, addr); },
        Instruction::JumpOffset { addr } => { lemma_pack_addr(0xB, addr); },
        Instruction::Random { x, byte } => { lemma_pack_nibbles(0xC, x); },
        Instruction::Draw { x, y, nibble } => {
            lemma_pack_nibbles(0xD, x);
            lemma_pack_nibbles(y, nibble);
        },
        Instruction::SkipKeyPressed { x } => { lemma_pack_nibbles(0xE, x); },
        Instruction::SkipNotKeyPressed { x } => { lemma_pack_nibbles(0xE, x); },
        Instruction::LoadDelayTimerToReg { x } => { lemma_pack_nibbles(0xF, x); },
        Instruction::LoadNextKeyPress { x } => { lemma_pack_nibbles(0xF, x); },
        Instruction::LoadRegToDelayTimer { x } => { lemma_pack_nibbles(0xF, x); },
        Instruction::LoadRegToSoundTimer { x } => { lemma_pack_nibbles(0xF, x); },
        Instruction::AddRegToPointer { x } => { lemma_pack_nibbles(0xF, x); },
        Instruction::LoadDigitSpriteToPointer { x } => { lemma_pack_nibbles(0xF, x); },
        Instruction::LoadDecimalDigitsToPointer { x } => { lemma_pack_nibbles(0xF, x); },
        Instruction::WriteRegToPointer { x } => { lemma_pack_nibbles(0xF, x); },
        Instruction::ReadRegFromPointer { x } => { lemma_pack_nibbles(0xF, x); },
        Instruction::Unknown { byte1, byte2 } => {},
    }
}

} // verus!
