//! The engine: a processor holding the register file, memory, framebuffer,
//! call stack, timers and keypad state, advanced one instruction per call.
//!
//! The whole machine is modelled by the ghost state `ProcState`; every
//! mutation is pinned to the transition function `spec_step` (with the byte
//! drawn for `Random` as an explicit parameter, since two runs may differ
//! there and nowhere else).

use vstd::prelude::*;

use crate::display::Display;
use crate::instructions::spec_decode;
use crate::instructions::Instruction;
use crate::instructions::{decode_instruction, wf_instruction};
use crate::key::spec_key_mask;
use crate::key::spec_key_pressed;
use crate::key::spec_lowest_key;
use crate::key::{key_number_to_keys, keys_to_key_number, Keys};
use crate::logger::LogSource;
use crate::logger::Logger;

verus! {

/// A condition the engine has no semantics for; execution cannot continue
/// past it.
#[derive(Debug, Clone, Copy, PartialEq, Eq, Structural)]
pub enum ExecutionError {
    /// The bytes under the program counter decode to no instruction.
    UnknownOpcode { byte1: u8, byte2: u8 },
    /// A call was made with all stack levels in use.
    StackOverflow,
    /// A return was executed with no call outstanding.
    StackUnderflow,
}

/// The complete mathematical state of the machine.
#[verifier::ext_equal]
pub ghost struct ProcState {
    /// The 16 general 8-bit registers; register 15 is the flag register.
    pub regs: Seq<u8>,
    /// The 12-bit memory pointer register.
    pub pointer: u16,
    /// The 12-bit program counter.
    pub pc: u16,
    /// How many call-stack levels are in use.
    pub sp: nat,
    /// The delay timer.
    pub delay: u8,
    /// The sound timer.
    pub sound: u8,
    /// The 4096 bytes of memory.
    pub memory: Seq<u8>,
    /// The 256-byte bit-packed 64 by 32 framebuffer.
    pub display: Seq<u8>,
    /// The 8 call-stack slots of return addresses.
    pub stack: Seq<u16>,
    /// The held-keys bitmask.
    pub keys: Keys,
    /// The key-wait latch: the register a coming key press is destined for.
    pub waiting: Option<u8>,
    /// Whether the machine has reached a terminal state.
    pub exit: bool,
}

impl ProcState {
    /// Dimensions and ranges every reachable state keeps.
    pub open spec fn wf(self) -> bool {
        &&& self.regs.len() == 16
        &&& self.memory.len() == 4096
        &&& self.display.len() == 256
        &&& self.stack.len() == 8
        &&& self.sp <= 8
        &&& self.pc < 4096
        &&& self.pointer < 4096
        &&& forall|i: int| 0 <= i < 8 ==> self.stack[i] < 4096
        &&& match self.waiting {
            Some(x) => x < 16,
            None => true,
        }
    }
}

/// The state of the machine as powered on, before any program is loaded.
pub open spec fn spec_power_on() -> ProcState {
    ProcState {
        regs: Seq::new(16, |i| 0u8),
        pointer: 0,
        pc: 0,
        sp: 0,
        delay: 0,
        sound: 0,
        memory: Seq::new(4096, |i| 0u8),
        display: Seq::new(256, |i| 0u8),
        stack: Seq::new(8, |i| 0u16),
        keys: 0,
        waiting: None,
        exit: false,
    }
}

/// Byte `i` of the built-in digit-sprite table: five bytes per hexadecimal
/// digit, in digit order.
pub open spec fn spec_digit_sprite_byte(i: int) -> u8 {
    if i == 0 {
        0xF0u8
    }     else if i == 1 {
        0x90u8
    }     else if i == 2 {
        0x90u8
    }     else if i == 3 {
        0x90u8
    }     else if i == 4 {
        0xF0u8
    }     else if i == 5 {
        0x20u8
    }     else if i == 6 {
        0x60u8
    }     else if i == 7 {
        0x20u8
    }     else if i == 8 {
        0x20u8
    }     else if i == 9 {
        0x70u8
    }     else if i == 10 {
        0xF0u8
    }     else if i == 11 {
        0x10u8
    }     else if i == 12 {
        0xF0u8
    }     else if i == 13 {
        0x80u8
    }     else if i == 14 {
        0xF0u8
    }     else if i == 15 {
        0xF0u8
    }     else if i == 16 {
        0x10u8
    }     else if i == 17 {
        0xF0u8
    }     else if i == 18 {
        0x10u8
    }     else if i == 19 {
        0xF0u8
    }     else if i == 20 {
        0x90u8
    }     else if i == 21 {
        0x90u8
    }     else if i == 22 {
        0xF0u8
    }     else if i == 23 {
        0x10u8
    }     else if i == 24 {
        0x10u8
    }     else if i == 25 {
        0xF0u8
    }     else if i == 26 {
        0x80u8
    }     else if i == 27 {
        0xF0u8
    }     else if i == 28 {
        0x10u8
    }     else if i == 29 {
        0xF0u8
    }     else if i == 30 {
        0xF0u8
    }     else if i == 31 {
        0x80u8
    }     else if i == 32 {
        0xF0u8
    }     else if i == 33 {
        0x90u8
    }     else if i == 34 {
        0xF0u8
    }     else if i == 35 {
        0xF0u8
    }     else if i == 36 {
        0x10u8
    }     else if i == 37 {
        0x20u8
    }     else if i == 38 {
        0x40u8
    }     else if i == 39 {
        0x40u8
    }     else if i == 40 {
        0xF0u8
    }     else if i == 41 {
        0x90u8
    }     else if i == 42 {
        0xF0u8
    }     else if i == 43 {
        0x90u8
    }     else if i == 44 {
        0xF0u8
    }     else if i == 45 {
        0xF0u8
    }     else if i == 46 {
        0x90u8
    }     else if i == 47 {
        0xF0u8
    }     else if i == 48 {
        0x10u8
    }     else if i == 49 {
        0xF0u8
    }     else if i == 50 {
        0xF0u8
    }     else if i == 51 {
        0x90u8
    }     else if i == 52 {
        0xF0u8
    }     else if i == 53 {
        0x90u8
    }     else if i == 54 {
        0x90u8
    }     else if i == 55 {
        0xE0u8
    }     else if i == 56 {
        0x90u8
    }     else if i == 57 {
        0xE0u8
    }     else if i == 58 {
        0x90u8
    }     else if i == 59 {
        0xE0u8
    }     else if i == 60 {
        0xF0u8
    }     else if i == 61 {
        0x80u8
    }     else if i == 62 {
        0x80u8
    }     else if i == 63 {
        0x80u8
    }     else if i == 64 {
        0xF0u8
    }     else if i == 65 {
        0xE0u8
    }     else if i == 66 {
        0x90u8
    }     else if i == 67 {
        0x90u8
    }     else if i == 68 {
        0x90u8
    }     else if i == 69 {
        0xE0u8
    }     else if i == 70 {
        0xF0u8
    }     else if i == 71 {
        0x80u8
    }     else if i == 72 {
        0xF0u8
    }     else if i == 73 {
        0x80u8
    }     else if i == 74 {
        0xF0u8
    }     else if i == 75 {
        0xF0u8
    }     else if i == 76 {
        0x80u8
    }     else if i == 77 {
        0xF0u8
    }     else if i == 78 {
        0x80u8
    } else {
        0x80u8
    }
}

/// The built-in 5-byte sprites for the sixteen hexadecimal digits, in order.
pub open spec fn spec_digit_sprites() -> Seq<u8> {
    Seq::new(80, |i: int| spec_digit_sprite_byte(i))
}

/// The state after `initialize(program)`: everything reset, the digit
/// sprites copied to low memory, the program copied to the load address
/// 0x200, and the program counter set there.
pub open spec fn spec_initialized(program: Seq<u8>) -> ProcState {
    ProcState {
        pc: 0x200,
        memory: Seq::new(
            4096,
            |a: int|
                if a < 80 {
                    spec_digit_sprites()[a]
                } else if 0x200 <= a < 0x200 + program.len() {
                    program[a - 0x200]
                } else {
                    0u8
                },
        ),
        ..spec_power_on()
    }
}

/// One pixel of a sprite blit: XOR sprite bit `k` (row `k / 8`, column
/// `k % 8`) into the framebuffer `d`, and record in the second component
/// whether this pixel or an earlier one erased a set bit.
pub open spec fn spec_blit_step(
    d: Seq<u8>,
    erase: bool,
    mem: Seq<u8>,
    ptr: u16,
    vx: u8,
    vy: u8,
    k: nat,
) -> (Seq<u8>, bool) {
    let i = k / 8;
    let j = k % 8;
    let sprite_byte = mem[((ptr + i) % 4096) as int];
    let sprite_bit = (sprite_byte >> (7 - j) as u8) & 1;
    let col = (vx + j) % 64;
    let row = (vy + i) % 32;
    let p = 64 * row + col;
    let bi = (p / 8) as int;
    let bit = (7 - p % 8) as u8;
    if sprite_bit == 1 {
        (d.update(bi, d[bi] ^ (1u8 << bit)), erase || ((d[bi] >> bit) & 1 == 1))
    } else {
        (d, erase)
    }
}

/// The framebuffer and erase flag after the first `k` pixels of a blit.
pub open spec fn spec_blit_upto(
    d0: Seq<u8>,
    mem: Seq<u8>,
    ptr: u16,
    vx: u8,
    vy: u8,
    k: nat,
) -> (Seq<u8>, bool)
    decreases k,
{
    if k == 0 {
        (d0, false)
    } else {
        let prev = spec_blit_upto(d0, mem, ptr, vx, vy, (k - 1) as nat);
        spec_blit_step(prev.0, prev.1, mem, ptr, vx, vy, (k - 1) as nat)
    }
}

/// The full blit of an `n`-row sprite read at `ptr` onto the framebuffer at
/// column `vx`, row `vy`, with positions wrapping at the frame edges; the
/// second component says whether any set pixel was erased.
pub open spec fn spec_blit(
    d0: Seq<u8>,
    mem: Seq<u8>,
    ptr: u16,
    vx: u8,
    vy: u8,
    n: u8,
) -> (Seq<u8>, bool) {
    spec_blit_upto(d0, mem, ptr, vx, vy, (8 * n) as nat)
}

/// The sprite bit a blit XORs at step `k`: bit `7 - k % 8` of sprite row
/// `k / 8`.
pub open spec fn spec_sprite_bit(mem: Seq<u8>, ptr: u16, k: nat) -> u8 {
    (mem[((ptr + k / 8) % 4096) as int] >> (7 - k % 8) as u8) & 1
}

/// The framebuffer byte a blit touches at step `k`.
pub open spec fn spec_blit_byte(vx: u8, vy: u8, k: nat) -> int {
    (64 * ((vy + k / 8) % 32) + (vx + k % 8) % 64) / 8
}

/// The bit within that byte (7 = most significant).
pub open spec fn spec_blit_bitpos(vx: u8, vy: u8, k: nat) -> u8 {
    (7 - (64 * ((vy + k / 8) % 32) + (vx + k % 8) % 64) % 8) as u8
}

/// Bit `t` of byte `b` of the framebuffer.
pub open spec fn spec_bit_of(d: Seq<u8>, b: int, t: u8) -> u8 {
    (d[b] >> t) & 1
}

/// Two columns of one sprite row wrap to the same screen column only if
/// they are the same column.
proof fn lemma_col_inj(vx: u16, j1: u16, j2: u16)
    requires
        vx < 256,
        j1 < 8,
        j2 < 8,
        (vx + j1) % 64 == (vx + j2) % 64,
    ensures
        j1 == j2,
{
    assert(vx < 256 && j1 < 8 && j2 < 8 && (vx + j1) % 64 == (vx + j2) % 64 ==> j1 == j2)
        by (bit_vector);
}

/// Two rows of one sprite wrap to the same screen row only if they are the
/// same row.
proof fn lemma_row_inj(vy: u16, i1: u16, i2: u16)
    requires
        vy < 256,
        i1 < 16,
        i2 < 16,
        (vy + i1) % 32 == (vy + i2) % 32,
    ensures
        i1 == i2,
{
    assert(vy < 256 && i1 < 16 && i2 < 16 && (vy + i1) % 32 == (vy + i2) % 32 ==> i1 == i2)
        by (bit_vector);
}

/// Row and column are recoverable from the byte and bit a pixel packs into.
proof fn lemma_pack_inj(r1: u16, c1: u16, r2: u16, c2: u16)
    requires
        r1 < 32,
        c1 < 64,
        r2 < 32,
        c2 < 64,
        (64 * r1 + c1) / 8 == (64 * r2 + c2) / 8,
        (64 * r1 + c1) % 8 == (64 * r2 + c2) % 8,
    ensures
        r1 == r2,
        c1 == c2,
{
    assert(r1 < 32 && c1 < 64 && r2 < 32 && c2 < 64 && (64 * r1 + c1) / 8 == (64 * r2 + c2) / 8
        && (64 * r1 + c1) % 8 == (64 * r2 + c2) % 8 ==> r1 == r2 && c1 == c2) by (bit_vector);
}

/// Distinct blit steps of one draw touch distinct framebuffer bits.
proof fn lemma_blit_pos_inj(vx: u8, vy: u8, k1: nat, k2: nat)
    requires
        k1 < 128,
        k2 < 128,
        k1 != k2,
    ensures
        !(spec_blit_byte(vx, vy, k1) == spec_blit_byte(vx, vy, k2) && spec_blit_bitpos(vx, vy, k1)
            == spec_blit_bitpos(vx, vy, k2)),
{
    let i1 = k1 / 8;
    let j1 = k1 % 8;
    let i2 = k2 / 8;
    let j2 = k2 % 8;
    let r1 = (vy + i1) % 32;
    let c1 = (vx + j1) % 64;
    let r2 = (vy + i2) % 32;
    let c2 = (vx + j2) % 64;
    if spec_blit_byte(vx, vy, k1) == spec_blit_byte(vx, vy, k2) && spec_blit_bitpos(vx, vy, k1)
        == spec_blit_bitpos(vx, vy, k2) {
        let p1 = 64 * r1 + c1;
        let p2 = 64 * r2 + c2;
        assert(p1 % 8 == p2 % 8);
        lemma_pack_inj(r1 as u16, c1 as u16, r2 as u16, c2 as u16);
        lemma_row_inj(vy as u16, i1 as u16, i2 as u16);
        lemma_col_inj(vx as u16, j1 as u16, j2 as u16);
        vstd::arithmetic::div_mod::lemma_fundamental_div_mod(k1 as int, 8);
        vstd::arithmetic::div_mod::lemma_fundamental_div_mod(k2 as int, 8);
        assert(false);
    }
}

/// XOR with a single-bit mask flips that bit and leaves every other alone.
proof fn lemma_xor_bit(x: u8, s: u8, t: u8)
    requires
        s < 8,
        t < 8,
    ensures
        s != t ==> ((x ^ (1u8 << s)) >> t) & 1 == (x >> t) & 1,
        s == t ==> ((x ^ (1u8 << s)) >> t) & 1 == 1 - ((x >> t) & 1),
{
    assert(s < 8 && t < 8 && s != t ==> ((x ^ (1u8 << s)) >> t) & 1 == (x >> t) & 1)
        by (bit_vector);
    assert(s < 8 ==> ((x ^ (1u8 << s)) >> s) & 1 == 1 - ((x >> s) & 1)) by (bit_vector);
}

/// A byte with all eight bits clear is zero; a shifted-out bit is 0 or 1.
proof fn lemma_byte_of_bits(x: u8)
    ensures
        ((x >> 0u8) & 1 == 0 && (x >> 1u8) & 1 == 0 && (x >> 2u8) & 1 == 0 && (x >> 3u8) & 1 == 0
            && (x >> 4u8) & 1 == 0 && (x >> 5u8) & 1 == 0 && (x >> 6u8) & 1 == 0 && (x >> 7u8) & 1
            == 0) ==> x == 0,
        forall|t: u8| t < 8 ==> ((x >> t) & 1 == 0 || (x >> t) & 1 == 1),
{
    assert(((x >> 0u8) & 1 == 0 && (x >> 1u8) & 1 == 0 && (x >> 2u8) & 1 == 0 && (x >> 3u8) & 1
        == 0 && (x >> 4u8) & 1 == 0 && (x >> 5u8) & 1 == 0 && (x >> 6u8) & 1 == 0 && (x >> 7u8) & 1
        == 0) ==> x == 0) by (bit_vector);
    assert forall|t: u8| t < 8 implies ((x >> t) & 1 == 0 || (x >> t) & 1 == 1) by {
        let tt = t;
        assert(tt < 8 ==> ((x >> tt) & 1 == 0 || (x >> tt) & 1 == 1)) by (bit_vector);
    }
}

/// Blitting onto a cleared framebuffer erases nothing: after `k` steps each
/// touched bit shows its sprite bit and every other bit is still clear.
#[verifier::rlimit(60)]
proof fn lemma_blit_on_zero(d0: Seq<u8>, mem: Seq<u8>, ptr: u16, vx: u8, vy: u8, k: nat)
    requires
        d0.len() == 256,
        mem.len() == 4096,
        ptr < 4096,
        k <= 128,
        forall|b: int| 0 <= b < 256 ==> d0[b] == 0u8,
    ensures
        ({
            let r = spec_blit_upto(d0, mem, ptr, vx, vy, k);
            &&& r.0.len() == 256
            &&& r.1 == false
            &&& forall|m: nat| #![trigger spec_sprite_bit(mem, ptr, m)]
                m < k ==> spec_bit_of(
                    r.0,
                    spec_blit_byte(vx, vy, m),
                    spec_blit_bitpos(vx, vy, m),
                ) == spec_sprite_bit(mem, ptr, m)
            &&& forall|b: int, t: u8| #![trigger spec_bit_of(r.0, b, t)]
                0 <= b < 256 && t < 8 && (forall|m: nat|
                    m < k ==> !(spec_blit_byte(vx, vy, m) == b && #[trigger] spec_blit_bitpos(
                        vx,
                        vy,
                        m,
                    ) == t)) ==> spec_bit_of(r.0, b, t) == 0
        }),
    decreases k,
{
    if k == 0 {
        assert forall|b: int, t: u8|
            0 <= b < 256 && t < 8 implies #[trigger] spec_bit_of(d0, b, t) == 0 by {
            assert(d0[b] == 0u8);
            assert(t < 8 ==> (0u8 >> t) & 1 == 0) by (bit_vector);
        }
    } else {
        let kk = (k - 1) as nat;
        lemma_blit_on_zero(d0, mem, ptr, vx, vy, kk);
        let prev = spec_blit_upto(d0, mem, ptr, vx, vy, kk);
        let r = spec_blit_upto(d0, mem, ptr, vx, vy, k);
        let bstar = spec_blit_byte(vx, vy, kk);
        let tstar = spec_blit_bitpos(vx, vy, kk);
        let sbit = spec_sprite_bit(mem, ptr, kk);
        assert(0 <= bstar < 256 && tstar < 8);
        lemma_byte_of_bits(mem[((ptr + kk / 8) % 4096) as int]);
        assert(sbit == 0 || sbit == 1) by {
            let row = mem[((ptr + kk / 8) % 4096) as int];
            let sh = (7 - kk % 8) as u8;
            assert(sh < 8);
            assert((row >> sh) & 1 == 0 || (row >> sh) & 1 == 1);
        }
        assert forall|m: nat| m < kk implies !(spec_blit_byte(vx, vy, m) == bstar
            && #[trigger] spec_blit_bitpos(vx, vy, m) == tstar) by {
            lemma_blit_pos_inj(vx, vy, m, kk);
        }
        assert(spec_bit_of(prev.0, bstar, tstar) == 0);
        if sbit == 1 {
            assert(r.0 == prev.0.update(bstar, (prev.0[bstar] ^ (1u8 << tstar)) as u8));
            assert(r.1 == (prev.1 || (prev.0[bstar] >> tstar) & 1 == 1));
            assert(r.1 == false);
            assert forall|m: nat|
                m < k implies spec_bit_of(
                r.0,
                spec_blit_byte(vx, vy, m),
                spec_blit_bitpos(vx, vy, m),
            ) == #[trigger] spec_sprite_bit(mem, ptr, m) by {
                let mb = spec_blit_byte(vx, vy, m);
                let mt = spec_blit_bitpos(vx, vy, m);
                if m < kk {
                    lemma_blit_pos_inj(vx, vy, m, kk);
                    if mb == bstar {
                        lemma_xor_bit(prev.0[bstar], tstar, mt);
                    }
                } else {
                    lemma_xor_bit(prev.0[bstar], tstar, tstar);
                }
            }
            assert forall|b: int, t: u8|
                0 <= b < 256 && t < 8 && (forall|m: nat|
                    m < k ==> !(spec_blit_byte(vx, vy, m) == b && #[trigger] spec_blit_bitpos(
                        vx,
                        vy,
                        m,
                    ) == t)) implies #[trigger] spec_bit_of(r.0, b, t) == 0 by {
                assert(!(bstar == b && tstar == t));
                if b == bstar {
                    lemma_xor_bit(prev.0[bstar], tstar, t);
                }
                assert(forall|m: nat|
                    m < kk ==> !(spec_blit_byte(vx, vy, m) == b && #[trigger] spec_blit_bitpos(
                        vx,
                        vy,
                        m,
                    ) == t));
                assert(spec_bit_of(prev.0, b, t) == 0);
            }
        } else {
            assert(r.0 == prev.0);
            assert(r.1 == prev.1);
            assert forall|m: nat|
                m < k implies spec_bit_of(
                r.0,
                spec_blit_byte(vx, vy, m),
                spec_blit_bitpos(vx, vy, m),
            ) == #[trigger] spec_sprite_bit(mem, ptr, m) by {
                if m < kk {
                } else {
                    assert(spec_bit_of(prev.0, bstar, tstar) == 0);
                }
            }
            assert forall|b: int, t: u8|
                0 <= b < 256 && t < 8 && (forall|m: nat|
                    m < k ==> !(spec_blit_byte(vx, vy, m) == b && #[trigger] spec_blit_bitpos(
                        vx,
                        vy,
                        m,
                    ) == t)) implies #[trigger] spec_bit_of(r.0, b, t) == 0 by {
                assert(forall|m: nat|
                    m < kk ==> !(spec_blit_byte(vx, vy, m) == b && #[trigger] spec_blit_bitpos(
                        vx,
                        vy,
                        m,
                    ) == t));
            }
        }
    }
}

/// Blitting a sprite onto a framebuffer that already shows exactly that
/// sprite erases it step by step: the erase flag fires as soon as some set
/// sprite pixel is crossed, and every touched bit ends clear.
#[verifier::rlimit(60)]
proof fn lemma_blit_erase(
    d1: Seq<u8>,
    mem: Seq<u8>,
    ptr: u16,
    vx: u8,
    vy: u8,
    k: nat,
    total: nat,
)
    requires
        d1.len() == 256,
        mem.len() == 4096,
        ptr < 4096,
        k <= total <= 128,
        forall|m: nat| #![trigger spec_sprite_bit(mem, ptr, m)]
            m < total ==> spec_bit_of(
                d1,
                spec_blit_byte(vx, vy, m),
                spec_blit_bitpos(vx, vy, m),
            ) == spec_sprite_bit(mem, ptr, m),
        forall|b: int, t: u8| #![trigger spec_bit_of(d1, b, t)]
            0 <= b < 256 && t < 8 && (forall|m: nat|
                m < total ==> !(spec_blit_byte(vx, vy, m) == b && #[trigger] spec_blit_bitpos(
                    vx,
                    vy,
                    m,
                ) == t)) ==> spec_bit_of(d1, b, t) == 0,
    ensures
        ({
            let r = spec_blit_upto(d1, mem, ptr, vx, vy, k);
            &&& r.0.len() == 256
            &&& r.1 == exists|m: nat| m < k && #[trigger] spec_sprite_bit(mem, ptr, m) == 1
            &&& forall|m: nat| #![trigger spec_blit_byte(vx, vy, m)]
                m < k ==> spec_bit_of(
                    r.0,
                    spec_blit_byte(vx, vy, m),
                    spec_blit_bitpos(vx, vy, m),
                ) == 0
            &&& forall|m: nat| #![trigger spec_sprite_bit(mem, ptr, m)]
                k <= m < total ==> spec_bit_of(
                    r.0,
                    spec_blit_byte(vx, vy, m),
                    spec_blit_bitpos(vx, vy, m),
                ) == spec_sprite_bit(mem, ptr, m)
            &&& forall|b: int, t: u8| #![trigger spec_bit_of(r.0, b, t)]
                0 <= b < 256 && t < 8 && (forall|m: nat|
                    m < total ==> !(spec_blit_byte(vx, vy, m) == b && #[trigger] spec_blit_bitpos(
                        vx,
                        vy,
                        m,
                    ) == t)) ==> spec_bit_of(r.0, b, t) == 0
        }),
    decreases k,
{
    if k == 0 {
    } else {
        let kk = (k - 1) as nat;
        lemma_blit_erase(d1, mem, ptr, vx, vy, kk, total);
        let prev = spec_blit_upto(d1, mem, ptr, vx, vy, kk);
        let r = spec_blit_upto(d1, mem, ptr, vx, vy, k);
        let bstar = spec_blit_byte(vx, vy, kk);
        let tstar = spec_blit_bitpos(vx, vy, kk);
        let sbit = spec_sprite_bit(mem, ptr, kk);
        assert(0 <= bstar < 256 && tstar < 8);
        assert(spec_bit_of(prev.0, bstar, tstar) == sbit);
        lemma_byte_of_bits(mem[((ptr + kk / 8) % 4096) as int]);
        assert(sbit == 0 || sbit == 1) by {
            let row = mem[((ptr + kk / 8) % 4096) as int];
            let sh = (7 - kk % 8) as u8;
            assert(sh < 8);
            assert((row >> sh) & 1 == 0 || (row >> sh) & 1 == 1);
        }
        if sbit == 1 {
            assert(r.0 == prev.0.update(bstar, (prev.0[bstar] ^ (1u8 << tstar)) as u8));
            assert((prev.0[bstar] >> tstar) & 1 == 1);
            assert(r.1 == true);
            assert(r.1 == exists|m: nat| m < k && #[trigger] spec_sprite_bit(mem, ptr, m) == 1);
            assert forall|m: nat|
                m < k implies spec_bit_of(
                r.0,
                #[trigger] spec_blit_byte(vx, vy, m),
                spec_blit_bitpos(vx, vy, m),
            ) == 0 by {
                let mb = spec_blit_byte(vx, vy, m);
                let mt = spec_blit_bitpos(vx, vy, m);
                if m < kk {
                    lemma_blit_pos_inj(vx, vy, m, kk);
                    if mb == bstar {
                        lemma_xor_bit(prev.0[bstar], tstar, mt);
                    }
                } else {
                    lemma_xor_bit(prev.0[bstar], tstar, tstar);
                }
            }
            assert forall|m: nat|
                k <= m < total implies spec_bit_of(
                r.0,
                spec_blit_byte(vx, vy, m),
                spec_blit_bitpos(vx, vy, m),
            ) == #[trigger] spec_sprite_bit(mem, ptr, m) by {
                let mb = spec_blit_byte(vx, vy, m);
                let mt = spec_blit_bitpos(vx, vy, m);
                lemma_blit_pos_inj(vx, vy, m, kk);
                if mb == bstar {
                    lemma_xor_bit(prev.0[bstar], tstar, mt);
                }
            }
            assert forall|b: int, t: u8|
                0 <= b < 256 && t < 8 && (forall|m: nat|
                    m < total ==> !(spec_blit_byte(vx, vy, m) == b && #[trigger] spec_blit_bitpos(
                        vx,
                        vy,
                        m,
                    ) == t)) implies #[trigger] spec_bit_of(r.0, b, t) == 0 by {
                assert(!(bstar == b && tstar == t));
                if b == bstar {
                    lemma_xor_bit(prev.0[bstar], tstar, t);
                }
                assert(spec_bit_of(prev.0, b, t) == 0);
            }
        } else {
            assert(r.0 == prev.0);
            assert((prev.0[bstar] >> tstar) & 1 == 0);
            assert(r.1 == prev.1);
            assert(r.1 == exists|m: nat| m < k && #[trigger] spec_sprite_bit(mem, ptr, m) == 1)
                by {
                if exists|m: nat| m < k && #[trigger] spec_sprite_bit(mem, ptr, m) == 1 {
                    let m = choose|m: nat|
                        m < k && #[trigger] spec_sprite_bit(mem, ptr, m) == 1;
                    assert(m != kk);
                    assert(m < kk && spec_sprite_bit(mem, ptr, m) == 1);
                }
            }
            assert forall|m: nat|
                m < k implies spec_bit_of(
                r.0,
                #[trigger] spec_blit_byte(vx, vy, m),
                spec_blit_bitpos(vx, vy, m),
            ) == 0 by {
                if m < kk {
                } else {
                    assert(spec_bit_of(prev.0, bstar, tstar) == 0);
                }
            }
        }
    }
}

/// Drawing a sprite with at least one set pixel onto a cleared framebuffer
/// reports no collision; drawing the same sprite again at the same place
/// reports one, and erases the framebuffer back to cleared.
#[verifier::rlimit(100)]
pub proof fn lemma_draw_twice_collision(
    d0: Seq<u8>,
    mem: Seq<u8>,
    ptr: u16,
    vx: u8,
    vy: u8,
    n: u8,
)
    requires
        d0.len() == 256,
        mem.len() == 4096,
        ptr < 4096,
        n < 16,
        forall|b: int| 0 <= b < 256 ==> d0[b] == 0u8,
        exists|m: nat| m < 8 * n && #[trigger] spec_sprite_bit(mem, ptr, m) == 1,
    ensures
        ({
            let first = spec_blit(d0, mem, ptr, vx, vy, n);
            let second = spec_blit(first.0, mem, ptr, vx, vy, n);
            &&& first.1 == false
            &&& second.1 == true
            &&& second.0 == d0
        }),
{
    let total = (8 * n) as nat;
    lemma_blit_on_zero(d0, mem, ptr, vx, vy, total);
    let first = spec_blit(d0, mem, ptr, vx, vy, n);
    lemma_blit_erase(first.0, mem, ptr, vx, vy, total, total);
    let second = spec_blit(first.0, mem, ptr, vx, vy, n);
    assert(second.1 == true);
    lemma_fully_erased(second.0, vx, vy, total);
    assert(second.0 =~= d0);
}

/// A framebuffer whose touched bits and untouched bits are all clear is all
/// zero bytes.
#[verifier::rlimit(100)]
proof fn lemma_fully_erased(d: Seq<u8>, vx: u8, vy: u8, total: nat)
    requires
        d.len() == 256,
        forall|m: nat| #![trigger spec_blit_byte(vx, vy, m)]
            m < total ==> spec_bit_of(
                d,
                spec_blit_byte(vx, vy, m),
                spec_blit_bitpos(vx, vy, m),
            ) == 0,
        forall|b: int, t: u8| #![trigger spec_bit_of(d, b, t)]
            0 <= b < 256 && t < 8 && (forall|m: nat|
                m < total ==> !(spec_blit_byte(vx, vy, m) == b && #[trigger] spec_blit_bitpos(
                    vx,
                    vy,
                    m,
                ) == t)) ==> spec_bit_of(d, b, t) == 0,
    ensures
        forall|b: int| 0 <= b < 256 ==> d[b] == 0u8,
{
    assert forall|b: int| 0 <= b < 256 implies d[b] == 0u8 by {
        assert forall|t: u8| t < 8 implies spec_bit_of(d, b, t) == 0 by {
            if exists|m: nat|
                m < total && spec_blit_byte(vx, vy, m) == b && #[trigger] spec_blit_bitpos(
                    vx,
                    vy,
                    m,
                ) == t {
                let m = choose|m: nat|
                    m < total && spec_blit_byte(vx, vy, m) == b && #[trigger] spec_blit_bitpos(
                        vx,
                        vy,
                        m,
                    ) == t;
                assert(spec_bit_of(d, spec_blit_byte(vx, vy, m), spec_blit_bitpos(vx, vy, m))
                    == 0);
            } else {
                assert(forall|m: nat|
                    m < total ==> !(spec_blit_byte(vx, vy, m) == b && #[trigger] spec_blit_bitpos(
                        vx,
                        vy,
                        m,
                    ) == t));
            }
        }
        assert(spec_bit_of(d, b, 0u8) == 0);
        assert(spec_bit_of(d, b, 1u8) == 0);
        assert(spec_bit_of(d, b, 2u8) == 0);
        assert(spec_bit_of(d, b, 3u8) == 0);
        assert(spec_bit_of(d, b, 4u8) == 0);
        assert(spec_bit_of(d, b, 5u8) == 0);
        assert(spec_bit_of(d, b, 6u8) == 0);
        assert(spec_bit_of(d, b, 7u8) == 0);
        lemma_byte_of_bits(d[b]);
    }
}

/// Memory after storing registers 0 up to (excluding) `count` at successive
/// addresses from `ptr`, wrapping at the end of memory.
pub open spec fn spec_write_regs(mem: Seq<u8>, regs: Seq<u8>, ptr: u16, count: nat) -> Seq<u8>
    decreases count,
{
    if count == 0 {
        mem
    } else {
        spec_write_regs(mem, regs, ptr, (count - 1) as nat).update(
            ((ptr + count - 1) % 4096) as int,
            regs[count - 1],
        )
    }
}

/// Registers after loading registers 0 up to (excluding) `count` from
/// successive addresses from `ptr`, wrapping at the end of memory.
pub open spec fn spec_read_regs(regs: Seq<u8>, mem: Seq<u8>, ptr: u16, count: nat) -> Seq<u8>
    decreases count,
{
    if count == 0 {
        regs
    } else {
        spec_read_regs(regs, mem, ptr, (count - 1) as nat).update(
            count - 1,
            mem[((ptr + count - 1) % 4096) as int],
        )
    }
}

/// A blit never changes the size of the framebuffer.
proof fn lemma_blit_len(d0: Seq<u8>, mem: Seq<u8>, ptr: u16, vx: u8, vy: u8, k: nat)
    requires
        d0.len() == 256,
    ensures
        spec_blit_upto(d0, mem, ptr, vx, vy, k).0.len() == 256,
    decreases k,
{
    if k > 0 {
        lemma_blit_len(d0, mem, ptr, vx, vy, (k - 1) as nat);
    }
}

/// Storing registers never changes how much memory there is.
proof fn lemma_write_regs_len(mem: Seq<u8>, regs: Seq<u8>, ptr: u16, count: nat)
    requires
        mem.len() == 4096,
    ensures
        spec_write_regs(mem, regs, ptr, count).len() == mem.len(),
    decreases count,
{
    if count > 0 {
        lemma_write_regs_len(mem, regs, ptr, (count - 1) as nat);
    }
}

/// Loading registers never changes how many registers there are.
proof fn lemma_read_regs_len(regs: Seq<u8>, mem: Seq<u8>, ptr: u16, count: nat)
    requires
        regs.len() == 16,
        count <= 16,
    ensures
        spec_read_regs(regs, mem, ptr, count).len() == regs.len(),
    decreases count,
{
    if count > 0 {
        lemma_read_regs_len(regs, mem, ptr, (count - 1) as nat);
    }
}

/// The state change and possible fatal error of executing one decoded
/// instruction (never `Unknown`). `s` already holds the advanced program
/// counter; `pc0` is the program counter the instruction was fetched from,
/// and `rnd` the byte drawn if the instruction is `Random`.
pub open spec fn spec_execute(s: ProcState, i: Instruction, pc0: u16, rnd: u8) -> (
    ProcState,
    Option<ExecutionError>,
) {
    match i {
        Instruction::ClearDisplay => (
            ProcState { display: Seq::new(256, |b| 0u8), ..s },
            None,
        ),
        Instruction::Return => if s.sp == 0 {
            (s, Some(ExecutionError::StackUnderflow))
        } else {
            (ProcState { pc: s.stack[s.sp - 1], sp: (s.sp - 1) as nat, ..s }, None)
        },
        Instruction::Exit => (ProcState { exit: true, ..s }, None),
        Instruction::Jump { addr } => (
            ProcState { pc: addr, exit: s.exit || addr == pc0, ..s },
            None,
        ),
        Instruction::Call { addr } => if s.sp == 8 {
            (s, Some(ExecutionError::StackOverflow))
        } else {
            (
                ProcState {
                    stack: s.stack.update(s.sp as int, s.pc),
                    sp: (s.sp + 1) as nat,
                    pc: addr,
                    ..s
                },
                None,
            )
        },
        Instruction::SkipRegEqualsImm { x, byte } => (
            if s.regs[x as int] == byte {
                ProcState { pc: ((s.pc + 2) % 4096) as u16, ..s }
            } else {
                s
            },
            None,
        ),
        Instruction::SkipRegNotEqualsImm { x, byte } => (
            if s.regs[x as int] != byte {
                ProcState { pc: ((s.pc + 2) % 4096) as u16, ..s }
            } else {
                s
            },
            None,
        ),
        Instruction::SkipRegEqualsReg { x, y } => (
            if s.regs[x as int] == s.regs[y as int] {
                ProcState { pc: ((s.pc + 2) % 4096) as u16, ..s }
            } else {
                s
            },
            None,
        ),
        Instruction::LoadImmToReg { x, byte } => (
            ProcState { regs: s.regs.update(x as int, byte), ..s },
            None,
        ),
        Instruction::AddImmToReg { x, byte } => (
            ProcState {
                regs: s.regs.update(x as int, ((s.regs[x as int] + byte) % 256) as u8),
                ..s
            },
            None,
        ),
        Instruction::LoadRegToReg { x, y } => (
            ProcState { regs: s.regs.update(x as int, s.regs[y as int]), ..s },
            None,
        ),
        Instruction::OrReg { x, y } => (
            ProcState { regs: s.regs.update(x as int, s.regs[x as int] | s.regs[y as int]), ..s },
            None,
        ),
        Instruction::AndReg { x, y } => (
            ProcState { regs: s.regs.update(x as int, s.regs[x as int] & s.regs[y as int]), ..s },
            None,
        ),
        Instruction::XorReg { x, y } => (
            ProcState { regs: s.regs.update(x as int, s.regs[x as int] ^ s.regs[y as int]), ..s },
            None,
        ),
        Instruction::AddReg { x, y } => {
            let total = s.regs[x as int] + s.regs[y as int];
            let flag: u8 = if total > 255 {
                1u8
            } else {
                0u8
            };
            (
                ProcState {
                    regs: s.regs.update(x as int, (total % 256) as u8).update(15, flag),
                    ..s
                },
                None,
            )
        },
        Instruction::SubReg { x, y } => {
            let vx = s.regs[x as int];
            let vy = s.regs[y as int];
            let flag: u8 = if vx >= vy {
                1u8
            } else {
                0u8
            };
            (
                ProcState {
                    regs: s.regs.update(x as int, ((vx + 256 - vy) % 256) as u8).update(15, flag),
                    ..s
                },
                None,
            )
        },
        Instruction::ShiftRight { x } => {
            let vx = s.regs[x as int];
            (
                ProcState {
                    regs: s.regs.update(x as int, vx / 2).update(15, vx % 2),
                    ..s
                },
                None,
            )
        },
        Instruction::SubNegReg { x, y } => {
            let vx = s.regs[x as int];
            let vy = s.regs[y as int];
            let flag: u8 = if vy >= vx {
                1u8
            } else {
                0u8
            };
            (
                ProcState {
                    regs: s.regs.update(x as int, ((vy + 256 - vx) % 256) as u8).update(15, flag),
                    ..s
                },
                None,
            )
        },
        Instruction::ShiftLeft { x } => {
            let vx = s.regs[x as int];
            (
                ProcState {
                    regs: s.regs.update(x as int, ((vx * 2) % 256) as u8).update(15, vx / 128),
                    ..s
                },
                None,
            )
        },
        Instruction::SkipRegNotEqualsReg { x, y } => (
            if s.regs[x as int] != s.regs[y as int] {
                ProcState { pc: ((s.pc + 2) % 4096) as u16, ..s }
            } else {
                s
            },
            None,
        ),
        Instruction::LoadImmToPointer { addr } => (ProcState { pointer: addr, ..s }, None),
        Instruction::JumpOffset { addr } => (
            ProcState { pc: ((s.regs[0] + addr) % 4096) as u16, ..s },
            None,
        ),
        Instruction::Random { x, byte } => (
            ProcState { regs: s.regs.update(x as int, rnd & byte), ..s },
            None,
        ),
        Instruction::Draw { x, y, nibble } => {
            let blit = spec_blit(s.display, s.memory, s.pointer, s.regs[x as int], s.regs[y as int], nibble);
            let flag: u8 = if blit.1 {
                1u8
            } else {
                0u8
            };
            (
                ProcState { display: blit.0, regs: s.regs.update(15, flag), ..s },
                None,
            )
        },
        Instruction::SkipKeyPressed { x } => (
            if s.regs[x as int] < 16 && spec_key_pressed(s.keys, s.regs[x as int]) {
                ProcState { pc: ((s.pc + 2) % 4096) as u16, ..s }
            } else {
                s
            },
            None,
        ),
        Instruction::SkipNotKeyPressed { x } => (
            if !(s.regs[x as int] < 16 && spec_key_pressed(s.keys, s.regs[x as int])) {
                ProcState { pc: ((s.pc + 2) % 4096) as u16, ..s }
            } else {
                s
            },
            None,
        ),
        Instruction::LoadDelayTimerToReg { x } => (
            ProcState { regs: s.regs.update(x as int, s.delay), ..s },
            None,
        ),
        Instruction::LoadNextKeyPress { x } => (ProcState { waiting: Some(x), ..s }, None),
        Instruction::LoadRegToDelayTimer { x } => (
            ProcState { delay: s.regs[x as int], ..s },
            None,
        ),
        Instruction::LoadRegToSoundTimer { x } => (
            ProcState { sound: s.regs[x as int], ..s },
            None,
        ),
        Instruction::AddRegToPointer { x } => (
            ProcState { pointer: ((s.pointer + s.regs[x as int]) % 4096) as u16, ..s },
            None,
        ),
        Instruction::LoadDigitSpriteToPointer { x } => (
            ProcState { pointer: (5 * s.regs[x as int]) as u16, ..s },
            None,
        ),
        Instruction::LoadDecimalDigitsToPointer { x } => (
            ProcState {
                memory: s.memory.update(s.pointer as int, ((x / 100) % 10) as u8).update(
                    ((s.pointer + 1) % 4096) as int,
                    ((x / 10) % 10) as u8,
                ).update(((s.pointer + 2) % 4096) as int, (x % 10) as u8),
                ..s
            },
            None,
        ),
        Instruction::WriteRegToPointer { x } => (
            ProcState { memory: spec_write_regs(s.memory, s.regs, s.pointer, (x + 1) as nat), ..s },
            None,
        ),
        Instruction::ReadRegFromPointer { x } => (
            ProcState { regs: spec_read_regs(s.regs, s.memory, s.pointer, (x + 1) as nat), ..s },
            None,
        ),
        Instruction::Unknown { byte1, byte2 } => (
            s,
            Some(ExecutionError::UnknownOpcode { byte1, byte2 }),
        ),
    }
}

/// One engine step: the state afterwards and what the call reports. A
/// terminated machine stays terminated and reports so; a machine latched in
/// key-wait is left untouched; otherwise the instruction under the program
/// counter is decoded (an `Unknown` pattern is a fatal error and changes
/// nothing), the program counter advances by 2 first, and the instruction
/// executes.
pub open spec fn spec_step(s: ProcState, rnd: u8) -> (ProcState, Result<bool, ExecutionError>) {
    if s.exit {
        (s, Ok(true))
    } else if s.waiting is Some {
        (s, Ok(false))
    } else {
        let byte1 = s.memory[s.pc as int];
        let byte2 = s.memory[((s.pc + 1) % 4096) as int];
        let instr = spec_decode(byte1, byte2);
        if instr is Unknown {
            (s, Err(ExecutionError::UnknownOpcode { byte1, byte2 }))
        } else {
            let advanced = ProcState { pc: ((s.pc + 2) % 4096) as u16, ..s };
            let (s2, e) = spec_execute(advanced, instr, s.pc, rnd);
            match e {
                Some(err) => (s2, Err(err)),
                None => (s2, Ok(s2.exit)),
            }
        }
    }
}

/// The state after an external timer tick: both timers move one step toward
/// zero and stop there.
pub open spec fn spec_tick(s: ProcState) -> ProcState {
    ProcState {
        delay: if s.delay > 0 {
            (s.delay - 1) as u8
        } else {
            0u8
        },
        sound: if s.sound > 0 {
            (s.sound - 1) as u8
        } else {
            0u8
        },
        ..s
    }
}

/// The state after the keypad reports the mask `keys`. If the machine is
/// latched in key-wait and some key is newly pressed (set now, clear
/// before), the lowest-numbered such key's number lands in the destined
/// register and the latch clears.
pub open spec fn spec_set_keys(s: ProcState, keys: Keys) -> ProcState {
    let pressed = keys & !s.keys;
    match s.waiting {
        Some(x) => if pressed != 0 {
            ProcState {
                regs: s.regs.update(x as int, spec_lowest_key(pressed)),
                waiting: None,
                keys,
                ..s
            }
        } else {
            ProcState { keys, ..s }
        },
        None => ProcState { keys, ..s },
    }
}

/// Idempotent termination: a step of a terminated machine reports
/// termination and moves nothing, whatever byte the generator would draw.
pub proof fn lemma_step_after_termination(s: ProcState, rnd: u8)
    requires
        s.exit,
    ensures
        spec_step(s, rnd) == (s, Ok::<bool, ExecutionError>(true)),
{
}

/// Key-wait blocks: a step of a machine latched in key-wait reports that it
/// is not terminated and decodes and executes nothing, whatever byte the
/// generator would draw.
pub proof fn lemma_step_while_waiting(s: ProcState, rnd: u8)
    requires
        !s.exit,
        s.waiting is Some,
    ensures
        spec_step(s, rnd) == (s, Ok::<bool, ExecutionError>(false)),
{
}

/// Key-wait resolution: reporting keys to a machine latched in key-wait
/// stores the lowest-numbered newly pressed key (set now, clear before) in
/// the destined register and clears the latch; with no newly pressed key
/// only the held-keys mask changes.
pub proof fn lemma_key_wait_resolution(s: ProcState, keys: Keys)
    requires
        s.wf(),
        s.waiting is Some,
    ensures
        (exists|i: u8| i < 16 && spec_key_pressed(keys, i) && !spec_key_pressed(s.keys, i)) ==> ({
            let x = s.waiting.unwrap();
            let k = spec_set_keys(s, keys).regs[x as int];
            &&& spec_set_keys(s, keys) == (ProcState {
                regs: s.regs.update(x as int, k),
                waiting: None,
                keys,
                ..s
            })
            &&& k < 16
            &&& spec_key_pressed(keys, k)
            &&& !spec_key_pressed(s.keys, k)
            &&& forall|j: u8| j < k ==> !(spec_key_pressed(keys, j) && !spec_key_pressed(s.keys, j))
        }),
        !(exists|i: u8| i < 16 && spec_key_pressed(keys, i) && !spec_key_pressed(s.keys, i))
            ==> spec_set_keys(s, keys) == (ProcState { keys, ..s }),
{
    let pressed = keys & !s.keys;
    let x = s.waiting.unwrap();
    if exists|i: u8| i < 16 && spec_key_pressed(keys, i) && !spec_key_pressed(s.keys, i) {
        let i = choose|i: u8| i < 16 && spec_key_pressed(keys, i) && !spec_key_pressed(s.keys, i);
        crate::key::lemma_newly_pressed(keys, s.keys, i);
        assert(spec_key_pressed(pressed, i));
        assert(pressed != 0) by {
            if pressed == 0 {
                assert(0u16 & spec_key_mask(i) == 0) by (bit_vector);
            }
        }
        crate::key::lemma_lowest_key_from(pressed, 0);
        let k = spec_lowest_key(pressed);
        crate::key::lemma_newly_pressed(keys, s.keys, k);
        assert forall|j: u8| j < k implies !(spec_key_pressed(keys, j) && !spec_key_pressed(
            s.keys,
            j,
        )) by {
            crate::key::lemma_newly_pressed(keys, s.keys, j);
        }
    } else {
        if pressed != 0 {
            crate::key::lemma_nonzero_has_key(pressed);
            let i = choose|i: u8| i < 16 && spec_key_pressed(pressed, i);
            crate::key::lemma_newly_pressed(keys, s.keys, i);
        }
    }
}

/// A vector of `n` copies of `value`.
fn filled<T: Copy>(value: T, n: usize) -> (v: Vec<T>)
    ensures
        v@ == Seq::new(n as nat, |i| value),
{
    let mut v: Vec<T> = Vec::new();
    let mut i: usize = 0;
    while i < n
        invariant
            i <= n,
            v@ =~= Seq::new(i as nat, |k| value),
        decreases n - i,
    {
        v.push(value);
        i = i + 1;
    }
    proof {
        assert(v@ =~= Seq::new(n as nat, |i| value));
    }
    v
}

/// One byte of the digit-sprite table.
fn digit_sprite_byte(i: usize) -> (r: u8)
    requires
        i < 80,
    ensures
        r == spec_digit_sprite_byte(i as int),
{
    match i {
        0 => 0xF0,
        1 => 0x90,
        2 => 0x90,
        3 => 0x90,
        4 => 0xF0,
        5 => 0x20,
        6 => 0x60,
        7 => 0x20,
        8 => 0x20,
        9 => 0x70,
        10 => 0xF0,
        11 => 0x10,
        12 => 0xF0,
        13 => 0x80,
        14 => 0xF0,
        15 => 0xF0,
        16 => 0x10,
        17 => 0xF0,
        18 => 0x10,
        19 => 0xF0,
        20 => 0x90,
        21 => 0x90,
        22 => 0xF0,
        23 => 0x10,
        24 => 0x10,
        25 => 0xF0,
        26 => 0x80,
        27 => 0xF0,
        28 => 0x10,
        29 => 0xF0,
        30 => 0xF0,
        31 => 0x80,
        32 => 0xF0,
        33 => 0x90,
        34 => 0xF0,
        35 => 0xF0,
        36 => 0x10,
        37 => 0x20,
        38 => 0x40,
        39 => 0x40,
        40 => 0xF0,
        41 => 0x90,
        42 => 0xF0,
        43 => 0x90,
        44 => 0xF0,
        45 => 0xF0,
        46 => 0x90,
        47 => 0xF0,
        48 => 0x10,
        49 => 0xF0,
        50 => 0xF0,
        51 => 0x90,
        52 => 0xF0,
        53 => 0x90,
        54 => 0x90,
        55 => 0xE0,
        56 => 0x90,
        57 => 0xE0,
        58 => 0x90,
        59 => 0xE0,
        60 => 0xF0,
        61 => 0x80,
        62 => 0x80,
        63 => 0x80,
        64 => 0xF0,
        65 => 0xE0,
        66 => 0x90,
        67 => 0x90,
        68 => 0x90,
        69 => 0xE0,
        70 => 0xF0,
        71 => 0x80,
        72 => 0xF0,
        73 => 0x80,
        74 => 0xF0,
        75 => 0xF0,
        76 => 0x80,
        77 => 0xF0,
        78 => 0x80,
        _ => 0x80,
    }
}

/// The digit-sprite table as bytes.
fn digit_sprites() -> (v: Vec<u8>)
    ensures
        v@ == spec_digit_sprites(),
{
    let mut v: Vec<u8> = Vec::with_capacity(80);
    let mut i: usize = 0;
    while i < 80
        invariant
            i <= 80,
            v@.len() == i,
            forall|j: int| 0 <= j < i ==> v@[j] == spec_digit_sprite_byte(j),
        decreases 80 - i,
    {
        v.push(digit_sprite_byte(i));
        i = i + 1;
    }
    proof {
        assert(v@ =~= spec_digit_sprites());
    }
    v
}

/// Relies on `fastrand::u8` for a random byte; nothing is assumed about the
/// value drawn.
#[verifier::external_body]
fn random_byte() -> u8 {
    fastrand::u8(0..=u8::MAX)
}

/// The register file and the special registers.
struct Registers {
    general: Vec<u8>,
    pointer: u16,
    program_counter: u16,
    stack_pointer: usize,
    delay_timer: u8,
    sound_timer: u8,
}

/// The key-wait latch.
enum WaitForKey {
    NotWaiting,
    Waiting { x: u8 },
}

/// The machine. Construct once, `initialize` with a program image, then
/// drive with `run_next_instruction`, `tick_timers` and `set_keys`.
pub struct Processor<S: LogSource> {
    logger: Logger<S>,
    registers: Registers,
    display: Vec<u8>,
    memory: Vec<u8>,
    stack: Vec<u16>,
    keys: Keys,
    wait_for_key: WaitForKey,
    exit: bool,
}

impl<S: LogSource> View for Processor<S> {
    type V = ProcState;

    closed spec fn view(&self) -> ProcState {
        ProcState {
            regs: self.registers.general@,
            pointer: self.registers.pointer,
            pc: self.registers.program_counter,
            sp: self.registers.stack_pointer as nat,
            delay: self.registers.delay_timer,
            sound: self.registers.sound_timer,
            memory: self.memory@,
            display: self.display@,
            stack: self.stack@,
            keys: self.keys,
            waiting: match self.wait_for_key {
                WaitForKey::NotWaiting => None,
                WaitForKey::Waiting { x } => Some(x),
            },
            exit: self.exit,
        }
    }
}

impl<S: LogSource> Processor<S> {
    /// A powered-on machine with zeroed state, logging to `logger`.
    pub fn new(mut logger: Logger<S>) -> (r: Self)
        ensures
            r@ == spec_power_on(),
            r@.wf(),
    {
        logger.log("Processor::new");
        let r = Self {
            logger,
            registers: Registers {
                general: filled(0u8, 16),
                pointer: 0,
                program_counter: 0,
                stack_pointer: 0,
                delay_timer: 0,
                sound_timer: 0,
            },
            display: filled(0u8, 256),
            memory: filled(0u8, 4096),
            stack: filled(0u16, 8),
            keys: 0,
            wait_for_key: WaitForKey::NotWaiting,
            exit: false,
        };
        proof {
            assert(r@ =~= spec_power_on());
        }
        r
    }

    /// Reset the whole machine, install the digit-sprite table in low
    /// memory, copy `program` to the load address 0x200 and point the
    /// program counter there.
    pub fn initialize(&mut self, program: &[u8])
        requires
            program@.len() <= 3584,
        ensures
            final(self)@ == spec_initialized(program@),
            final(self)@.wf(),
    {
        self.logger.log("Processor::initialize");
        self.registers.general = filled(0u8, 16);
        self.registers.pointer = 0;
        self.registers.program_counter = 0x200;
        self.registers.stack_pointer = 0;
        self.registers.delay_timer = 0;
        self.registers.sound_timer = 0;
        self.display = filled(0u8, 256);
        self.stack = filled(0u16, 8);
        self.keys = 0;
        self.wait_for_key = WaitForKey::NotWaiting;
        self.exit = false;

        self.memory = filled(0u8, 4096);
        let sprites = digit_sprites();
        let mut i: usize = 0;
        while i < 80
            invariant
                i <= 80,
                sprites@ == spec_digit_sprites(),
                self.memory@.len() == 4096,
                self@ =~= (ProcState { memory: self@.memory, ..spec_initialized(program@) }),
                forall|a: int| 0 <= a < i ==> self.memory@[a] == spec_digit_sprites()[a],
                forall|a: int| i <= a < 4096 ==> self.memory@[a] == 0u8,
            decreases 80 - i,
        {
            self.memory[i] = sprites[i];
            i = i + 1;
        }
        let mut i: usize = 0;
        while i < program.len()
            invariant
                i <= program@.len() <= 3584,
                self.memory@.len() == 4096,
                self@ =~= (ProcState { memory: self@.memory, ..spec_initialized(program@) }),
                forall|a: int| 0 <= a < 80 ==> self.memory@[a] == spec_digit_sprites()[a],
                forall|a: int| 0x200 <= a < 0x200 + i ==> self.memory@[a] == program@[a - 0x200],
                forall|a: int|
                    80 <= a < 4096 && !(0x200 <= a < 0x200 + i) ==> self.memory@[a] == 0u8,
            decreases program@.len() - i,
        {
            self.memory[0x200 + i] = program[i];
            i = i + 1;
        }
        proof {
            let t = spec_initialized(program@);
            assert forall|a: int| 0 <= a < 4096 implies self@.memory[a] == t.memory[a] by {}
            assert(self@.memory =~= t.memory);
            assert(self@.regs =~= t.regs);
            assert(self@.display =~= t.display);
            assert(self@.stack =~= t.stack);
            assert(self@ =~= t);
        }
    }

    /// Report whether the sound timer is running.
    pub fn has_sound(&self) -> (r: bool)
        ensures
            r == (self@.sound > 0),
    {
        self.registers.sound_timer > 0
    }

    /// Move both timers one step toward zero; invoked once per external
    /// frame, decoupled from instruction dispatch.
    pub fn tick_timers(&mut self)
        ensures
            final(self)@ == spec_tick(old(self)@),
    {
        if self.registers.delay_timer > 0 {
            self.registers.delay_timer = self.registers.delay_timer - 1;
        }
        if self.registers.sound_timer > 0 {
            self.registers.sound_timer = self.registers.sound_timer - 1;
        }
        proof {
            assert(self@ =~= spec_tick(old(self)@));
        }
    }

    /// Report the complete held-keys mask. While the machine is latched in
    /// key-wait, a newly pressed key (set now, clear before) resolves the
    /// wait: the lowest such key's number lands in the destined register.
    pub fn set_keys(&mut self, keys: Keys)
        requires
            old(self)@.wf(),
        ensures
            final(self)@ == spec_set_keys(old(self)@, keys),
            final(self)@.wf(),
    {
        if keys != self.keys {
            self.logger.log("Processor::set_keys: keys changed");
        }
        if let WaitForKey::Waiting { x } = self.wait_for_key {
            let pressed = keys & !self.keys;
            if pressed != 0 {
                self.registers.general[x as usize] = keys_to_key_number(pressed);
                self.wait_for_key = WaitForKey::NotWaiting;
            }
        }
        self.keys = keys;
        proof {
            assert(self@ =~= spec_set_keys(old(self)@, keys));
        }
    }

    /// Borrow the framebuffer: 64 by 32 pixels, bit-packed row-major.
    pub fn get_display<'a>(&'a self) -> (r: Display<'a>)
        requires
            self@.wf(),
        ensures
            r.data@ == self@.display,
            r.width == 64,
            r.height == 32,
            r.wf(),
    {
        Display::new(self.memory_display_slice(), 64, 32)
    }

    /// The framebuffer bytes.
    fn memory_display_slice<'a>(&'a self) -> (r: &'a [u8])
        ensures
            r@ == self@.display,
    {
        self.display.as_slice()
    }

    /// Advance the machine by exactly one instruction, or report why it
    /// cannot: `Ok(true)` when the machine is (or just became) terminated,
    /// `Ok(false)` after an ordinary instruction or while the key-wait latch
    /// holds, and `Err` on a fatal condition. Once terminated, further calls
    /// return `Ok(true)` and change nothing.
    pub fn run_next_instruction(&mut self) -> (r: Result<bool, ExecutionError>)
        requires
            old(self)@.wf(),
        ensures
            final(self)@.wf(),
            exists|rnd: u8|
                ({
                    &&& final(self)@ == (#[trigger] spec_step(old(self)@, rnd)).0
                    &&& r == spec_step(old(self)@, rnd).1
                }),
            old(self)@.exit ==> final(self)@ == old(self)@ && r == Ok::<bool, ExecutionError>(true),
            !old(self)@.exit && old(self)@.waiting is Some ==> final(self)@ == old(self)@ && r
                == Ok::<bool, ExecutionError>(false),
    {
        if self.exit {
            proof {
                let step = spec_step(old(self)@, 0u8);
                assert(self@ == step.0 && Ok::<bool, ExecutionError>(true) == step.1);
            }
            return Ok(true);
        }
        if let WaitForKey::Waiting { x: _ } = self.wait_for_key {
            proof {
                let step = spec_step(old(self)@, 0u8);
                assert(self@ == step.0 && Ok::<bool, ExecutionError>(false) == step.1);
            }
            return Ok(false);
        }

        let pc = self.registers.program_counter;
        let byte1 = self.memory[pc as usize];
        let byte2 = self.memory[((pc as usize) + 1) % 4096];
        let instruction = decode_instruction(byte1, byte2);
        if let Instruction::Unknown { byte1, byte2 } = instruction {
            self.logger.log("Processor::run_next_instruction: unknown opcode");
            proof {
                let step = spec_step(old(self)@, 0u8);
                assert(self@ == step.0);
                assert(Err::<bool, ExecutionError>(
                    ExecutionError::UnknownOpcode { byte1, byte2 },
                ) == step.1);
            }
            return Err(ExecutionError::UnknownOpcode { byte1, byte2 });
        }
        self.logger.log("Processor::run_next_instruction: executing");
        self.registers.program_counter = (pc + 2) % 4096;
        let e = self.execute_instruction(instruction, pc);
        proof {
            let adv = ProcState { pc: ((old(self)@.pc + 2) % 4096) as u16, ..old(self)@ };
            let rnd = choose|rnd: u8|
                ({
                    &&& self@ == (#[trigger] spec_execute(adv, instruction, pc, rnd)).0
                    &&& e == spec_execute(adv, instruction, pc, rnd).1
                });
            let step = spec_step(old(self)@, rnd);
            assert(self@ == step.0);
        }
        match e {
            Some(err) => Err(err),
            None => Ok(self.exit),
        }
    }

    /// Execute a control-flow or conditional-skip instruction. `prev_pc` is where the
    /// instruction was fetched from.
    #[verifier::rlimit(100)]
    fn execute_flow(&mut self, instruction: Instruction, prev_pc: u16) -> (e: Option<
        ExecutionError,
    >)
        requires
            old(self)@.wf(),
            wf_instruction(instruction),
            ({
            ||| instruction is ClearDisplay
            ||| instruction is Return
            ||| instruction is Exit
            ||| instruction is Jump
            ||| instruction is Call
            ||| instruction is SkipRegEqualsImm
            ||| instruction is SkipRegNotEqualsImm
            ||| instruction is SkipRegEqualsReg
            ||| instruction is SkipRegNotEqualsReg
            ||| instruction is SkipKeyPressed
            ||| instruction is SkipNotKeyPressed
            }),
        ensures
            final(self)@.wf(),
            exists|rnd: u8|
                ({
                    &&& final(self)@ == (#[trigger] spec_execute(old(self)@, instruction, prev_pc, rnd)).0
                    &&& e == spec_execute(old(self)@, instruction, prev_pc, rnd).1
                }),
    {
        let ghost s0 = self@;
        match instruction {
            Instruction::ClearDisplay => {
                self.display = filled(0u8, 256);
                proof {
                    assert(self@ =~= spec_execute(s0, instruction, prev_pc, 0u8).0);
                }
            },
            Instruction::Return => {
                if self.registers.stack_pointer == 0 {
                    proof {
                        assert(self@ == spec_execute(s0, instruction, prev_pc, 0u8).0);
                    }
                    return Some(ExecutionError::StackUnderflow);
                }
                self.registers.stack_pointer = self.registers.stack_pointer - 1;
                self.registers.program_counter = self.stack[self.registers.stack_pointer];
                proof {
                    assert(self@ =~= spec_execute(s0, instruction, prev_pc, 0u8).0);
                }
            },
            Instruction::Exit => {
                self.exit = true;
                proof {
                    assert(self@ =~= spec_execute(s0, instruction, prev_pc, 0u8).0);
                }
            },
            Instruction::Jump { addr } => {
                if addr == prev_pc {
                    self.logger.log("Processor::execute_instruction: jump loop, exiting");
                    self.exit = true;
                }
                self.registers.program_counter = addr;
                proof {
                    assert(self@ =~= spec_execute(s0, instruction, prev_pc, 0u8).0);
                }
            },
            Instruction::Call { addr } => {
                if self.registers.stack_pointer == 8 {
                    proof {
                        assert(self@ == spec_execute(s0, instruction, prev_pc, 0u8).0);
                    }
                    return Some(ExecutionError::StackOverflow);
                }
                self.stack[self.registers.stack_pointer] = self.registers.program_counter;
                self.registers.stack_pointer = self.registers.stack_pointer + 1;
                self.registers.program_counter = addr;
                proof {
                    assert(self@ =~= spec_execute(s0, instruction, prev_pc, 0u8).0);
                }
            },
            Instruction::SkipRegEqualsImm { x, byte } => {
                if self.registers.general[x as usize] == byte {
                    self.registers.program_counter = (self.registers.program_counter + 2) % 4096;
                }
                proof {
                    assert(self@ =~= spec_execute(s0, instruction, prev_pc, 0u8).0);
                }
            },
            Instruction::SkipRegNotEqualsImm { x, byte } => {
                if self.registers.general[x as usize] != byte {
                    self.registers.program_counter = (self.registers.program_counter + 2) % 4096;
                }
                proof {
                    assert(self@ =~= spec_execute(s0, instruction, prev_pc, 0u8).0);
                }
            },
            Instruction::SkipRegEqualsReg { x, y } => {
                if self.registers.general[x as usize] == self.registers.general[y as usize] {
                    self.registers.program_counter = (self.registers.program_counter + 2) % 4096;
                }
                proof {
                    assert(self@ =~= spec_execute(s0, instruction, prev_pc, 0u8).0);
                }
            },
            Instruction::SkipRegNotEqualsReg { x, y } => {
                if self.registers.general[x as usize] != self.registers.general[y as usize] {
                    self.registers.program_counter = (self.registers.program_counter + 2) % 4096;
                }
                proof {
                    assert(self@ =~= spec_execute(s0, instruction, prev_pc, 0u8).0);
                }
            },
            Instruction::SkipKeyPressed { x } => {
                let vx = self.registers.general[x as usize];
                if vx < 16 && self.keys & key_number_to_keys(vx) != 0 {
                    self.registers.program_counter = (self.registers.program_counter + 2) % 4096;
                }
                proof {
                    assert(self@ =~= spec_execute(s0, instruction, prev_pc, 0u8).0);
                }
            },
            Instruction::SkipNotKeyPressed { x } => {
                let vx = self.registers.general[x as usize];
                if !(vx < 16 && self.keys & key_number_to_keys(vx) != 0) {
                    self.registers.program_counter = (self.registers.program_counter + 2) % 4096;
                }
                proof {
                    assert(self@ =~= spec_execute(s0, instruction, prev_pc, 0u8).0);
                }
            },
            _ => {
                proof {
                    assert(false);
                }
            },
        }
        None
    }

    /// Execute a register load, logic or arithmetic instruction. `prev_pc` is where the
    /// instruction was fetched from.
    #[verifier::rlimit(100)]
    fn execute_arith(&mut self, instruction: Instruction, prev_pc: u16) -> (e: Option<
        ExecutionError,
    >)
        requires
            old(self)@.wf(),
            wf_instruction(instruction),
            ({
            ||| instruction is LoadImmToReg
            ||| instruction is AddImmToReg
            ||| instruction is LoadRegToReg
            ||| instruction is OrReg
            ||| instruction is AndReg
            ||| instruction is XorReg
            ||| instruction is AddReg
            ||| instruction is SubReg
            ||| instruction is ShiftRight
            ||| instruction is SubNegReg
            ||| instruction is ShiftLeft
            }),
        ensures
            final(self)@.wf(),
            exists|rnd: u8|
                ({
                    &&& final(self)@ == (#[trigger] spec_execute(old(self)@, instruction, prev_pc, rnd)).0
                    &&& e == spec_execute(old(self)@, instruction, prev_pc, rnd).1
                }),
    {
        let ghost s0 = self@;
        match instruction {
            Instruction::LoadImmToReg { x, byte } => {
                self.registers.general[x as usize] = byte;
                proof {
                    assert(self@ =~= spec_execute(s0, instruction, prev_pc, 0u8).0);
                }
            },
            Instruction::AddImmToReg { x, byte } => {
                let vx = self.registers.general[x as usize];
                self.registers.general[x as usize] = ((vx as u16 + byte as u16) % 256) as u8;
                proof {
                    assert(self@ =~= spec_execute(s0, instruction, prev_pc, 0u8).0);
                }
            },
            Instruction::LoadRegToReg { x, y } => {
                self.registers.general[x as usize] = self.registers.general[y as usize];
                proof {
                    assert(self@ =~= spec_execute(s0, instruction, prev_pc, 0u8).0);
                }
            },
            Instruction::OrReg { x, y } => {
                let vy = self.registers.general[y as usize];
                let vx = self.registers.general[x as usize];
                self.registers.general[x as usize] = vx | vy;
                proof {
                    assert(self@ =~= spec_execute(s0, instruction, prev_pc, 0u8).0);
                }
            },
            Instruction::AndReg { x, y } => {
                let vy = self.registers.general[y as usize];
                let vx = self.registers.general[x as usize];
                self.registers.general[x as usize] = vx & vy;
                proof {
                    assert(self@ =~= spec_execute(s0, instruction, prev_pc, 0u8).0);
                }
            },
            Instruction::XorReg { x, y } => {
                let vy = self.registers.general[y as usize];
                let vx = self.registers.general[x as usize];
                self.registers.general[x as usize] = vx ^ vy;
                proof {
                    assert(self@ =~= spec_execute(s0, instruction, prev_pc, 0u8).0);
                }
            },
            Instruction::AddReg { x, y } => {
                let vx = self.registers.general[x as usize] as u16;
                let vy = self.registers.general[y as usize] as u16;
                let total = vx + vy;
                self.registers.general[x as usize] = (total % 256) as u8;
                self.registers.general[15] = if total > 255 {
                    1
                } else {
                    0
                };
                proof {
                    assert(self@ =~= spec_execute(s0, instruction, prev_pc, 0u8).0);
                }
            },
            Instruction::SubReg { x, y } => {
                let vx = self.registers.general[x as usize];
                let vy = self.registers.general[y as usize];
                self.registers.general[x as usize] = (((vx as u16) + 256 - (vy as u16)) % 256) as u8;
                self.registers.general[15] = if vx >= vy {
                    1
                } else {
                    0
                };
                proof {
                    assert(self@ =~= spec_execute(s0, instruction, prev_pc, 0u8).0);
                }
            },
            Instruction::ShiftRight { x } => {
                let vx = self.registers.general[x as usize];
                self.registers.general[x as usize] = vx / 2;
                self.registers.general[15] = vx % 2;
                proof {
                    assert(self@ =~= spec_execute(s0, instruction, prev_pc, 0u8).0);
                }
            },
            Instruction::SubNegReg { x, y } => {
                let vx = self.registers.general[x as usize];
                let vy = self.registers.general[y as usize];
                self.registers.general[x as usize] = (((vy as u16) + 256 - (vx as u16)) % 256) as u8;
                self.registers.general[15] = if vy >= vx {
                    1
                } else {
                    0
                };
                proof {
                    assert(self@ =~= spec_execute(s0, instruction, prev_pc, 0u8).0);
                }
            },
            Instruction::ShiftLeft { x } => {
                let vx = self.registers.general[x as usize];
                self.registers.general[x as usize] = (((vx as u16) * 2) % 256) as u8;
                self.registers.general[15] = vx / 128;
                proof {
                    assert(self@ =~= spec_execute(s0, instruction, prev_pc, 0u8).0);
                }
            },
            _ => {
                proof {
                    assert(false);
                }
            },
        }
        None
    }

    /// Execute a pointer, timer, keypad, random or memory-block instruction. `prev_pc` is where the
    /// instruction was fetched from.
    #[verifier::rlimit(100)]
    fn execute_misc(&mut self, instruction: Instruction, prev_pc: u16) -> (e: Option<
        ExecutionError,
    >)
        requires
            old(self)@.wf(),
            wf_instruction(instruction),
            ({
            ||| instruction is LoadImmToPointer
            ||| instruction is JumpOffset
            ||| instruction is Random
            ||| instruction is Draw
            ||| instruction is LoadDelayTimerToReg
            ||| instruction is LoadNextKeyPress
            ||| instruction is LoadRegToDelayTimer
            ||| instruction is LoadRegToSoundTimer
            ||| instruction is AddRegToPointer
            ||| instruction is LoadDigitSpriteToPointer
            ||| instruction is LoadDecimalDigitsToPointer
            ||| instruction is WriteRegToPointer
            ||| instruction is ReadRegFromPointer
            }),
        ensures
            final(self)@.wf(),
            exists|rnd: u8|
                ({
                    &&& final(self)@ == (#[trigger] spec_execute(old(self)@, instruction, prev_pc, rnd)).0
                    &&& e == spec_execute(old(self)@, instruction, prev_pc, rnd).1
                }),
    {
        let ghost s0 = self@;
        match instruction {
            Instruction::LoadImmToPointer { addr } => {
                self.registers.pointer = addr;
                proof {
                    assert(self@ =~= spec_execute(s0, instruction, prev_pc, 0u8).0);
                }
            },
            Instruction::JumpOffset { addr } => {
                self.registers.program_counter = ((self.registers.general[0] as u16) + addr) % 4096;
                proof {
                    assert(self@ =~= spec_execute(s0, instruction, prev_pc, 0u8).0);
                }
            },
            Instruction::Random { x, byte } => {
                let rnd = random_byte();
                self.registers.general[x as usize] = rnd & byte;
                proof {
                    assert(self@ =~= spec_execute(s0, instruction, prev_pc, rnd).0);
                }
            },
            Instruction::Draw { x, y, nibble } => {
                self.draw(x, y, nibble);
                proof {
                    lemma_blit_len(s0.display, s0.memory, s0.pointer, s0.regs[x as int], s0.regs[y as int], (8 * nibble) as nat);
                    assert(self@ =~= spec_execute(s0, instruction, prev_pc, 0u8).0);
                }
            },
            Instruction::LoadDelayTimerToReg { x } => {
                self.registers.general[x as usize] = self.registers.delay_timer;
                proof {
                    assert(self@ =~= spec_execute(s0, instruction, prev_pc, 0u8).0);
                }
            },
            Instruction::LoadNextKeyPress { x } => {
                self.wait_for_key = WaitForKey::Waiting { x };
                proof {
                    assert(self@ =~= spec_execute(s0, instruction, prev_pc, 0u8).0);
                }
            },
            Instruction::LoadRegToDelayTimer { x } => {
                self.registers.delay_timer = self.registers.general[x as usize];
                proof {
                    assert(self@ =~= spec_execute(s0, instruction, prev_pc, 0u8).0);
                }
            },
            Instruction::LoadRegToSoundTimer { x } => {
                self.registers.sound_timer = self.registers.general[x as usize];
                proof {
                    assert(self@ =~= spec_execute(s0, instruction, prev_pc, 0u8).0);
                }
            },
            Instruction::AddRegToPointer { x } => {
                let vx = self.registers.general[x as usize] as u16;
                self.registers.pointer = (self.registers.pointer + vx) % 4096;
                proof {
                    assert(self@ =~= spec_execute(s0, instruction, prev_pc, 0u8).0);
                }
            },
            Instruction::LoadDigitSpriteToPointer { x } => {
                let vx = self.registers.general[x as usize] as u16;
                self.registers.pointer = 5 * vx;
                proof {
                    assert(self@ =~= spec_execute(s0, instruction, prev_pc, 0u8).0);
                }
            },
            Instruction::LoadDecimalDigitsToPointer { x } => {
                let ptr = self.registers.pointer as usize;
                self.memory[ptr] = (x / 100) % 10;
                self.memory[(ptr + 1) % 4096] = (x / 10) % 10;
                self.memory[(ptr + 2) % 4096] = x % 10;
                proof {
                    assert(self@ =~= spec_execute(s0, instruction, prev_pc, 0u8).0);
                }
            },
            Instruction::WriteRegToPointer { x } => {
                self.write_regs_to_memory(x);
                proof {
                    lemma_write_regs_len(s0.memory, s0.regs, s0.pointer, (x + 1) as nat);
                    assert(self@ =~= spec_execute(s0, instruction, prev_pc, 0u8).0);
                }
            },
            Instruction::ReadRegFromPointer { x } => {
                self.read_regs_from_memory(x);
                proof {
                    lemma_read_regs_len(s0.regs, s0.memory, s0.pointer, (x + 1) as nat);
                    assert(self@ =~= spec_execute(s0, instruction, prev_pc, 0u8).0);
                }
            },
            _ => {
                proof {
                    assert(false);
                }
            },
        }
        None
    }

    /// Execute one decoded, non-`Unknown` instruction against the state with
    /// the already-advanced program counter; `prev_pc` is where it was
    /// fetched from.
    fn execute_instruction(&mut self, instruction: Instruction, prev_pc: u16) -> (e: Option<
        ExecutionError,
    >)
        requires
            old(self)@.wf(),
            wf_instruction(instruction),
            !(instruction is Unknown),
        ensures
            final(self)@.wf(),
            exists|rnd: u8|
                ({
                    &&& final(self)@ == (#[trigger] spec_execute(old(self)@, instruction, prev_pc, rnd)).0
                    &&& e == spec_execute(old(self)@, instruction, prev_pc, rnd).1
                }),
    {
        match instruction {
            Instruction::ClearDisplay
            | Instruction::Return
            | Instruction::Exit
            | Instruction::Jump { .. }
            | Instruction::Call { .. }
            | Instruction::SkipRegEqualsImm { .. }
            | Instruction::SkipRegNotEqualsImm { .. }
            | Instruction::SkipRegEqualsReg { .. }
            | Instruction::SkipRegNotEqualsReg { .. }
            | Instruction::SkipKeyPressed { .. }
            | Instruction::SkipNotKeyPressed { .. } => self.execute_flow(
                instruction,
                prev_pc,
            ),
            Instruction::LoadImmToReg { .. }
            | Instruction::AddImmToReg { .. }
            | Instruction::LoadRegToReg { .. }
            | Instruction::OrReg { .. }
            | Instruction::AndReg { .. }
            | Instruction::XorReg { .. }
            | Instruction::AddReg { .. }
            | Instruction::SubReg { .. }
            | Instruction::ShiftRight { .. }
            | Instruction::SubNegReg { .. }
            | Instruction::ShiftLeft { .. } => self.execute_arith(
                instruction,
                prev_pc,
            ),
            _ => self.execute_misc(instruction, prev_pc),
        }
    }

    /// Store registers 0 through `x` at successive memory addresses from the
    /// pointer register, wrapping at the end of memory.
    fn write_regs_to_memory(&mut self, x: u8)
        requires
            old(self)@.wf(),
            x < 16,
        ensures
            final(self)@ == (ProcState {
                memory: spec_write_regs(old(self)@.memory, old(self)@.regs, old(self)@.pointer, (x + 1) as nat),
                ..old(self)@
            }),
    {
        let ptr = self.registers.pointer as usize;
        let mut i: usize = 0;
        while i <= x as usize
            invariant
                old(self)@.wf(),
                i <= x + 1,
                x < 16,
                ptr == old(self)@.pointer,
                self@.memory.len() == 4096,
                self@ =~= (ProcState {
                    memory: spec_write_regs(
                        old(self)@.memory,
                        old(self)@.regs,
                        old(self)@.pointer,
                        i as nat,
                    ),
                    ..old(self)@
                }),
            decreases x + 1 - i,
        {
            self.memory[(ptr + i) % 4096] = self.registers.general[i];
            i = i + 1;
            proof {
                lemma_write_regs_len(old(self)@.memory, old(self)@.regs, old(self)@.pointer, i as nat);
                assert(self@.memory =~= spec_write_regs(
                    old(self)@.memory,
                    old(self)@.regs,
                    old(self)@.pointer,
                    i as nat,
                ));
            }
        }
        proof {
            assert(self@ =~= ProcState {
                memory: spec_write_regs(old(self)@.memory, old(self)@.regs, old(self)@.pointer, (x + 1) as nat),
                ..old(self)@
            });
        }
    }

    /// Load registers 0 through `x` from successive memory addresses from
    /// the pointer register, wrapping at the end of memory.
    fn read_regs_from_memory(&mut self, x: u8)
        requires
            old(self)@.wf(),
            x < 16,
        ensures
            final(self)@ == (ProcState {
                regs: spec_read_regs(old(self)@.regs, old(self)@.memory, old(self)@.pointer, (x + 1) as nat),
                ..old(self)@
            }),
    {
        let ptr = self.registers.pointer as usize;
        let mut i: usize = 0;
        while i <= x as usize
            invariant
                old(self)@.wf(),
                i <= x + 1,
                x < 16,
                ptr == old(self)@.pointer,
                self@.regs.len() == 16,
                self@ =~= (ProcState {
                    regs: spec_read_regs(
                        old(self)@.regs,
                        old(self)@.memory,
                        old(self)@.pointer,
                        i as nat,
                    ),
                    ..old(self)@
                }),
            decreases x + 1 - i,
        {
            self.registers.general[i] = self.memory[(ptr + i) % 4096];
            i = i + 1;
            proof {
                lemma_read_regs_len(old(self)@.regs, old(self)@.memory, old(self)@.pointer, i as nat);
                assert(self@.regs =~= spec_read_regs(
                    old(self)@.regs,
                    old(self)@.memory,
                    old(self)@.pointer,
                    i as nat,
                ));
            }
        }
        proof {
            assert(self@ =~= ProcState {
                regs: spec_read_regs(old(self)@.regs, old(self)@.memory, old(self)@.pointer, (x + 1) as nat),
                ..old(self)@
            });
        }
    }

    /// XOR an `nibble`-row sprite read at the pointer register onto the
    /// framebuffer at the position held in registers `x` and `y`, and set
    /// the flag register to 1 exactly when some set pixel was erased.
    fn draw(&mut self, x: u8, y: u8, nibble: u8)
        requires
            old(self)@.wf(),
            x < 16,
            y < 16,
            nibble < 16,
        ensures
            final(self)@ == ({
                let blit = spec_blit(
                    old(self)@.display,
                    old(self)@.memory,
                    old(self)@.pointer,
                    old(self)@.regs[x as int],
                    old(self)@.regs[y as int],
                    nibble,
                );
                ProcState {
                    display: blit.0,
                    regs: old(self)@.regs.update(15, if blit.1 { 1u8 } else { 0u8 }),
                    ..old(self)@
                }
            }),
    {
        let vx = self.registers.general[x as usize];
        let vy = self.registers.general[y as usize];
        let ptr = self.registers.pointer as usize;
        let mut erase = false;
        let ghost d0 = self@.display;
        let ghost mem0 = self@.memory;
        let mut i: u8 = 0;
        while i < nibble
            invariant
                old(self)@.wf(),
                i <= nibble < 16,
                vx == old(self)@.regs[x as int],
                vy == old(self)@.regs[y as int],
                ptr == old(self)@.pointer,
                d0 == old(self)@.display,
                mem0 == old(self)@.memory,
                (self@.display, erase) == spec_blit_upto(d0, mem0, old(self)@.pointer, vx, vy, (8 * i) as nat),
                self@.display.len() == 256,
                self@ =~= (ProcState { display: self@.display, ..old(self)@ }),
            decreases nibble - i,
        {
            let sprite_byte = self.memory[(ptr + i as usize) % 4096];
            let mut j: u8 = 0;
            while j < 8
                invariant
                    old(self)@.wf(),
                    i < nibble < 16,
                    j <= 8,
                    vx == old(self)@.regs[x as int],
                    vy == old(self)@.regs[y as int],
                    ptr == old(self)@.pointer,
                    d0 == old(self)@.display,
                    mem0 == old(self)@.memory,
                    sprite_byte == mem0[((old(self)@.pointer + i) % 4096) as int],
                    (self@.display, erase) == spec_blit_upto(
                        d0,
                        mem0,
                        old(self)@.pointer,
                        vx,
                        vy,
                        (8 * i + j) as nat,
                    ),
                    self@.display.len() == 256,
                    self@ =~= (ProcState { display: self@.display, ..old(self)@ }),
                decreases 8 - j,
            {
                let ghost k = (8 * i + j) as nat;
                proof {
                    vstd::arithmetic::div_mod::lemma_fundamental_div_mod_converse(
                        k as int,
                        8,
                        i as int,
                        j as int,
                    );
                }
                let sprite_bit = (sprite_byte >> (7 - j)) & 1;
                let col = (vx as usize + j as usize) % 64;
                let row = (vy as usize + i as usize) % 32;
                let p: usize = 64 * row + col;
                let byte_index: usize = p / 8;
                let bit_index: u8 = (7 - p % 8) as u8;
                proof {
                    assert(p < 2048);
                    assert(byte_index < 256);
                }
                if sprite_bit == 1 {
                    let before = self.display[byte_index];
                    if (before >> bit_index) & 1 == 1 {
                        erase = true;
                    }
                    self.display[byte_index] = before ^ (1u8 << bit_index);
                }
                j = j + 1;
                proof {
                    assert((self@.display, erase) == spec_blit_upto(
                        d0,
                        mem0,
                        old(self)@.pointer,
                        vx,
                        vy,
                        (8 * i + j) as nat,
                    ));
                }
            }
            i = i + 1;
        }
        self.registers.general[15] = if erase {
            1
        } else {
            0
        };
        proof {
            assert(self@ =~= ({
                let blit = spec_blit(
                    old(self)@.display,
                    old(self)@.memory,
                    old(self)@.pointer,
                    old(self)@.regs[x as int],
                    old(self)@.regs[y as int],
                    nibble,
                );
                ProcState {
                    display: blit.0,
                    regs: old(self)@.regs.update(15, if blit.1 { 1u8 } else { 0u8 }),
                    ..old(self)@
                }
            }));
        }
    }
}

} // verus!
