//! The 16-key keypad: key identifiers, the 16-bit "held keys" bitmask, and
//! the mapping between key numbers and mask bits.

use vstd::prelude::*;

verus! {

/// Bitmask of held keys: bit `i` set means key `i` is held.
pub type Keys = u16;

/// One of the sixteen keypad keys.
#[derive(Debug, Clone, Copy, PartialEq, Eq, Structural)]
pub enum Key {
    _0,
    _1,
    _2,
    _3,
    _4,
    _5,
    _6,
    _7,
    _8,
    _9,
    _A,
    _B,
    _C,
    _D,
    _E,
    _F,
}

/// The number (0-15) of a key.
pub open spec fn spec_key_number(k: Key) -> u8 {
    match k {
        Key::_0 => 0,
        Key::_1 => 1,
        Key::_2 => 2,
        Key::_3 => 3,
        Key::_4 => 4,
        Key::_5 => 5,
        Key::_6 => 6,
        Key::_7 => 7,
        Key::_8 => 8,
        Key::_9 => 9,
        Key::_A => 10,
        Key::_B => 11,
        Key::_C => 12,
        Key::_D => 13,
        Key::_E => 14,
        Key::_F => 15,
    }
}

/// The single-bit mask of key number `x`, or 0 for numbers past the keypad.
pub open spec fn spec_key_mask(x: u8) -> u16 {
    if x == 0 {
        0x0001u16
    } else if x == 1 {
        0x0002u16
    } else if x == 2 {
        0x0004u16
    } else if x == 3 {
        0x0008u16
    } else if x == 4 {
        0x0010u16
    } else if x == 5 {
        0x0020u16
    } else if x == 6 {
        0x0040u16
    } else if x == 7 {
        0x0080u16
    } else if x == 8 {
        0x0100u16
    } else if x == 9 {
        0x0200u16
    } else if x == 10 {
        0x0400u16
    } else if x == 11 {
        0x0800u16
    } else if x == 12 {
        0x1000u16
    } else if x == 13 {
        0x2000u16
    } else if x == 14 {
        0x4000u16
    } else if x == 15 {
        0x8000u16
    } else {
        0u16
    }
}

/// Key `x` is held in the mask `keys`.
pub open spec fn spec_key_pressed(keys: Keys, x: u8) -> bool {
    keys & spec_key_mask(x) != 0
}

/// The lowest key number at or above `i` whose bit is set, or 0 when none is.
pub open spec fn spec_lowest_key_from(keys: Keys, i: u8) -> u8
    decreases 16 - i,
{
    if i >= 16 {
        0
    } else if spec_key_pressed(keys, i) {
        i
    } else {
        spec_lowest_key_from(keys, (i + 1) as u8)
    }
}

/// The lowest-numbered held key, or 0 when no key is held.
pub open spec fn spec_lowest_key(keys: Keys) -> u8 {
    spec_lowest_key_from(keys, 0)
}

/// A nonzero 16-bit mask has some set bit among bits 0-15.
pub proof fn lemma_nonzero_has_key(keys: Keys)
    requires
        keys != 0,
    ensures
        exists|i: u8| i < 16 && spec_key_pressed(keys, i),
{
    assert(spec_key_mask(0) == 1u16 << 0u16 && spec_key_mask(1) == 1u16 << 1u16
        && spec_key_mask(2) == 1u16 << 2u16 && spec_key_mask(3) == 1u16 << 3u16
        && spec_key_mask(4) == 1u16 << 4u16 && spec_key_mask(5) == 1u16 << 5u16
        && spec_key_mask(6) == 1u16 << 6u16 && spec_key_mask(7) == 1u16 << 7u16
        && spec_key_mask(8) == 1u16 << 8u16 && spec_key_mask(9) == 1u16 << 9u16
        && spec_key_mask(10) == 1u16 << 10u16 && spec_key_mask(11) == 1u16 << 11u16
        && spec_key_mask(12) == 1u16 << 12u16 && spec_key_mask(13) == 1u16 << 13u16
        && spec_key_mask(14) == 1u16 << 14u16 && spec_key_mask(15) == 1u16 << 15u16) by (bit_vector);
    assert(keys & (1u16 << 0u16) == 0 && keys & (1u16 << 1u16) == 0 && keys & (1u16 << 2u16) == 0
        && keys & (1u16 << 3u16) == 0 && keys & (1u16 << 4u16) == 0 && keys & (1u16 << 5u16) == 0
        && keys & (1u16 << 6u16) == 0 && keys & (1u16 << 7u16) == 0 && keys & (1u16 << 8u16) == 0
        && keys & (1u16 << 9u16) == 0 && keys & (1u16 << 10u16) == 0
        && keys & (1u16 << 11u16) == 0 && keys & (1u16 << 12u16) == 0
        && keys & (1u16 << 13u16) == 0 && keys & (1u16 << 14u16) == 0
        && keys & (1u16 << 15u16) == 0 ==> keys == 0) by (bit_vector);
    if forall|i: u8| i < 16 ==> !#[trigger] spec_key_pressed(keys, i) {
        assert(spec_key_pressed(keys, 0) == (keys & (1u16 << 0u16) != 0));
        assert(spec_key_pressed(keys, 1) == (keys & (1u16 << 1u16) != 0));
        assert(spec_key_pressed(keys, 2) == (keys & (1u16 << 2u16) != 0));
        assert(spec_key_pressed(keys, 3) == (keys & (1u16 << 3u16) != 0));
        assert(spec_key_pressed(keys, 4) == (keys & (1u16 << 4u16) != 0));
        assert(spec_key_pressed(keys, 5) == (keys & (1u16 << 5u16) != 0));
        assert(spec_key_pressed(keys, 6) == (keys & (1u16 << 6u16) != 0));
        assert(spec_key_pressed(keys, 7) == (keys & (1u16 << 7u16) != 0));
        assert(spec_key_pressed(keys, 8) == (keys & (1u16 << 8u16) != 0));
        assert(spec_key_pressed(keys, 9) == (keys & (1u16 << 9u16) != 0));
        assert(spec_key_pressed(keys, 10) == (keys & (1u16 << 10u16) != 0));
        assert(spec_key_pressed(keys, 11) == (keys & (1u16 << 11u16) != 0));
        assert(spec_key_pressed(keys, 12) == (keys & (1u16 << 12u16) != 0));
        assert(spec_key_pressed(keys, 13) == (keys & (1u16 << 13u16) != 0));
        assert(spec_key_pressed(keys, 14) == (keys & (1u16 << 14u16) != 0));
        assert(spec_key_pressed(keys, 15) == (keys & (1u16 << 15u16) != 0));
        assert(false);
    }
}

/// The lowest held key is held, and no key below it is, whenever any key at
/// or above `i` is held.
pub proof fn lemma_lowest_key_from(keys: Keys, i: u8)
    requires
        i <= 16,
    ensures
        forall|j: u8| i <= j < spec_lowest_key_from(keys, i) ==> !spec_key_pressed(keys, j),
        (exists|j: u8| i <= j < 16 && spec_key_pressed(keys, j)) ==> ({
            &&& spec_lowest_key_from(keys, i) < 16
            &&& spec_key_pressed(keys, spec_lowest_key_from(keys, i))
            &&& i <= spec_lowest_key_from(keys, i)
        }),
    decreases 16 - i,
{
    if i < 16 && !spec_key_pressed(keys, i) {
        lemma_lowest_key_from(keys, (i + 1) as u8);
    }
}

impl Key {
    /// The mask holding only this key.
    pub fn to_keys(&self) -> (r: Keys)
        ensures
            r == spec_key_mask(spec_key_number(*self)),
    {
        key_number_to_keys(self.number())
    }

    /// This key's number, 0-15.
    pub fn number(&self) -> (r: u8)
        ensures
            r == spec_key_number(*self),
    {
        match *self {
            Key::_0 => 0,
            Key::_1 => 1,
            Key::_2 => 2,
            Key::_3 => 3,
            Key::_4 => 4,
            Key::_5 => 5,
            Key::_6 => 6,
            Key::_7 => 7,
            Key::_8 => 8,
            Key::_9 => 9,
            Key::_A => 10,
            Key::_B => 11,
            Key::_C => 12,
            Key::_D => 13,
            Key::_E => 14,
            Key::_F => 15,
        }
    }
}

/// The mask holding only key number `x`, or the empty mask when `x` is past
/// the keypad.
pub fn key_number_to_keys(x: u8) -> (r: Keys)
    ensures
        r == spec_key_mask(x),
{
    if x == 0 {
        0x0001
    } else if x == 1 {
        0x0002
    } else if x == 2 {
        0x0004
    } else if x == 3 {
        0x0008
    } else if x == 4 {
        0x0010
    } else if x == 5 {
        0x0020
    } else if x == 6 {
        0x0040
    } else if x == 7 {
        0x0080
    } else if x == 8 {
        0x0100
    } else if x == 9 {
        0x0200
    } else if x == 10 {
        0x0400
    } else if x == 11 {
        0x0800
    } else if x == 12 {
        0x1000
    } else if x == 13 {
        0x2000
    } else if x == 14 {
        0x4000
    } else if x == 15 {
        0x8000
    } else {
        0
    }
}

/// Whether the two masks share a held key.
pub fn keys_has_any_key(keys1: Keys, keys2: Keys) -> (r: bool)
    ensures
        r == (keys1 & keys2 != 0),
        r == exists|i: u8| i < 16 && spec_key_pressed(keys1, i) && spec_key_pressed(keys2, i),
{
    let r = keys1 & keys2 != 0;
    proof {
        if r {
            lemma_nonzero_has_key(keys1 & keys2);
            let i = choose|i: u8| i < 16 && spec_key_pressed(keys1 & keys2, i);
            lemma_mask_and(keys1, keys2, i);
        } else {
            assert forall|i: u8|
                i < 16 && spec_key_pressed(keys1, i) implies !spec_key_pressed(keys2, i) by {
                lemma_mask_and(keys1, keys2, i);
                assert(0u16 & spec_key_mask(i) == 0) by (bit_vector);
            }
        }
    }
    r
}

/// A key is held in `a & b` exactly when it is held in both `a` and `b`.
proof fn lemma_mask_and(a: Keys, b: Keys, i: u8)
    requires
        i < 16,
    ensures
        spec_key_pressed(a & b, i) == (spec_key_pressed(a, i) && spec_key_pressed(b, i)),
{
    let m = spec_key_mask(i);
    assert(m == 1u16 << (i as u16)) by {
        assert(spec_key_mask(0) == 1u16 << 0u16 && spec_key_mask(1) == 1u16 << 1u16
            && spec_key_mask(2) == 1u16 << 2u16 && spec_key_mask(3) == 1u16 << 3u16
            && spec_key_mask(4) == 1u16 << 4u16 && spec_key_mask(5) == 1u16 << 5u16
            && spec_key_mask(6) == 1u16 << 6u16 && spec_key_mask(7) == 1u16 << 7u16
            && spec_key_mask(8) == 1u16 << 8u16 && spec_key_mask(9) == 1u16 << 9u16
            && spec_key_mask(10) == 1u16 << 10u16 && spec_key_mask(11) == 1u16 << 11u16
            && spec_key_mask(12) == 1u16 << 12u16 && spec_key_mask(13) == 1u16 << 13u16
            && spec_key_mask(14) == 1u16 << 14u16 && spec_key_mask(15) == 1u16 << 15u16) by (bit_vector);
    }
    let j = i as u16;
    assert(((a & b) & (1u16 << j) != 0) == ((a & (1u16 << j) != 0) && (b & (1u16 << j) != 0)))
        by (bit_vector);
}

/// A key is newly pressed in `new` relative to `old` exactly when its bit is
/// set in `new & !old`.
pub proof fn lemma_newly_pressed(new_keys: Keys, old_keys: Keys, i: u8)
    requires
        i < 16,
    ensures
        spec_key_pressed(new_keys & !old_keys, i) == (spec_key_pressed(new_keys, i)
            && !spec_key_pressed(old_keys, i)),
{
    let m = spec_key_mask(i);
    assert(m == 1u16 << (i as u16)) by {
        assert(spec_key_mask(0) == 1u16 << 0u16 && spec_key_mask(1) == 1u16 << 1u16
            && spec_key_mask(2) == 1u16 << 2u16 && spec_key_mask(3) == 1u16 << 3u16
            && spec_key_mask(4) == 1u16 << 4u16 && spec_key_mask(5) == 1u16 << 5u16
            && spec_key_mask(6) == 1u16 << 6u16 && spec_key_mask(7) == 1u16 << 7u16
            && spec_key_mask(8) == 1u16 << 8u16 && spec_key_mask(9) == 1u16 << 9u16
            && spec_key_mask(10) == 1u16 << 10u16 && spec_key_mask(11) == 1u16 << 11u16
            && spec_key_mask(12) == 1u16 << 12u16 && spec_key_mask(13) == 1u16 << 13u16
            && spec_key_mask(14) == 1u16 << 14u16 && spec_key_mask(15) == 1u16 << 15u16) by (bit_vector);
    }
    let j = i as u16;
    assert(((new_keys & !old_keys) & (1u16 << j) != 0) == ((new_keys & (1u16 << j) != 0) && !(
    old_keys & (1u16 << j) != 0))) by (bit_vector);
}

/// The number of the lowest-numbered held key, or 0 when no key is held.
pub fn keys_to_key_number(keys: Keys) -> (r: u8)
    ensures
        r == spec_lowest_key(keys),
        keys != 0 ==> r < 16 && spec_key_pressed(keys, r),
        forall|j: u8| j < r ==> !spec_key_pressed(keys, j),
{
    proof {
        if keys != 0 {
            lemma_nonzero_has_key(keys);
        }
        lemma_lowest_key_from(keys, 0);
    }
    let mut i: u8 = 0;
    while i < 16
        invariant
            i <= 16,
            forall|j: u8| j < i ==> !spec_key_pressed(keys, j),
            spec_lowest_key_from(keys, 0) == spec_lowest_key_from(keys, i),
        decreases 16 - i,
    {
        if keys & key_number_to_keys(i) != 0 {
            return i;
        }
        i = i + 1;
    }
    proof {
        if keys != 0 {
            lemma_nonzero_has_key(keys);
        }
    }
    0
}

} // verus!
