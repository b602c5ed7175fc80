//! Parsing primitives for the assembler: numeric literals (decimal, `0x`
//! hexadecimal, `0b` binary), register tokens (`V` plus one hexadecimal
//! digit), and case-insensitive mnemonic matching.

use itertools::Itertools;
use vstd::prelude::*;
use vstd::string::StringExecFns;

use crate::assembler_error::AssemblerError;
use crate::assembler_error::ErrView;
use crate::instructions::Instruction;
use crate::statement::Statement;
use crate::statement::StmtView;
use crate::text::get_line_words;
use crate::text::spec_line_words;

verus! {

/// The value of one digit character under the radix, if it is one.
pub open spec fn spec_digit_val(c: char, radix: nat) -> Option<nat> {
    let u = c as u32;
    if 48 <= u <= 57 && (u - 48) < radix {
        Some((u - 48) as nat)
    } else if 97 <= u <= 102 && (u - 87) < radix {
        Some((u - 87) as nat)
    } else if 65 <= u <= 70 && (u - 55) < radix {
        Some((u - 55) as nat)
    } else {
        None
    }
}

/// The value of a digit string under the radix, read onto an accumulator;
/// `None` on the first character that is no digit of the radix.
pub open spec fn spec_digits_val(s: Seq<char>, radix: nat, acc: nat) -> Option<nat>
    decreases s.len(),
{
    if s.len() == 0 {
        Some(acc)
    } else {
        match spec_digit_val(s[0], radix) {
            None => None,
            Some(d) => spec_digits_val(s.skip(1), radix, acc * radix + d),
        }
    }
}

/// The value of a numeric literal: an optional `0x` (hexadecimal) or `0b`
/// (binary) prefix, else decimal; an empty digit string is no literal.
pub open spec fn spec_literal(s: Seq<char>) -> Option<nat> {
    if s.len() >= 2 && s[0] == '0' && s[1] == 'x' {
        if s.len() == 2 {
            None
        } else {
            spec_digits_val(s.skip(2), 16, 0)
        }
    } else if s.len() >= 2 && s[0] == '0' && s[1] == 'b' {
        if s.len() == 2 {
            None
        } else {
            spec_digits_val(s.skip(2), 2, 0)
        }
    } else if s.len() == 0 {
        None
    } else {
        spec_digits_val(s, 10, 0)
    }
}

/// Reading further digits never shrinks the value.
pub proof fn lemma_digits_val_ge_acc(s: Seq<char>, radix: nat, acc: nat)
    requires
        radix >= 2,
    ensures
        match spec_digits_val(s, radix, acc) {
            Some(v) => v >= acc,
            None => true,
        },
    decreases s.len(),
{
    if s.len() > 0 {
        match spec_digit_val(s[0], radix) {
            None => {},
            Some(d) => {
                vstd::arithmetic::mul::lemma_mul_inequality(1, radix as int, acc as int);
                assert(acc * radix >= acc);
                lemma_digits_val_ge_acc(s.skip(1), radix, acc * radix + d);
                assert(spec_digits_val(s, radix, acc) == spec_digits_val(
                    s.skip(1),
                    radix,
                    acc * radix + d,
                ));
            },
        }
    }
}

/// The value of one digit character under the radix, if it is one.
fn digit_val(c: char, radix: u64) -> (r: Option<u64>)
    requires
        2 <= radix <= 16,
    ensures
        match r {
            Some(d) => spec_digit_val(c, radix as nat) == Some(d as nat) && d < radix,
            None => spec_digit_val(c, radix as nat) is None,
        },
{
    let u = c as u32;
    if 48 <= u && u <= 57 && ((u - 48) as u64) < radix {
        Some((u - 48) as u64)
    } else if 97 <= u && u <= 102 && ((u - 87) as u64) < radix {
        Some((u - 87) as u64)
    } else if 65 <= u && u <= 70 && ((u - 55) as u64) < radix {
        Some((u - 55) as u64)
    } else {
        None
    }
}

/// The diagnostic for a token that should have been a number and was not,
/// or did not fit.
fn number_error() -> (e: AssemblerError)
    ensures
        e@ == (ErrView { message: "Failed to parse number."@, src_location: None }),
{
    AssemblerError::new_message(String::from_str("Failed to parse number."))
}

/// Parse a numeric literal: an optional `0x` or `0b` prefix, else decimal.
/// Rejects an empty digit string, any character that is no digit of the
/// radix, and values past the range of the result type.
pub fn try_parse_number_literal(n_str: &str) -> (r: Result<u64, AssemblerError>)
    ensures
        match r {
            Ok(v) => spec_literal(n_str@) == Some(v as nat),
            Err(e) => {
                &&& match spec_literal(n_str@) {
                    None => true,
                    Some(v) => v > u64::MAX,
                }
                &&& e@ == (ErrView { message: "Failed to parse number."@, src_location: None })
            },
        },
{
    let chars = crate::text::to_char_vec(n_str);
    let n = chars.len();
    let (radix, start): (u64, usize) = if n >= 2 && chars[0] == '0' && chars[1] == 'x' {
        (16, 2)
    } else if n >= 2 && chars[0] == '0' && chars[1] == 'b' {
        (2, 2)
    } else {
        (10, 0)
    };
    if n == start {
        return Err(number_error());
    }
    let ghost digits = n_str@.skip(start as int);
    proof {
        if radix == 10 {
            assert(n_str@.skip(0) =~= n_str@);
        }
        assert(spec_literal(n_str@) == spec_digits_val(digits, radix as nat, 0));
    }
    let mut acc: u64 = 0;
    let mut i: usize = start;
    while i < n
        invariant
            start <= i <= n,
            n == n_str@.len(),
            chars@ == n_str@,
            2 <= radix <= 16,
            digits == n_str@.skip(start as int),
            spec_literal(n_str@) == spec_digits_val(digits, radix as nat, 0),
            spec_digits_val(digits, radix as nat, 0) == spec_digits_val(
                n_str@.skip(i as int),
                radix as nat,
                acc as nat,
            ),
        decreases n - i,
    {
        let ghost rest = n_str@.skip(i as int);
        proof {
            assert(rest[0] == n_str@[i as int]);
            assert(rest.skip(1) =~= n_str@.skip(i as int + 1));
        }
        let d = match digit_val(chars[i], radix) {
            None => {
                return Err(number_error());
            },
            Some(d) => d,
        };
        let next = match acc.checked_mul(radix) {
            None => {
                proof {
                    lemma_digits_val_ge_acc(rest.skip(1), radix as nat, acc as nat * radix as nat + d as nat);
                    vstd::arithmetic::mul::lemma_mul_inequality(
                        1,
                        radix as int,
                        acc as int,
                    );
                }
                return Err(number_error());
            },
            Some(t) => match t.checked_add(d) {
                None => {
                    proof {
                        lemma_digits_val_ge_acc(rest.skip(1), radix as nat, acc as nat * radix as nat + d as nat);
                    }
                    return Err(number_error());
                },
                Some(t2) => t2,
            },
        };
        acc = next;
        i = i + 1;
        proof {
            assert(spec_digits_val(digits, radix as nat, 0) == spec_digits_val(
                n_str@.skip(i as int),
                radix as nat,
                acc as nat,
            ));
        }
    }
    proof {
        assert(n_str@.skip(n as int) =~= Seq::<char>::empty());
        assert(spec_literal(n_str@) == Some(acc as nat));
    }
    Ok(acc)
}

/// Parse a numeric literal that must fit in 16 bits.
pub fn try_parse_u16_literal(n_str: &str) -> (r: Result<u16, AssemblerError>)
    ensures
        match r {
            Ok(v) => spec_literal(n_str@) == Some(v as nat),
            Err(e) => {
                &&& match spec_literal(n_str@) {
                    None => true,
                    Some(v) => v > 0xFFFF,
                }
                &&& e@ == (ErrView { message: "Failed to parse number."@, src_location: None })
            },
        },
{
    match try_parse_number_literal(n_str) {
        Err(e) => Err(e),
        Ok(v) => if v <= 0xFFFF {
            Ok(v as u16)
        } else {
            Err(number_error())
        },
    }
}

/// The register index a token denotes: `V` or `v` followed by exactly one
/// hexadecimal digit.
pub open spec fn spec_register(w: Seq<char>) -> Option<u8> {
    if w.len() == 2 && (w[0] == 'V' || w[0] == 'v') {
        match spec_digit_val(w[1], 16) {
            None => None,
            Some(d) => Some(d as u8),
        }
    } else {
        None
    }
}

/// Parse a register token.
pub fn parse_register(w: &str) -> (r: Option<u8>)
    ensures
        r == spec_register(w@),
        match r {
            Some(x) => x < 16,
            None => true,
        },
{
    if w.unicode_len() != 2 {
        return None;
    }
    let c0 = w.get_char(0);
    if !(c0 == 'V' || c0 == 'v') {
        return None;
    }
    match digit_val(w.get_char(1), 16) {
        None => None,
        Some(d) => Some(d as u8),
    }
}

/// The character's code point with an ASCII lowercase letter raised to its
/// uppercase.
pub open spec fn spec_upper_u32(c: char) -> u32 {
    let u = c as u32;
    if 97 <= u <= 122 {
        (u - 32) as u32
    } else {
        u
    }
}

/// The word reads as the (already uppercase) keyword, ignoring ASCII case.
pub open spec fn spec_is_keyword(w: Seq<char>, m: Seq<char>) -> bool {
    &&& w.len() == m.len()
    &&& forall|i: int| 0 <= i < w.len() ==> spec_upper_u32(w[i]) == #[trigger] (m[i] as u32)
}

/// Test the word against an uppercase keyword, ignoring ASCII case.
pub fn is_keyword(w: &str, m: &str) -> (r: bool)
    ensures
        r == spec_is_keyword(w@, m@),
{
    let n = w.unicode_len();
    if n != m.unicode_len() {
        return false;
    }
    let mut i: usize = 0;
    while i < n
        invariant
            i <= n,
            n == w@.len(),
            n == m@.len(),
            forall|k: int| 0 <= k < i ==> spec_upper_u32(w@[k]) == #[trigger] (m@[k] as u32),
        decreases n - i,
    {
        let u = w.get_char(i) as u32;
        let up = if 97 <= u && u <= 122 {
            u - 32
        } else {
            u
        };
        if up != m.get_char(i) as u32 {
            return false;
        }
        i = i + 1;
    }
    true
}

/// A diagnostic with no usable location, from a fixed message.
pub open spec fn spec_msg_err(m: Seq<char>) -> ErrView {
    ErrView { message: m, src_location: None }
}

/// A diagnostic carrying the line number alone.
pub open spec fn spec_line_err(m: Seq<char>, line_num: u32) -> ErrView {
    ErrView {
        message: m,
        src_location: Some(
            crate::assembler_error::Location { line_location: None, line_num },
        ),
    }
}

/// One label table entry: a name and its resolved address.
pub type LabelEntry = (Seq<char>, u16);

/// The address of the first entry bearing the name, if any does.
pub open spec fn spec_lookup(table: Seq<LabelEntry>, name: Seq<char>) -> Option<u16>
    decreases table.len(),
{
    if table.len() == 0 {
        None
    } else if table[0].0 == name {
        Some(table[0].1)
    } else {
        spec_lookup(table.skip(1), name)
    }
}

/// Every address a table holds is below the memory ceiling.
pub open spec fn spec_table_wf(table: Seq<LabelEntry>, max: u16) -> bool {
    forall|i: int| 0 <= i < table.len() ==> (#[trigger] table[i]).1 < max
}

/// A found address comes from some entry, so it obeys the table's ceiling.
pub proof fn lemma_lookup_wf(table: Seq<LabelEntry>, name: Seq<char>, max: u16)
    requires
        spec_table_wf(table, max),
    ensures
        match spec_lookup(table, name) {
            Some(a) => a < max,
            None => true,
        },
    decreases table.len(),
{
    if table.len() > 0 && table[0].0 != name {
        assert forall|i: int|
            0 <= i < table.skip(1).len() implies (#[trigger] table.skip(1)[i]).1 < max by {
            assert(table.skip(1)[i] == table[i + 1]);
            assert(table[i + 1].1 < max);
        }
        lemma_lookup_wf(table.skip(1), name, max);
    }
}

/// The address a token denotes: a label name resolved through the table,
/// else a numeric literal, which must lie strictly below the memory ceiling.
pub open spec fn spec_addr_operand(w: Seq<char>, table: Seq<LabelEntry>, max: u16) -> Result<
    u16,
    ErrView,
> {
    match spec_lookup(table, w) {
        Some(a) => Ok(a),
        None => match spec_literal(w) {
            None => Err(spec_msg_err("Failed to parse number."@)),
            Some(v) => if v > 0xFFFF {
                Err(spec_msg_err("Failed to parse number."@))
            } else if v >= max {
                Err(spec_msg_err("Address literal out of range."@))
            } else {
                Ok(v as u16)
            },
        },
    }
}

/// The byte a token denotes: a numeric literal up to 255.
pub open spec fn spec_byte_operand(w: Seq<char>) -> Result<u8, ErrView> {
    match spec_literal(w) {
        None => Err(spec_msg_err("Failed to parse number."@)),
        Some(v) => if v > 0xFFFF {
            Err(spec_msg_err("Failed to parse number."@))
        } else if v > 255 {
            Err(spec_msg_err("Byte literal out of range."@))
        } else {
            Ok(v as u8)
        },
    }
}

/// The nibble a token denotes: a numeric literal up to 15.
pub open spec fn spec_nibble_operand(w: Seq<char>) -> Result<u8, ErrView> {
    match spec_literal(w) {
        None => Err(spec_msg_err("Failed to parse number."@)),
        Some(v) => if v > 0xFFFF {
            Err(spec_msg_err("Failed to parse number."@))
        } else if v > 15 {
            Err(spec_msg_err("Nibble literal out of range."@))
        } else {
            Ok(v as u8)
        },
    }
}

/// The register a token denotes.
pub open spec fn spec_reg_operand(w: Seq<char>) -> Result<u8, ErrView> {
    match spec_register(w) {
        None => Err(spec_msg_err("Failed to parse register."@)),
        Some(x) => Ok(x),
    }
}

/// Look a label name up in the table.
pub fn lookup_label(table: &Vec<(&str, u16)>, name: &str) -> (r: Option<u16>)
    ensures
        r == spec_lookup(table@.map_values(|p: (&str, u16)| (p.0@, p.1)), name@),
{
    let ghost tview = table@.map_values(|p: (&str, u16)| (p.0@, p.1));
    let n = table.len();
    let mut i: usize = 0;
    proof {
        assert(tview.skip(0) =~= tview);
    }
    while i < n
        invariant
            i <= n,
            n == table@.len(),
            tview == table@.map_values(|p: (&str, u16)| (p.0@, p.1)),
            spec_lookup(tview, name@) == spec_lookup(tview.skip(i as int), name@),
        decreases n - i,
    {
        proof {
            assert(tview.skip(i as int)[0] == tview[i as int]);
            assert(tview.skip(i as int).skip(1) =~= tview.skip(i as int + 1));
        }
        let (entry_name, entry_addr) = table[i];
        if crate::text::str_eq(entry_name, name) {
            return Some(entry_addr);
        }
        i = i + 1;
    }
    proof {
        assert(tview.skip(n as int) =~= Seq::<LabelEntry>::empty());
    }
    None
}

/// Parse an address operand against the table and the memory ceiling.
fn parse_addr_operand(w: &str, table: &Vec<(&str, u16)>, max: u16) -> (r: Result<
    u16,
    AssemblerError,
>)
    requires
        spec_table_wf(table@.map_values(|p: (&str, u16)| (p.0@, p.1)), max),
    ensures
        match r {
            Ok(a) => spec_addr_operand(
                w@,
                table@.map_values(|p: (&str, u16)| (p.0@, p.1)),
                max,
            ) == Ok::<u16, ErrView>(a) && a < max,
            Err(e) => spec_addr_operand(
                w@,
                table@.map_values(|p: (&str, u16)| (p.0@, p.1)),
                max,
            ) == Err::<u16, ErrView>(e@),
        },
{
    proof {
        lemma_lookup_wf(table@.map_values(|p: (&str, u16)| (p.0@, p.1)), w@, max);
    }
    match lookup_label(table, w) {
        Some(a) => Ok(a),
        None => match try_parse_u16_literal(w) {
            Err(e) => Err(e),
            Ok(v) => if v < max {
                Ok(v)
            } else {
                Err(
                    AssemblerError::new_message(
                        String::from_str("Address literal out of range."),
                    ),
                )
            },
        },
    }
}

/// Parse a byte operand.
fn parse_byte_operand(w: &str) -> (r: Result<u8, AssemblerError>)
    ensures
        match r {
            Ok(b) => spec_byte_operand(w@) == Ok::<u8, ErrView>(b),
            Err(e) => spec_byte_operand(w@) == Err::<u8, ErrView>(e@),
        },
{
    match try_parse_u16_literal(w) {
        Err(e) => Err(e),
        Ok(v) => if v <= 255 {
            Ok(v as u8)
        } else {
            Err(AssemblerError::new_message(String::from_str("Byte literal out of range.")))
        },
    }
}

/// Parse a nibble operand.
fn parse_nibble_operand(w: &str) -> (r: Result<u8, AssemblerError>)
    ensures
        match r {
            Ok(b) => spec_nibble_operand(w@) == Ok::<u8, ErrView>(b),
            Err(e) => spec_nibble_operand(w@) == Err::<u8, ErrView>(e@),
        },
{
    match try_parse_u16_literal(w) {
        Err(e) => Err(e),
        Ok(v) => if v <= 15 {
            Ok(v as u8)
        } else {
            Err(AssemblerError::new_message(String::from_str("Nibble literal out of range.")))
        },
    }
}

/// Parse a register operand.
fn parse_reg_operand(w: &str) -> (r: Result<u8, AssemblerError>)
    ensures
        match r {
            Ok(x) => spec_reg_operand(w@) == Ok::<u8, ErrView>(x) && x < 16,
            Err(e) => spec_reg_operand(w@) == Err::<u8, ErrView>(e@),
        },
{
    match parse_register(w) {
        Some(x) => Ok(x),
        None => Err(AssemblerError::new_message(String::from_str("Failed to parse register."))),
    }
}

/// The diagnostic for an instruction line whose shape does not fit its
/// mnemonic: the message with the line number.
pub open spec fn spec_shape_err(m: Seq<char>, line_num: u32) -> ErrView {
    spec_line_err(m, line_num)
}

/// The diagnostic for a jump line of the wrong shape: the whole line is the
/// span.
pub open spec fn spec_jump_shape_err(line: Seq<char>, line_num: u32) -> ErrView {
    ErrView {
        message: "Expected one address for a JMP instruction"@,
        src_location: Some(
            crate::assembler_error::Location {
                line_location: Some(
                    crate::assembler_error::LineLocation {
                        column: 0,
                        length: line.len() as u32,
                    },
                ),
                line_num,
            },
        ),
    }
}

/// The jump a jump line denotes: one address operand for an absolute jump,
/// or `V0` and an address for an offset jump.
pub open spec fn spec_get_jump(
    words: Seq<Seq<char>>,
    line: Seq<char>,
    line_num: u32,
    table: Seq<LabelEntry>,
    max: u16,
) -> Result<Instruction, ErrView> {
    if words.len() == 2 {
        match spec_addr_operand(words[1], table, max) {
            Err(e) => Err(e),
            Ok(addr) => Ok(Instruction::Jump { addr }),
        }
    } else if words.len() == 3 && spec_is_keyword(words[1], "V0"@) {
        match spec_addr_operand(words[2], table, max) {
            Err(e) => Err(e),
            Ok(addr) => Ok(Instruction::JumpOffset { addr }),
        }
    } else {
        Err(spec_jump_shape_err(line, line_num))
    }
}

/// The instruction an instruction line denotes, under the label table and
/// the memory ceiling: the mnemonic is matched ignoring case, then each
/// operand is parsed by its kind.
pub open spec fn spec_parse_instruction(
    words: Seq<Seq<char>>,
    line: Seq<char>,
    line_num: u32,
    table: Seq<LabelEntry>,
    max: u16,
) -> Result<Instruction, ErrView> {
    if words.len() == 0 {
        Err(spec_line_err("Unknown instruction."@, line_num))
    } else {
        let m = words[0];
        if spec_is_keyword(m, "CLS"@) {
            if words.len() == 1 {
                Ok(Instruction::ClearDisplay)
            } else {
                Err(spec_shape_err("Expected no operands."@, line_num))
            }
        } else if spec_is_keyword(m, "RET"@) {
            if words.len() == 1 {
                Ok(Instruction::Return)
            } else {
                Err(spec_shape_err("Expected no operands."@, line_num))
            }
        } else if spec_is_keyword(m, "EXIT"@) {
            if words.len() == 1 {
                Ok(Instruction::Exit)
            } else {
                Err(spec_shape_err("Expected no operands."@, line_num))
            }
        } else if spec_is_keyword(m, "JP"@) {
            spec_get_jump(words, line, line_num, table, max)
        } else if spec_is_keyword(m, "CALL"@) {
            if words.len() == 2 {
                match spec_addr_operand(words[1], table, max) {
                    Err(e) => Err(e),
                    Ok(addr) => Ok(Instruction::Call { addr }),
                }
            } else {
                Err(spec_shape_err("Expected one address for a CALL instruction."@, line_num))
            }
        } else if spec_is_keyword(m, "SE"@) || spec_is_keyword(m, "SNE"@) {
            let eq = spec_is_keyword(m, "SE"@);
            if words.len() == 3 {
                match spec_reg_operand(words[1]) {
                    Err(e) => Err(e),
                    Ok(x) => match spec_register(words[2]) {
                        Some(y) => if eq {
                            Ok(Instruction::SkipRegEqualsReg { x, y })
                        } else {
                            Ok(Instruction::SkipRegNotEqualsReg { x, y })
                        },
                        None => match spec_byte_operand(words[2]) {
                            Err(e) => Err(e),
                            Ok(byte) => if eq {
                                Ok(Instruction::SkipRegEqualsImm { x, byte })
                            } else {
                                Ok(Instruction::SkipRegNotEqualsImm { x, byte })
                            },
                        },
                    },
                }
            } else {
                Err(
                    spec_shape_err(
                        "Expected a register and a register or byte for a skip instruction."@,
                        line_num,
                    ),
                )
            }
        } else if spec_is_keyword(m, "LD"@) {
            if words.len() == 3 {
                if spec_is_keyword(words[1], "I"@) {
                    match spec_addr_operand(words[2], table, max) {
                        Err(e) => Err(e),
                        Ok(addr) => Ok(Instruction::LoadImmToPointer { addr }),
                    }
                } else if spec_is_keyword(words[1], "DT"@) {
                    match spec_reg_operand(words[2]) {
                        Err(e) => Err(e),
                        Ok(x) => Ok(Instruction::LoadRegToDelayTimer { x }),
                    }
                } else if spec_is_keyword(words[1], "ST"@) {
                    match spec_reg_operand(words[2]) {
                        Err(e) => Err(e),
                        Ok(x) => Ok(Instruction::LoadRegToSoundTimer { x }),
                    }
                } else if spec_is_keyword(words[1], "F"@) {
                    match spec_reg_operand(words[2]) {
                        Err(e) => Err(e),
                        Ok(x) => Ok(Instruction::LoadDigitSpriteToPointer { x }),
                    }
                } else if spec_is_keyword(words[1], "B"@) {
                    match spec_reg_operand(words[2]) {
                        Err(e) => Err(e),
                        Ok(x) => Ok(Instruction::LoadDecimalDigitsToPointer { x }),
                    }
                } else if spec_is_keyword(words[1], "[I]"@) {
                    match spec_reg_operand(words[2]) {
                        Err(e) => Err(e),
                        Ok(x) => Ok(Instruction::WriteRegToPointer { x }),
                    }
                } else {
                    match spec_reg_operand(words[1]) {
                        Err(e) => Err(e),
                        Ok(x) => if spec_is_keyword(words[2], "DT"@) {
                            Ok(Instruction::LoadDelayTimerToReg { x })
                        } else if spec_is_keyword(words[2], "K"@) {
                            Ok(Instruction::LoadNextKeyPress { x })
                        } else if spec_is_keyword(words[2], "[I]"@) {
                            Ok(Instruction::ReadRegFromPointer { x })
                        } else {
                            match spec_register(words[2]) {
                                Some(y) => Ok(Instruction::LoadRegToReg { x, y }),
                                None => match spec_byte_operand(words[2]) {
                                    Err(e) => Err(e),
                                    Ok(byte) => Ok(Instruction::LoadImmToReg { x, byte }),
                                },
                            }
                        },
                    }
                }
            } else {
                Err(spec_shape_err("Wrong operands for a LD instruction."@, line_num))
            }
        } else if spec_is_keyword(m, "ADD"@) {
            if words.len() == 3 {
                if spec_is_keyword(words[1], "I"@) {
                    match spec_reg_operand(words[2]) {
                        Err(e) => Err(e),
                        Ok(x) => Ok(Instruction::AddRegToPointer { x }),
                    }
                } else {
                    match spec_reg_operand(words[1]) {
                        Err(e) => Err(e),
                        Ok(x) => match spec_register(words[2]) {
                            Some(y) => Ok(Instruction::AddReg { x, y }),
                            None => match spec_byte_operand(words[2]) {
                                Err(e) => Err(e),
                                Ok(byte) => Ok(Instruction::AddImmToReg { x, byte }),
                            },
                        },
                    }
                }
            } else {
                Err(spec_shape_err("Wrong operands for an ADD instruction."@, line_num))
            }
        } else if spec_is_keyword(m, "OR"@) || spec_is_keyword(m, "AND"@) || spec_is_keyword(
            m,
            "XOR"@,
        ) || spec_is_keyword(m, "SUB"@) || spec_is_keyword(m, "SUBN"@) {
            if words.len() == 3 {
                match spec_reg_operand(words[1]) {
                    Err(e) => Err(e),
                    Ok(x) => match spec_reg_operand(words[2]) {
                        Err(e) => Err(e),
                        Ok(y) => if spec_is_keyword(m, "OR"@) {
                            Ok(Instruction::OrReg { x, y })
                        } else if spec_is_keyword(m, "AND"@) {
                            Ok(Instruction::AndReg { x, y })
                        } else if spec_is_keyword(m, "XOR"@) {
                            Ok(Instruction::XorReg { x, y })
                        } else if spec_is_keyword(m, "SUB"@) {
                            Ok(Instruction::SubReg { x, y })
                        } else {
                            Ok(Instruction::SubNegReg { x, y })
                        },
                    },
                }
            } else {
                Err(
                    spec_shape_err(
                        "Expected two registers for a logic or arithmetic instruction."@,
                        line_num,
                    ),
                )
            }
        } else if spec_is_keyword(m, "SHR"@) || spec_is_keyword(m, "SHL"@) {
            if words.len() == 2 {
                match spec_reg_operand(words[1]) {
                    Err(e) => Err(e),
                    Ok(x) => if spec_is_keyword(m, "SHR"@) {
                        Ok(Instruction::ShiftRight { x })
                    } else {
                        Ok(Instruction::ShiftLeft { x })
                    },
                }
            } else {
                Err(spec_shape_err("Expected one register for a shift instruction."@, line_num))
            }
        } else if spec_is_keyword(m, "RND"@) {
            if words.len() == 3 {
                match spec_reg_operand(words[1]) {
                    Err(e) => Err(e),
                    Ok(x) => match spec_byte_operand(words[2]) {
                        Err(e) => Err(e),
                        Ok(byte) => Ok(Instruction::Random { x, byte }),
                    },
                }
            } else {
                Err(
                    spec_shape_err(
                        "Expected a register and a byte for a RND instruction."@,
                        line_num,
                    ),
                )
            }
        } else if spec_is_keyword(m, "DRW"@) {
            if words.len() == 4 {
                match spec_reg_operand(words[1]) {
                    Err(e) => Err(e),
                    Ok(x) => match spec_reg_operand(words[2]) {
                        Err(e) => Err(e),
                        Ok(y) => match spec_nibble_operand(words[3]) {
                            Err(e) => Err(e),
                            Ok(nibble) => Ok(Instruction::Draw { x, y, nibble }),
                        },
                    },
                }
            } else {
                Err(
                    spec_shape_err(
                        "Expected two registers and a nibble for a DRW instruction."@,
                        line_num,
                    ),
                )
            }
        } else if spec_is_keyword(m, "SKP"@) || spec_is_keyword(m, "SKNP"@) {
            if words.len() == 2 {
                match spec_reg_operand(words[1]) {
                    Err(e) => Err(e),
                    Ok(x) => if spec_is_keyword(m, "SKP"@) {
                        Ok(Instruction::SkipKeyPressed { x })
                    } else {
                        Ok(Instruction::SkipNotKeyPressed { x })
                    },
                }
            } else {
                Err(
                    spec_shape_err(
                        "Expected one register for a key skip instruction."@,
                        line_num,
                    ),
                )
            }
        } else {
            Err(spec_line_err("Unknown instruction."@, line_num))
        }
    }
}

/// The views of borrowed words.
pub open spec fn spec_word_views(words: Seq<&str>) -> Seq<Seq<char>> {
    words.map_values(|w: &str| w@)
}

/// The views of a borrowed label table.
pub open spec fn spec_table_view(table: Seq<(&str, u16)>) -> Seq<LabelEntry> {
    table.map_values(|p: (&str, u16)| (p.0@, p.1))
}

/// Build the jump instruction a jump line denotes: one address operand for
/// an absolute jump, or `V0` and an address for an offset jump.
pub fn get_jump_with(
    words: &Vec<&str>,
    line: &str,
    line_num: u32,
    table: &Vec<(&str, u16)>,
    max: u16,
) -> (r: Result<Instruction, AssemblerError>)
    requires
        spec_table_wf(spec_table_view(table@), max),
        max <= 4096,
    ensures
        match r {
            Ok(i) => spec_get_jump(
                spec_word_views(words@),
                line@,
                line_num,
                spec_table_view(table@),
                max,
            ) == Ok::<Instruction, ErrView>(i) && crate::instructions::wf_instruction(i) && !(
            i is Unknown),
            Err(e) => spec_get_jump(
                spec_word_views(words@),
                line@,
                line_num,
                spec_table_view(table@),
                max,
            ) == Err::<Instruction, ErrView>(e@),
        },
{
    if words.len() == 2 {
        proof {
            assert(spec_word_views(words@)[1] == words@[1]@);
        }
        match parse_addr_operand(words[1], table, max) {
            Err(e) => Err(e),
            Ok(addr) => Ok(Instruction::Jump { addr }),
        }
    } else if words.len() == 3 && is_keyword(words[1], "V0") {
        proof {
            assert(spec_word_views(words@)[1] == words@[1]@);
            assert(spec_word_views(words@)[2] == words@[2]@);
        }
        match parse_addr_operand(words[2], table, max) {
            Err(e) => Err(e),
            Ok(addr) => Ok(Instruction::JumpOffset { addr }),
        }
    } else {
        proof {
            if words@.len() == 3 {
                assert(spec_word_views(words@)[1] == words@[1]@);
            }
        }
        Err(
            AssemblerError::new_no_options(
                String::from_str("Expected one address for a JMP instruction"),
                crate::assembler_error::Location::new_no_options(
                    crate::assembler_error::LineLocation::new(0, line.unicode_len() as u32),
                    line_num,
                ),
            ),
        )
    }
}

/// Parse one instruction line against the label table and the memory
/// ceiling.
#[verifier::rlimit(100)]
pub fn parse_instruction_with(
    words: &Vec<&str>,
    line: &str,
    line_num: u32,
    table: &Vec<(&str, u16)>,
    max: u16,
) -> (r: Result<Instruction, AssemblerError>)
    requires
        spec_table_wf(spec_table_view(table@), max),
        max <= 4096,
    ensures
        match r {
            Ok(i) => spec_parse_instruction(
                spec_word_views(words@),
                line@,
                line_num,
                spec_table_view(table@),
                max,
            ) == Ok::<Instruction, ErrView>(i) && crate::instructions::wf_instruction(i) && !(
            i is Unknown),
            Err(e) => spec_parse_instruction(
                spec_word_views(words@),
                line@,
                line_num,
                spec_table_view(table@),
                max,
            ) == Err::<Instruction, ErrView>(e@),
        },
{
    let ghost wv = spec_word_views(words@);
    if words.len() == 0 {
        return Err(
            AssemblerError::new_no_options(
                String::from_str("Unknown instruction."),
                crate::assembler_error::Location::new_line_num(line_num),
            ),
        );
    }
    proof {
        assert(wv[0] == words@[0]@);
        assert forall|k: int| 0 <= k < words@.len() implies wv[k] == words@[k]@ by {}
    }
    let m = words[0];
    if is_keyword(m, "CLS") {
        if words.len() == 1 {
            Ok(Instruction::ClearDisplay)
        } else {
            Err(shape_error("Expected no operands.", line_num))
        }
    } else if is_keyword(m, "RET") {
        if words.len() == 1 {
            Ok(Instruction::Return)
        } else {
            Err(shape_error("Expected no operands.", line_num))
        }
    } else if is_keyword(m, "EXIT") {
        if words.len() == 1 {
            Ok(Instruction::Exit)
        } else {
            Err(shape_error("Expected no operands.", line_num))
        }
    } else if is_keyword(m, "JP") {
        get_jump_with(words, line, line_num, table, max)
    } else if is_keyword(m, "CALL") {
        if words.len() == 2 {
            match parse_addr_operand(words[1], table, max) {
                Err(e) => Err(e),
                Ok(addr) => Ok(Instruction::Call { addr }),
            }
        } else {
            Err(shape_error("Expected one address for a CALL instruction.", line_num))
        }
    } else if is_keyword(m, "SE") || is_keyword(m, "SNE") {
        let eq = is_keyword(m, "SE");
        if words.len() == 3 {
            match parse_reg_operand(words[1]) {
                Err(e) => Err(e),
                Ok(x) => match parse_register(words[2]) {
                    Some(y) => if eq {
                        Ok(Instruction::SkipRegEqualsReg { x, y })
                    } else {
                        Ok(Instruction::SkipRegNotEqualsReg { x, y })
                    },
                    None => match parse_byte_operand(words[2]) {
                        Err(e) => Err(e),
                        Ok(byte) => if eq {
                            Ok(Instruction::SkipRegEqualsImm { x, byte })
                        } else {
                            Ok(Instruction::SkipRegNotEqualsImm { x, byte })
                        },
                    },
                },
            }
        } else {
            Err(
                shape_error(
                    "Expected a register and a register or byte for a skip instruction.",
                    line_num,
                ),
            )
        }
    } else if is_keyword(m, "LD") {
        if words.len() == 3 {
            if is_keyword(words[1], "I") {
                match parse_addr_operand(words[2], table, max) {
                    Err(e) => Err(e),
                    Ok(addr) => Ok(Instruction::LoadImmToPointer { addr }),
                }
            } else if is_keyword(words[1], "DT") {
                match parse_reg_operand(words[2]) {
                    Err(e) => Err(e),
                    Ok(x) => Ok(Instruction::LoadRegToDelayTimer { x }),
                }
            } else if is_keyword(words[1], "ST") {
                match parse_reg_operand(words[2]) {
                    Err(e) => Err(e),
                    Ok(x) => Ok(Instruction::LoadRegToSoundTimer { x }),
                }
            } else if is_keyword(words[1], "F") {
                match parse_reg_operand(words[2]) {
                    Err(e) => Err(e),
                    Ok(x) => Ok(Instruction::LoadDigitSpriteToPointer { x }),
                }
            } else if is_keyword(words[1], "B") {
                match parse_reg_operand(words[2]) {
                    Err(e) => Err(e),
                    Ok(x) => Ok(Instruction::LoadDecimalDigitsToPointer { x }),
                }
            } else if is_keyword(words[1], "[I]") {
                match parse_reg_operand(words[2]) {
                    Err(e) => Err(e),
                    Ok(x) => Ok(Instruction::WriteRegToPointer { x }),
                }
            } else {
                match parse_reg_operand(words[1]) {
                    Err(e) => Err(e),
                    Ok(x) => if is_keyword(words[2], "DT") {
                        Ok(Instruction::LoadDelayTimerToReg { x })
                    } else if is_keyword(words[2], "K") {
                        Ok(Instruction::LoadNextKeyPress { x })
                    } else if is_keyword(words[2], "[I]") {
                        Ok(Instruction::ReadRegFromPointer { x })
                    } else {
                        match parse_register(words[2]) {
                            Some(y) => Ok(Instruction::LoadRegToReg { x, y }),
                            None => match parse_byte_operand(words[2]) {
                                Err(e) => Err(e),
                                Ok(byte) => Ok(Instruction::LoadImmToReg { x, byte }),
                            },
                        }
                    },
                }
            }
        } else {
            Err(shape_error("Wrong operands for a LD instruction.", line_num))
        }
    } else if is_keyword(m, "ADD") {
        if words.len() == 3 {
            if is_keyword(words[1], "I") {
                match parse_reg_operand(words[2]) {
                    Err(e) => Err(e),
                    Ok(x) => Ok(Instruction::AddRegToPointer { x }),
                }
            } else {
                match parse_reg_operand(words[1]) {
                    Err(e) => Err(e),
                    Ok(x) => match parse_register(words[2]) {
                        Some(y) => Ok(Instruction::AddReg { x, y }),
                        None => match parse_byte_operand(words[2]) {
                            Err(e) => Err(e),
                            Ok(byte) => Ok(Instruction::AddImmToReg { x, byte }),
                        },
                    },
                }
            }
        } else {
            Err(shape_error("Wrong operands for an ADD instruction.", line_num))
        }
    } else if is_keyword(m, "OR") || is_keyword(m, "AND") || is_keyword(m, "XOR") || is_keyword(
        m,
        "SUB",
    ) || is_keyword(m, "SUBN") {
        if words.len() == 3 {
            match parse_reg_operand(words[1]) {
                Err(e) => Err(e),
                Ok(x) => match parse_reg_operand(words[2]) {
                    Err(e) => Err(e),
                    Ok(y) => if is_keyword(m, "OR") {
                        Ok(Instruction::OrReg { x, y })
                    } else if is_keyword(m, "AND") {
                        Ok(Instruction::AndReg { x, y })
                    } else if is_keyword(m, "XOR") {
                        Ok(Instruction::XorReg { x, y })
                    } else if is_keyword(m, "SUB") {
                        Ok(Instruction::SubReg { x, y })
                    } else {
                        Ok(Instruction::SubNegReg { x, y })
                    },
                },
            }
        } else {
            Err(
                shape_error(
                    "Expected two registers for a logic or arithmetic instruction.",
                    line_num,
                ),
            )
        }
    } else if is_keyword(m, "SHR") || is_keyword(m, "SHL") {
        if words.len() == 2 {
            match parse_reg_operand(words[1]) {
                Err(e) => Err(e),
                Ok(x) => if is_keyword(m, "SHR") {
                    Ok(Instruction::ShiftRight { x })
                } else {
                    Ok(Instruction::ShiftLeft { x })
                },
            }
        } else {
            Err(shape_error("Expected one register for a shift instruction.", line_num))
        }
    } else if is_keyword(m, "RND") {
        if words.len() == 3 {
            match parse_reg_operand(words[1]) {
                Err(e) => Err(e),
                Ok(x) => match parse_byte_operand(words[2]) {
                    Err(e) => Err(e),
                    Ok(byte) => Ok(Instruction::Random { x, byte }),
                },
            }
        } else {
            Err(shape_error("Expected a register and a byte for a RND instruction.", line_num))
        }
    } else if is_keyword(m, "DRW") {
        if words.len() == 4 {
            match parse_reg_operand(words[1]) {
                Err(e) => Err(e),
                Ok(x) => match parse_reg_operand(words[2]) {
                    Err(e) => Err(e),
                    Ok(y) => match parse_nibble_operand(words[3]) {
                        Err(e) => Err(e),
                        Ok(nibble) => Ok(Instruction::Draw { x, y, nibble }),
                    },
                },
            }
        } else {
            Err(
                shape_error(
                    "Expected two registers and a nibble for a DRW instruction.",
                    line_num,
                ),
            )
        }
    } else if is_keyword(m, "SKP") || is_keyword(m, "SKNP") {
        if words.len() == 2 {
            match parse_reg_operand(words[1]) {
                Err(e) => Err(e),
                Ok(x) => if is_keyword(m, "SKP") {
                    Ok(Instruction::SkipKeyPressed { x })
                } else {
                    Ok(Instruction::SkipNotKeyPressed { x })
                },
            }
        } else {
            Err(shape_error("Expected one register for a key skip instruction.", line_num))
        }
    } else {
        Err(
            AssemblerError::new_no_options(
                String::from_str("Unknown instruction."),
                crate::assembler_error::Location::new_line_num(line_num),
            ),
        )
    }
}

/// The diagnostic for an instruction line whose shape does not fit its
/// mnemonic.
fn shape_error(message: &str, line_num: u32) -> (e: AssemblerError)
    ensures
        e@ == spec_shape_err(message@, line_num),
{
    AssemblerError::new_no_options(
        String::from_str(message),
        crate::assembler_error::Location::new_line_num(line_num),
    )
}

/// A line of exactly one word ending in a colon declares a label.
pub open spec fn spec_is_label_line(words: Seq<Seq<char>>) -> bool {
    words.len() == 1 && words[0].len() > 0 && words[0][words[0].len() - 1] == ':'
}

/// The declared label name: the word with the colon stripped.
pub open spec fn spec_label_name(words: Seq<Seq<char>>) -> Seq<char> {
    words[0].take(words[0].len() - 1)
}

/// A line is a raw-bytes line when every word parses as a numeric literal.
pub open spec fn spec_is_raw_line(words: Seq<Seq<char>>) -> bool {
    words.len() > 0 && forall|i: int|
        0 <= i < words.len() ==> (#[trigger] spec_literal(words[i])) is Some
}

/// The bytes of a raw-bytes line, each word read as a byte in order; the
/// first word out of range ends the line with its diagnostic.
pub open spec fn spec_raw_bytes(words: Seq<Seq<char>>) -> Result<Seq<u8>, ErrView>
    decreases words.len(),
{
    if words.len() == 0 {
        Ok(Seq::empty())
    } else {
        match spec_byte_operand(words[0]) {
            Err(e) => Err(e),
            Ok(b) => match spec_raw_bytes(words.skip(1)) {
                Err(e) => Err(e),
                Ok(rest) => Ok(seq![b] + rest),
            },
        }
    }
}

/// The diagnostic for a label line with nothing before the colon.
pub open spec fn spec_label_err(line: Seq<char>, line_num: u32) -> ErrView {
    ErrView {
        message: "Expected a label before the colon."@,
        src_location: Some(
            crate::assembler_error::Location {
                line_location: crate::assembler_error::spec_try_span(
                    line,
                    spec_line_words(line),
                    0,
                ),
                line_num,
            },
        ),
    }
}

/// The statement one source line denotes at the given address, under the
/// label table and the memory ceiling: nothing for a blank line, a label
/// declaration, a raw-bytes line, or an instruction line.
pub open spec fn spec_parse_line(
    line: Seq<char>,
    line_num: u32,
    table: Seq<LabelEntry>,
    max: u16,
    addr: u16,
) -> Result<Option<StmtView>, ErrView> {
    let words = spec_line_words(line);
    if words.len() == 0 {
        Ok(None)
    } else if spec_is_label_line(words) {
        if spec_label_name(words).len() == 0 {
            Err(spec_label_err(line, line_num))
        } else {
            Ok(Some(StmtView::Label { name: spec_label_name(words), mem_addr: addr }))
        }
    } else if spec_is_raw_line(words) {
        match spec_raw_bytes(words) {
            Err(e) => Err(e),
            Ok(bytes) => Ok(Some(StmtView::RawBytes { bytes, mem_addr: addr })),
        }
    } else {
        match spec_parse_instruction(words, line, line_num, table, max) {
            Err(e) => Err(e),
            Ok(instruction) => Ok(Some(StmtView::Instruction { instruction, mem_addr: addr })),
        }
    }
}

/// Whether a digit string reads fully is independent of the accumulator.
proof fn lemma_digits_val_some_indep(s: Seq<char>, radix: nat, a: nat, b: nat)
    ensures
        (spec_digits_val(s, radix, a) is Some) == (spec_digits_val(s, radix, b) is Some),
    decreases s.len(),
{
    if s.len() > 0 {
        match spec_digit_val(s[0], radix) {
            None => {},
            Some(d) => {
                lemma_digits_val_some_indep(s.skip(1), radix, a * radix + d, b * radix + d);
            },
        }
    }
}

/// Whether the word parses as a numeric literal.
pub fn is_numeric_literal(w: &str) -> (r: bool)
    ensures
        r == (spec_literal(w@) is Some),
{
    let chars = crate::text::to_char_vec(w);
    let n = chars.len();
    let (radix, start): (u64, usize) = if n >= 2 && chars[0] == '0' && chars[1] == 'x' {
        (16, 2)
    } else if n >= 2 && chars[0] == '0' && chars[1] == 'b' {
        (2, 2)
    } else {
        (10, 0)
    };
    if n == start {
        return false;
    }
    let ghost digits = w@.skip(start as int);
    proof {
        if radix == 10 {
            assert(w@.skip(0) =~= w@);
        }
        assert((spec_literal(w@) is Some) == (spec_digits_val(digits, radix as nat, 0) is Some));
    }
    let mut i: usize = start;
    while i < n
        invariant
            start <= i <= n,
            n == w@.len(),
            chars@ == w@,
            2 <= radix <= 16,
            digits == w@.skip(start as int),
            (spec_literal(w@) is Some) == (spec_digits_val(digits, radix as nat, 0) is Some),
            (spec_digits_val(digits, radix as nat, 0) is Some) == (spec_digits_val(
                w@.skip(i as int),
                radix as nat,
                0,
            ) is Some),
        decreases n - i,
    {
        let ghost rest = w@.skip(i as int);
        proof {
            assert(rest[0] == w@[i as int]);
            assert(rest.skip(1) =~= w@.skip(i as int + 1));
        }
        match digit_val(chars[i], radix) {
            None => {
                return false;
            },
            Some(d) => {
                proof {
                    lemma_digits_val_some_indep(rest.skip(1), radix as nat, 0 * (radix as nat) + d as nat, 0);
                }
            },
        }
        i = i + 1;
    }
    proof {
        assert(w@.skip(n as int) =~= Seq::<char>::empty());
    }
    true
}

/// Read a raw-bytes line: every word as one byte, in address order.
pub fn parse_raw_bytes(words: &Vec<&str>) -> (r: Result<Vec<u8>, AssemblerError>)
    ensures
        match r {
            Ok(bytes) => spec_raw_bytes(spec_word_views(words@)) == Ok::<Seq<u8>, ErrView>(
                bytes@,
            ),
            Err(e) => spec_raw_bytes(spec_word_views(words@)) == Err::<Seq<u8>, ErrView>(e@),
        },
{
    let ghost wv = spec_word_views(words@);
    let n = words.len();
    let mut bytes: Vec<u8> = Vec::new();
    let mut i: usize = 0;
    proof {
        assert(wv.skip(0) =~= wv);
    }
    while i < n
        invariant
            i <= n,
            n == words@.len(),
            wv == spec_word_views(words@),
            match spec_raw_bytes(wv.skip(i as int)) {
                Ok(rest) => spec_raw_bytes(wv) == Ok::<Seq<u8>, ErrView>(bytes@ + rest),
                Err(e) => spec_raw_bytes(wv) == Err::<Seq<u8>, ErrView>(e),
            },
        decreases n - i,
    {
        proof {
            assert(wv.skip(i as int)[0] == wv[i as int]);
            assert(wv[i as int] == words@[i as int]@);
            assert(wv.skip(i as int).skip(1) =~= wv.skip(i as int + 1));
        }
        match parse_byte_operand(words[i]) {
            Err(e) => {
                return Err(e);
            },
            Ok(b) => {
                let ghost bytes_before = bytes@;
                bytes.push(b);
                proof {
                    match spec_raw_bytes(wv.skip(i as int + 1)) {
                        Ok(rest) => {
                            assert(bytes_before + (seq![b] + rest) =~= bytes@ + rest);
                        },
                        Err(e) => {},
                    }
                }
            },
        }
        i = i + 1;
    }
    proof {
        assert(wv.skip(n as int) =~= Seq::<Seq<char>>::empty());
        assert(bytes@ + Seq::<u8>::empty() =~= bytes@);
    }
    Ok(bytes)
}

/// Parse one source line against the label table and the memory ceiling,
/// placing any statement at the given address.
pub fn parse_line_with(
    line: &str,
    line_num: u32,
    table: &Vec<(&str, u16)>,
    max: u16,
    addr: u16,
) -> (r: Result<Option<Statement>, AssemblerError>)
    requires
        spec_table_wf(spec_table_view(table@), max),
        max <= 4096,
    ensures
        match r {
            Ok(None) => spec_parse_line(line@, line_num, spec_table_view(table@), max, addr)
                == Ok::<Option<StmtView>, ErrView>(None),
            Ok(Some(st)) => spec_parse_line(line@, line_num, spec_table_view(table@), max, addr)
                == Ok::<Option<StmtView>, ErrView>(Some(st@)) && match st@ {
                StmtView::Instruction { instruction, .. } => crate::instructions::wf_instruction(
                    instruction,
                ) && !(instruction is Unknown),
                _ => true,
            },
            Err(e) => spec_parse_line(line@, line_num, spec_table_view(table@), max, addr)
                == Err::<Option<StmtView>, ErrView>(e@),
        },
{
    let words = get_line_words(line);
    let ghost wv = spec_line_words(line@);
    proof {
        assert(spec_word_views(words@) =~= wv);
    }
    if words.len() == 0 {
        return Ok(None);
    }
    let w0 = words[0];
    let n0 = w0.unicode_len();
    proof {
        assert(words@[0]@ == wv[0]);
    }
    if words.len() == 1 && n0 > 0 && w0.get_char(n0 - 1) == ':' {
        let name = w0.substring_char(0, n0 - 1);
        if n0 == 1 {
            proof {
                assert(spec_label_name(wv).len() == 0);
            }
            return Err(
                AssemblerError::new(
                    String::from_str("Expected a label before the colon."),
                    Some(
                        crate::assembler_error::Location::new(
                            crate::assembler_error::LineLocation::try_from_line_words(
                                line,
                                &words,
                                0,
                            ),
                            line_num,
                        ),
                    ),
                ),
            );
        }
        proof {
            assert(name@ =~= spec_label_name(wv));
        }
        return Ok(
            Some(Statement::Label { name: String::from_str(name), mem_addr: addr }),
        );
    }
    let mut all_numeric = true;
    let mut i: usize = 0;
    while i < words.len() && all_numeric
        invariant
            i <= words@.len(),
            wv == spec_line_words(line@),
            spec_word_views(words@) == wv,
            all_numeric ==> (forall|k: int|
                0 <= k < i ==> (#[trigger] spec_literal(wv[k])) is Some),
            !all_numeric ==> (exists|k: int|
                0 <= k < words@.len() && !((#[trigger] spec_literal(wv[k])) is Some)),
        decreases words@.len() - i + (if all_numeric { 1int } else { 0int }),
    {
        proof {
            assert(wv[i as int] == words@[i as int]@);
        }
        if is_numeric_literal(words[i]) {
            i = i + 1;
        } else {
            all_numeric = false;
            proof {
                assert(!((spec_literal(wv[i as int])) is Some));
            }
        }
    }
    if all_numeric {
        proof {
            assert(spec_is_raw_line(wv));
        }
        match parse_raw_bytes(&words) {
            Err(e) => Err(e),
            Ok(bytes) => Ok(Some(Statement::RawBytes { bytes, mem_addr: addr })),
        }
    } else {
        proof {
            assert(!spec_is_raw_line(wv));
        }
        match parse_instruction_with(&words, line, line_num, table, max) {
            Err(e) => Err(e),
            Ok(instruction) => Ok(Some(Statement::Instruction { instruction, mem_addr: addr })),
        }
    }
}

/// The `Ok` values of the results, in order.
pub open spec fn spec_oks<T, E>(s: Seq<Result<T, E>>) -> Seq<T>
    decreases s.len(),
{
    if s.len() == 0 {
        Seq::empty()
    } else {
        match s[0] {
            Ok(v) => seq![v] + spec_oks(s.skip(1)),
            Err(_) => spec_oks(s.skip(1)),
        }
    }
}

/// The `Err` values of the results, in order.
pub open spec fn spec_errs<T, E>(s: Seq<Result<T, E>>) -> Seq<E>
    decreases s.len(),
{
    if s.len() == 0 {
        Seq::empty()
    } else {
        match s[0] {
            Ok(_) => spec_errs(s.skip(1)),
            Err(e) => seq![e] + spec_errs(s.skip(1)),
        }
    }
}

/// The `Some` values of the options, in order.
pub open spec fn spec_somes<T>(s: Seq<Option<T>>) -> Seq<T>
    decreases s.len(),
{
    if s.len() == 0 {
        Seq::empty()
    } else {
        match s[0] {
            Some(v) => seq![v] + spec_somes(s.skip(1)),
            None => spec_somes(s.skip(1)),
        }
    }
}

/// Relies on itertools' `partition_result`: the `Ok` values land in the
/// first vector and the `Err` values in the second, each in their original
/// order.
#[verifier::external_body]
fn partition_results<T, E>(v: Vec<Result<T, E>>) -> (r: (Vec<T>, Vec<E>))
    ensures
        r.0@ == spec_oks(v@),
        r.1@ == spec_errs(v@),
{
    v.into_iter().partition_result()
}

/// The mathematical content of one parsed line.
pub open spec fn spec_line_result_view(r: Result<Option<Statement>, AssemblerError>) -> Result<
    Option<StmtView>,
    ErrView,
> {
    match r {
        Ok(None) => Ok(None),
        Ok(Some(s)) => Ok(Some(s@)),
        Err(e) => Err(e@),
    }
}

/// The per-line results of parsing the whole text with an empty label table.
pub open spec fn spec_line_results(text: Seq<char>) -> Seq<Result<Option<StmtView>, ErrView>> {
    Seq::new(
        spec_line_words_len(text),
        |k: int|
            spec_parse_line(
                crate::text::spec_lines(text)[k],
                k as u32,
                Seq::empty(),
                4096,
                0,
            ),
    )
}

/// The number of lines of the text.
pub open spec fn spec_line_words_len(text: Seq<char>) -> nat {
    crate::text::spec_lines(text).len()
}

/// The statements the text denotes with no label table and no layout
/// (every statement at address 0), or every line's diagnostic.
pub open spec fn spec_parse_lines(text: Seq<char>) -> Result<Seq<StmtView>, Seq<ErrView>> {
    let results = spec_line_results(text);
    let errs = spec_errs(results);
    if errs.len() > 0 {
        Err(errs)
    } else {
        Ok(spec_somes(spec_oks(results)))
    }
}

/// Taking the `Err` values commutes with taking views.
proof fn lemma_errs_view(s: Seq<Result<Option<Statement>, AssemblerError>>)
    ensures
        spec_errs(s).map_values(|e: AssemblerError| e@) =~= spec_errs(
            s.map_values(|r: Result<Option<Statement>, AssemblerError>| spec_line_result_view(r)),
        ),
    decreases s.len(),
{
    let f = |r: Result<Option<Statement>, AssemblerError>| spec_line_result_view(r);
    if s.len() > 0 {
        lemma_errs_view(s.skip(1));
        assert(s.skip(1).map_values(f) =~= s.map_values(f).skip(1));
        assert(s.map_values(f)[0] == f(s[0]));
        match s[0] {
            Ok(_) => {},
            Err(e) => {
                let t = spec_errs(s.skip(1));
                assert((seq![e] + t).skip(1) =~= t);
                assert(spec_errs(s) =~= seq![e] + t);
                let mt = spec_errs(s.map_values(f).skip(1));
                assert((seq![e@] + mt).skip(1) =~= mt);
                assert(spec_errs(s.map_values(f)) =~= seq![e@] + mt);
                assert(spec_errs(s).map_values(|e2: AssemblerError| e2@) =~= seq![e@] + t.map_values(
                    |e2: AssemblerError| e2@,
                ));
            },
        }
    }
}

/// Flattening the `Ok` values commutes with taking views.
proof fn lemma_oks_view(s: Seq<Result<Option<Statement>, AssemblerError>>)
    ensures
        spec_somes(spec_oks(s)).map_values(|st: Statement| st@) =~= spec_somes(
            spec_oks(
                s.map_values(
                    |r: Result<Option<Statement>, AssemblerError>| spec_line_result_view(r),
                ),
            ),
        ),
    decreases s.len(),
{
    let f = |r: Result<Option<Statement>, AssemblerError>| spec_line_result_view(r);
    if s.len() > 0 {
        lemma_oks_view(s.skip(1));
        assert(s.skip(1).map_values(f) =~= s.map_values(f).skip(1));
        assert(s.map_values(f)[0] == f(s[0]));
        let t = spec_oks(s.skip(1));
        let mt = spec_oks(s.map_values(f).skip(1));
        match s[0] {
            Ok(Some(st)) => {
                assert((seq![Option::Some(st)] + t).skip(1) =~= t);
                assert(spec_oks(s) =~= seq![Option::Some(st)] + t);
                assert(spec_somes(spec_oks(s)) =~= seq![st] + spec_somes(t));
                assert((seq![Option::Some(st@)] + mt).skip(1) =~= mt);
                assert(spec_oks(s.map_values(f)) =~= seq![Option::Some(st@)] + mt);
                assert(spec_somes(spec_oks(s.map_values(f))) =~= seq![st@] + spec_somes(mt));
                assert(spec_somes(spec_oks(s)).map_values(|t2: Statement| t2@) =~= seq![st@]
                    + spec_somes(t).map_values(|t2: Statement| t2@));
            },
            Ok(None) => {
                assert((seq![Option::None::<Statement>] + t).skip(1) =~= t);
                assert(spec_oks(s) =~= seq![Option::None::<Statement>] + t);
                assert(spec_somes(spec_oks(s)) =~= spec_somes(t));
                assert((seq![Option::None::<StmtView>] + mt).skip(1) =~= mt);
                assert(spec_oks(s.map_values(f)) =~= seq![Option::None::<StmtView>] + mt);
                assert(spec_somes(spec_oks(s.map_values(f))) =~= spec_somes(mt));
            },
            Err(_) => {},
        }
    }
}

/// Parse every line of the text with no label table and no layout: the
/// statements in source order, with every address 0, or the collected
/// diagnostics of every failing line.
pub fn parse_lines(text: &str) -> (r: Result<Vec<Statement>, Vec<AssemblerError>>)
    ensures
        match r {
            Ok(stmts) => spec_parse_lines(text@) == Ok::<Seq<StmtView>, Seq<ErrView>>(
                stmts@.map_values(|st: Statement| st@),
            ),
            Err(errs) => spec_parse_lines(text@) == Err::<Seq<StmtView>, Seq<ErrView>>(
                errs@.map_values(|e: AssemblerError| e@),
            ) && errs@.len() > 0,
        },
{
    let lines = crate::text::split_lines(text);
    let empty_table: Vec<(&str, u16)> = Vec::new();
    proof {
        assert(spec_table_view(empty_table@) =~= Seq::<LabelEntry>::empty());
        assert(spec_table_wf(spec_table_view(empty_table@), 4096));
    }
    let n = lines.len();
    let mut results: Vec<Result<Option<Statement>, AssemblerError>> = Vec::new();
    let mut k: usize = 0;
    while k < n
        invariant
            k <= n,
            n == lines@.len(),
            n == crate::text::spec_lines(text@).len(),
            forall|j: int|
                0 <= j < n ==> lines@[j]@ == crate::text::spec_lines(text@)[j],
            results@.len() == k,
            results@.map_values(
                |r: Result<Option<Statement>, AssemblerError>| spec_line_result_view(r),
            ) =~= spec_line_results(text@).take(k as int),
            spec_table_view(empty_table@) == Seq::<LabelEntry>::empty(),
            spec_table_wf(spec_table_view(empty_table@), 4096),
        decreases n - k,
    {
        let ghost before = results@;
        let res = parse_line_with(lines[k], k as u32, &empty_table, 4096, 0);
        results.push(res);
        proof {
            let g = |r: Result<Option<Statement>, AssemblerError>| spec_line_result_view(r);
            assert(results@.map_values(g) =~= before.map_values(g).push(
                spec_line_result_view(res),
            ));
            assert(lines@[k as int]@ == crate::text::spec_lines(text@)[k as int]);
            assert(spec_line_results(text@)[k as int] == spec_parse_line(
                crate::text::spec_lines(text@)[k as int],
                k as u32,
                Seq::empty(),
                4096,
                0,
            ));
            assert(spec_line_result_view(res) == spec_line_results(text@)[k as int]);
            assert(results@.map_values(g) =~= spec_line_results(text@).take(k as int + 1));
        }
        k = k + 1;
    }
    proof {
        assert(results@.map_values(
            |r: Result<Option<Statement>, AssemblerError>| spec_line_result_view(r),
        ) =~= spec_line_results(text@));
        lemma_errs_view(results@);
        lemma_oks_view(results@);
    }
    let ghost rv = results@;
    let (oks, errs) = partition_results(results);
    if errs.len() > 0 {
        Err(errs)
    } else {
        proof {
            assert(spec_errs(rv).map_values(|e: AssemblerError| e@) =~= Seq::<ErrView>::empty());
            assert(spec_errs(rv.map_values(
                |r: Result<Option<Statement>, AssemblerError>| spec_line_result_view(r),
            )).len() == 0);
        }
        let ghost oks0 = oks@;
        let mut rest = oks;
        let mut stmts: Vec<Statement> = Vec::new();
        while rest.len() > 0
            invariant
                spec_somes(oks0) =~= stmts@ + spec_somes(rest@),
            decreases rest@.len(),
        {
            let ghost rbefore = rest@;
            let head = rest.remove(0);
            proof {
                assert(rbefore.remove(0) =~= rbefore.skip(1));
            }
            match head {
                Some(st) => {
                    stmts.push(st);
                },
                None => {},
            }
        }
        proof {
            assert(spec_somes(rest@) =~= Seq::<Statement>::empty());
            assert(stmts@ =~= spec_somes(oks0));
            assert(stmts@.map_values(|st: Statement| st@) =~= spec_somes(oks0).map_values(
                |st: Statement| st@,
            ));
        }
        Ok(stmts)
    }
}

/// Parse one source line with no label table and no layout: any statement
/// lands at address 0.
pub fn parse_line(line: &str, line_num: u32) -> (r: Result<Option<Statement>, AssemblerError>)
    ensures
        match r {
            Ok(None) => spec_parse_line(line@, line_num, Seq::empty(), 4096, 0) == Ok::<
                Option<StmtView>,
                ErrView,
            >(None),
            Ok(Some(st)) => spec_parse_line(line@, line_num, Seq::empty(), 4096, 0) == Ok::<
                Option<StmtView>,
                ErrView,
            >(Some(st@)),
            Err(e) => spec_parse_line(line@, line_num, Seq::empty(), 4096, 0) == Err::<
                Option<StmtView>,
                ErrView,
            >(e@),
        },
{
    let empty_table: Vec<(&str, u16)> = Vec::new();
    proof {
        assert(spec_table_view(empty_table@) =~= Seq::<LabelEntry>::empty());
        assert(spec_table_wf(spec_table_view(empty_table@), 4096));
    }
    parse_line_with(line, line_num, &empty_table, 4096, 0)
}

/// Parse one instruction line with no label table: mnemonics and operands
/// only, addresses bounded by the full memory space.
pub fn parse_instruction(line: &str, line_num: u32) -> (r: Result<Instruction, AssemblerError>)
    ensures
        match r {
            Ok(i) => spec_parse_instruction(
                spec_line_words(line@),
                line@,
                line_num,
                Seq::empty(),
                4096,
            ) == Ok::<Instruction, ErrView>(i) && crate::instructions::wf_instruction(i) && !(
            i is Unknown),
            Err(e) => spec_parse_instruction(
                spec_line_words(line@),
                line@,
                line_num,
                Seq::empty(),
                4096,
            ) == Err::<Instruction, ErrView>(e@),
        },
{
    let words = get_line_words(line);
    let empty_table: Vec<(&str, u16)> = Vec::new();
    proof {
        assert(spec_table_view(empty_table@) =~= Seq::<LabelEntry>::empty());
        assert(spec_table_wf(spec_table_view(empty_table@), 4096));
        assert(spec_word_views(words@) =~= spec_line_words(line@));
    }
    parse_instruction_with(&words, line, line_num, &empty_table, 4096)
}

/// Build the jump instruction a jump line denotes, with no label table.
pub fn get_jump(line: &str, words: &Vec<&str>, line_num: u32) -> (r: Result<
    Instruction,
    AssemblerError,
>)
    ensures
        match r {
            Ok(i) => spec_get_jump(
                spec_word_views(words@),
                line@,
                line_num,
                Seq::empty(),
                4096,
            ) == Ok::<Instruction, ErrView>(i),
            Err(e) => spec_get_jump(
                spec_word_views(words@),
                line@,
                line_num,
                Seq::empty(),
                4096,
            ) == Err::<Instruction, ErrView>(e@),
        },
{
    let empty_table: Vec<(&str, u16)> = Vec::new();
    proof {
        assert(spec_table_view(empty_table@) =~= Seq::<LabelEntry>::empty());
        assert(spec_table_wf(spec_table_view(empty_table@), 4096));
    }
    get_jump_with(words, line, line_num, &empty_table, 4096)
}

} // verus!
