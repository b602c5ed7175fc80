//! The assembler entry point: a deterministic two-pass transform from source
//! text to a flat byte image, fully resolving forward label references, or
//! the collected diagnostics. Assembly either fully succeeds or returns only
//! errors — never a partial image.

use vstd::prelude::*;
use vstd::string::StringExecFns;

use crate::assembler_error::AssemblerError;
use crate::assembler_error::ErrView;
use crate::instructions::spec_encode;
use crate::parse::spec_byte_operand;
use crate::parse::spec_is_label_line;
use crate::parse::spec_is_raw_line;
use crate::parse::spec_label_name;
use crate::parse::spec_lookup;
use crate::parse::spec_parse_line;
use crate::parse::LabelEntry;
use crate::statement::Statement;
use crate::statement::StmtView;
use crate::text::spec_line_words;
use crate::text::spec_lines;

verus! {

/// How many bytes of the image one source line occupies: labels and blank
/// lines none, raw-bytes lines one per word, instruction lines two.
pub open spec fn spec_line_size(line: Seq<char>) -> int {
    let words = spec_line_words(line);
    if words.len() == 0 {
        0
    } else if spec_is_label_line(words) {
        0
    } else if spec_is_raw_line(words) {
        words.len() as int
    } else {
        2
    }
}

/// The index of the first line whose statement would not fit below the
/// memory ceiling, walking addresses from `addr`, if any.
pub open spec fn spec_find_mem(lines: Seq<Seq<char>>, addr: int, max: int) -> Option<nat>
    decreases lines.len(),
{
    if lines.len() == 0 {
        None
    } else {
        let words = spec_line_words(lines[0]);
        let size = spec_line_size(lines[0]);
        if words.len() > 0 && (addr >= max || addr + size > max) {
            Some(0)
        } else {
            match spec_find_mem(lines.skip(1), addr + size, max) {
                None => None,
                Some(k) => Some(k + 1),
            }
        }
    }
}

/// The label table and the duplicate-label diagnostics of the layout pass:
/// walk the lines from line number `ln` at address `addr`, extending the
/// table `acc`; a name declared again keeps its first address and earns one
/// diagnostic naming it.
pub open spec fn spec_pass_a(lines: Seq<Seq<char>>, ln: int, addr: int, acc: Seq<LabelEntry>) -> (
    Seq<LabelEntry>,
    Seq<ErrView>,
)
    decreases lines.len(),
{
    if lines.len() == 0 {
        (acc, Seq::empty())
    } else {
        let words = spec_line_words(lines[0]);
        let size = spec_line_size(lines[0]);
        if spec_is_label_line(words) && spec_label_name(words).len() > 0 {
            let name = spec_label_name(words);
            let acc2 = acc.push((name, addr as u16));
            let here: Seq<ErrView> = if spec_lookup(acc, name) is Some {
                seq![spec_dup_err(name, ln as u32)]
            } else {
                Seq::empty()
            };
            let rest = spec_pass_a(lines.skip(1), ln + 1, addr + size, acc2);
            (rest.0, here + rest.1)
        } else {
            let rest = spec_pass_a(lines.skip(1), ln + 1, addr + size, acc);
            (rest.0, rest.1)
        }
    }
}

/// The diagnostic for a label declared a second time.
pub open spec fn spec_dup_err(name: Seq<char>, line_num: u32) -> ErrView {
    ErrView {
        message: "Label '"@ + name + ":' already used."@,
        src_location: Some(
            crate::assembler_error::Location { line_location: None, line_num },
        ),
    }
}

/// The byte image and the diagnostics of the resolution pass: every line
/// parsed against the finished label table, instruction lines encoded to
/// their two bytes and raw-bytes lines appended verbatim.
pub open spec fn spec_pass_c(
    lines: Seq<Seq<char>>,
    ln: int,
    addr: int,
    table: Seq<LabelEntry>,
    max: u16,
) -> (Seq<u8>, Seq<ErrView>)
    decreases lines.len(),
{
    if lines.len() == 0 {
        (Seq::empty(), Seq::empty())
    } else {
        let size = spec_line_size(lines[0]);
        let head: (Seq<u8>, Seq<ErrView>) = match spec_parse_line(
            lines[0],
            ln as u32,
            table,
            max,
            addr as u16,
        ) {
            Ok(None) => (Seq::empty(), Seq::empty()),
            Ok(Some(st)) => match st {
                StmtView::Label { .. } => (Seq::empty(), Seq::empty()),
                StmtView::Instruction { instruction, .. } => (
                    seq![spec_encode(instruction).0, spec_encode(instruction).1],
                    Seq::empty(),
                ),
                StmtView::RawBytes { bytes, .. } => (bytes, Seq::empty()),
            },
            Err(e) => (Seq::empty(), seq![e]),
        };
        let rest = spec_pass_c(lines.skip(1), ln + 1, addr + size, table, max);
        (head.0 + rest.0, head.1 + rest.1)
    }
}

/// One lowercase hexadecimal digit.
pub open spec fn spec_hex_digit(d: int) -> char {
    if d == 0 {
        '0'
    } else if d == 1 {
        '1'
    } else if d == 2 {
        '2'
    } else if d == 3 {
        '3'
    } else if d == 4 {
        '4'
    } else if d == 5 {
        '5'
    } else if d == 6 {
        '6'
    } else if d == 7 {
        '7'
    } else if d == 8 {
        '8'
    } else if d == 9 {
        '9'
    } else if d == 10 {
        'a'
    } else if d == 11 {
        'b'
    } else if d == 12 {
        'c'
    } else if d == 13 {
        'd'
    } else if d == 14 {
        'e'
    } else {
        'f'
    }
}

/// The lowercase hexadecimal digits of a value, most significant first, with
/// no leading zeros (a single `0` for zero).
pub open spec fn spec_hex(v: int) -> Seq<char>
    decreases v,
{
    if v < 16 {
        seq![spec_hex_digit(v)]
    } else {
        spec_hex(v / 16) + seq![spec_hex_digit(v % 16)]
    }
}

/// The diagnostic for a statement that would not fit below the memory
/// ceiling, naming the ceiling and the offending line.
pub open spec fn spec_mem_err(line_num: u32, max: u16) -> ErrView {
    ErrView {
        message: "Memory exceeds available space (0x"@ + spec_hex(max as int) + ")"@,
        src_location: Some(
            crate::assembler_error::Location { line_location: None, line_num },
        ),
    }
}

/// The byte image the source denotes when laid out from `start` below
/// `max`, or the diagnostics: the lone memory-exhaustion error the moment a
/// statement no longer fits, else every failing line's diagnostic together
/// with one diagnostic per duplicate label.
pub open spec fn spec_assemble(text: Seq<char>, start: u16, max: u16) -> Result<
    Seq<u8>,
    Seq<ErrView>,
> {
    let lines = spec_lines(text);
    match spec_find_mem(lines, start as int, max as int) {
        Some(k) => Err(seq![spec_mem_err(k as u32, max)]),
        None => {
            let (table, dups) = spec_pass_a(lines, 0, start as int, Seq::empty());
            let (image, errs) = spec_pass_c(lines, 0, start as int, table, max);
            if dups.len() + errs.len() > 0 {
                Err(dups + errs)
            } else {
                Ok(image)
            }
        },
    }
}

/// Same input, same outcome: the assembler is a pure function of the source
/// text, the start address and the memory ceiling.
pub proof fn lemma_assemble_deterministic(
    text1: Seq<char>,
    text2: Seq<char>,
    start: u16,
    max: u16,
)
    requires
        text1 == text2,
    ensures
        spec_assemble(text1, start, max) == spec_assemble(text2, start, max),
{
}

/// One lowercase hexadecimal digit.
fn hex_digit_str(d: u16) -> (r: &'static str)
    requires
        d < 16,
    ensures
        r@ =~= seq![spec_hex_digit(d as int)],
{
    proof {
        reveal_strlit("0");
        reveal_strlit("1");
        reveal_strlit("2");
        reveal_strlit("3");
        reveal_strlit("4");
        reveal_strlit("5");
        reveal_strlit("6");
        reveal_strlit("7");
        reveal_strlit("8");
        reveal_strlit("9");
        reveal_strlit("a");
        reveal_strlit("b");
        reveal_strlit("c");
        reveal_strlit("d");
        reveal_strlit("e");
        reveal_strlit("f");
    }
    match d {
        0 => "0",
        1 => "1",
        2 => "2",
        3 => "3",
        4 => "4",
        5 => "5",
        6 => "6",
        7 => "7",
        8 => "8",
        9 => "9",
        10 => "a",
        11 => "b",
        12 => "c",
        13 => "d",
        14 => "e",
        _ => "f",
    }
}

/// The lowercase hexadecimal digits of a value, most significant first.
fn hex_digits(v: u16) -> (r: String)
    ensures
        r@ == spec_hex(v as int),
    decreases v,
{
    if v < 16 {
        String::from_str(hex_digit_str(v))
    } else {
        let mut s = hex_digits(v / 16);
        s.append(hex_digit_str(v % 16));
        s
    }
}

/// The diagnostic for a statement that would not fit below the memory
/// ceiling.
fn mem_error(line_num: u32, max: u16) -> (e: AssemblerError)
    ensures
        e@ == spec_mem_err(line_num, max),
{
    let mut message = String::from_str("Memory exceeds available space (0x");
    let digits = hex_digits(max);
    message.append(digits.as_str());
    message.append(")");
    proof {
        reveal_strlit(")");
        assert(message@ =~= spec_mem_err(line_num, max).message);
    }
    AssemblerError::new_no_options(
        message,
        crate::assembler_error::Location::new_line_num(line_num),
    )
}

/// The diagnostic for a label declared a second time, naming it.
fn dup_error(name: &str, line_num: u32) -> (e: AssemblerError)
    ensures
        e@ == spec_dup_err(name@, line_num),
{
    let mut message = String::from_str("Label '");
    message.append(name);
    message.append(":' already used.");
    proof {
        assert(message@ =~= spec_dup_err(name@, line_num).message);
    }
    AssemblerError::new_no_options(
        message,
        crate::assembler_error::Location::new_line_num(line_num),
    )
}

/// Whether the words form a label declaration line.
fn is_label_words(words: &Vec<&str>) -> (r: bool)
    ensures
        r == spec_is_label_line(crate::parse::spec_word_views(words@)),
{
    proof {
        if words@.len() > 0 {
            assert(crate::parse::spec_word_views(words@)[0] == words@[0]@);
        }
    }
    if words.len() != 1 {
        return false;
    }
    let w0 = words[0];
    let n0 = w0.unicode_len();
    n0 > 0 && w0.get_char(n0 - 1) == ':'
}

/// Whether every word parses as a numeric literal (and there is a word).
fn is_raw_words(words: &Vec<&str>) -> (r: bool)
    ensures
        r == spec_is_raw_line(crate::parse::spec_word_views(words@)),
{
    let ghost wv = crate::parse::spec_word_views(words@);
    if words.len() == 0 {
        return false;
    }
    let n = words.len();
    let mut i: usize = 0;
    while i < n
        invariant
            i <= n,
            n == words@.len(),
            wv == crate::parse::spec_word_views(words@),
            forall|k: int|
                0 <= k < i ==> (#[trigger] crate::parse::spec_literal(wv[k])) is Some,
        decreases n - i,
    {
        proof {
            assert(wv[i as int] == words@[i as int]@);
        }
        if !crate::parse::is_numeric_literal(words[i]) {
            return false;
        }
        i = i + 1;
    }
    true
}

/// How many bytes of the image these words occupy.
fn words_size(words: &Vec<&str>) -> (r: usize)
    ensures
        ({
            let wv = crate::parse::spec_word_views(words@);
            r as int == if wv.len() == 0 {
                0int
            } else if spec_is_label_line(wv) {
                0int
            } else if spec_is_raw_line(wv) {
                wv.len() as int
            } else {
                2int
            }
        }),
{
    if words.len() == 0 {
        0
    } else if is_label_words(words) {
        0
    } else if is_raw_words(words) {
        words.len()
    } else {
        2
    }
}

/// Assemble source text into a byte image laid out from `mem_addr_start`,
/// every statement below `mem_addr_max`: two passes resolve every label
/// (forward references included) before any operand parses, and the result
/// is the full image or only diagnostics — one lone memory-exhaustion error
/// the moment a statement no longer fits, else every failing line's
/// diagnostic after one diagnostic per duplicate label.
#[verifier::rlimit(100)]
pub fn assemble(text: &str, mem_addr_start: u16, mem_addr_max: u16) -> (r: Result<
    Vec<u8>,
    Vec<AssemblerError>,
>)
    requires
        mem_addr_max <= 4096,
    ensures
        match r {
            Ok(image) => spec_assemble(text@, mem_addr_start, mem_addr_max) == Ok::<
                Seq<u8>,
                Seq<ErrView>,
            >(image@),
            Err(errs) => spec_assemble(text@, mem_addr_start, mem_addr_max) == Err::<
                Seq<u8>,
                Seq<ErrView>,
            >(errs@.map_values(|e: AssemblerError| e@)) && errs@.len() > 0,
        },
{
    let ghost lviews = spec_lines(text@);
    let ghost start_i = mem_addr_start as int;
    let ghost max_i = mem_addr_max as int;
    let lines = crate::text::split_lines(text);
    let n = lines.len();
    let maxu = mem_addr_max as usize;

    let mut table: Vec<(&str, u16)> = Vec::new();
    let mut dups: Vec<AssemblerError> = Vec::new();
    let mut addr: usize = mem_addr_start as usize;
    let mut k: usize = 0;
    proof {
        assert(lviews.skip(0) =~= lviews);
        assert(crate::parse::spec_table_view(table@) =~= Seq::<LabelEntry>::empty());
    }
    while k < n
        invariant
            k <= n,
            n == lines@.len(),
            n == lviews.len(),
            lviews == spec_lines(text@),
            start_i == mem_addr_start as int,
            max_i == mem_addr_max as int,
            maxu == mem_addr_max as usize,
            mem_addr_max <= 4096,
            forall|j: int| 0 <= j < n ==> lines@[j]@ == lviews[j],
            addr == mem_addr_start as usize || addr <= maxu,
            crate::parse::spec_table_wf(crate::parse::spec_table_view(table@), mem_addr_max),
            (match spec_find_mem(lviews.skip(k as int), addr as int, max_i) {
                None => spec_find_mem(lviews, start_i, max_i) is None,
                Some(j) => spec_find_mem(lviews, start_i, max_i) == Some((k + j) as nat),
            }),
            spec_pass_a(lviews, 0, start_i, Seq::empty()).0 == spec_pass_a(
                lviews.skip(k as int),
                k as int,
                addr as int,
                crate::parse::spec_table_view(table@),
            ).0,
            spec_pass_a(lviews, 0, start_i, Seq::empty()).1 =~= dups@.map_values(
                |e: AssemblerError| e@,
            ) + spec_pass_a(
                lviews.skip(k as int),
                k as int,
                addr as int,
                crate::parse::spec_table_view(table@),
            ).1,
        decreases n - k,
    {
        let ghost rest = lviews.skip(k as int);
        let ghost tview = crate::parse::spec_table_view(table@);
        let words = get_line_words_of(&lines, k);
        let ghost wv = crate::parse::spec_word_views(words@);
        proof {
            assert(rest[0] == lviews[k as int]);
            assert(wv =~= spec_line_words(rest[0]));
            assert(rest.skip(1) =~= lviews.skip(k as int + 1));
        }
        let size = words_size(&words);
        proof {
            assert(size as int == spec_line_size(rest[0]));
        }
        if words.len() > 0 && (addr >= maxu || size > maxu - addr) {
            proof {
                assert(spec_find_mem(rest, addr as int, max_i) == Some(0nat));
                assert(spec_find_mem(lviews, start_i, max_i) == Some(k as nat));
            }
            let e = mem_error(k as u32, mem_addr_max);
            let mut errs: Vec<AssemblerError> = Vec::new();
            errs.push(e);
            proof {
                assert(errs@.map_values(|e2: AssemblerError| e2@) =~= seq![
                    spec_mem_err(k as u32, mem_addr_max),
                ]);
            }
            return Err(errs);
        }
        proof {
            assert(!(wv.len() > 0 && (addr as int >= max_i || addr as int + size as int
                > max_i)));
        }
        if is_label_words(&words) {
            let w0 = words[0];
            let n0 = w0.unicode_len();
            if n0 > 1 {
                let name = w0.substring_char(0, n0 - 1);
                proof {
                    assert(wv[0] == words@[0]@);
                    assert(name@ =~= spec_label_name(wv));
                    assert(spec_label_name(wv).len() > 0);
                }
                match crate::parse::lookup_label(&table, name) {
                    Some(_) => {
                        let ghost dups_before = dups@;
                        dups.push(dup_error(name, k as u32));
                        proof {
                            assert(dups@.map_values(|e2: AssemblerError| e2@)
                                =~= dups_before.map_values(|e2: AssemblerError| e2@).push(
                                spec_dup_err(name@, k as u32),
                            ));
                        }
                    },
                    None => {},
                }
                let ghost tbefore = table@;
                table.push((name, addr as u16));
                proof {
                    assert(crate::parse::spec_table_view(table@)
                        =~= crate::parse::spec_table_view(tbefore).push(
                        (name@, addr as u16),
                    ));
                    assert forall|i: int|
                        0 <= i < crate::parse::spec_table_view(table@).len() implies (
                    #[trigger] crate::parse::spec_table_view(table@)[i]).1
                        < mem_addr_max by {
                        if i < crate::parse::spec_table_view(tbefore).len() {
                            assert(crate::parse::spec_table_view(tbefore)[i].1 < mem_addr_max);
                        }
                    }
                }
            } else {
                proof {
                    assert(wv[0] == words@[0]@);
                    assert(spec_label_name(wv).len() == 0);
                }
            }
        }
        addr = addr + size;
        k = k + 1;
    }
    proof {
        assert(lviews.skip(n as int) =~= Seq::<Seq<char>>::empty());
        assert(spec_find_mem(lviews, start_i, max_i) is None);
        assert(spec_pass_a(lviews, 0, start_i, Seq::empty()).1 =~= dups@.map_values(
            |e: AssemblerError| e@,
        ));
    }
    let ghost table_final = crate::parse::spec_table_view(table@);

    let mut image: Vec<u8> = Vec::new();
    let mut errs: Vec<AssemblerError> = Vec::new();
    let mut addr: usize = mem_addr_start as usize;
    let mut k: usize = 0;
    proof {
        assert(lviews.skip(0) =~= lviews);
    }
    while k < n
        invariant
            k <= n,
            n == lines@.len(),
            n == lviews.len(),
            lviews == spec_lines(text@),
            start_i == mem_addr_start as int,
            max_i == mem_addr_max as int,
            maxu == mem_addr_max as usize,
            mem_addr_max <= 4096,
            forall|j: int| 0 <= j < n ==> lines@[j]@ == lviews[j],
            table_final == crate::parse::spec_table_view(table@),
            crate::parse::spec_table_wf(table_final, mem_addr_max),
            spec_find_mem(lviews.skip(k as int), addr as int, max_i) is None,
            spec_pass_c(lviews, 0, start_i, table_final, mem_addr_max).0 =~= image@ + spec_pass_c(
                lviews.skip(k as int),
                k as int,
                addr as int,
                table_final,
                mem_addr_max,
            ).0,
            spec_pass_c(lviews, 0, start_i, table_final, mem_addr_max).1 =~= errs@.map_values(
                |e: AssemblerError| e@,
            ) + spec_pass_c(
                lviews.skip(k as int),
                k as int,
                addr as int,
                table_final,
                mem_addr_max,
            ).1,
            addr == mem_addr_start as usize || addr <= maxu,
        decreases n - k,
    {
        let ghost rest = lviews.skip(k as int);
        let words = get_line_words_of(&lines, k);
        let ghost wv = crate::parse::spec_word_views(words@);
        proof {
            assert(rest[0] == lviews[k as int]);
            assert(wv =~= spec_line_words(rest[0]));
            assert(rest.skip(1) =~= lviews.skip(k as int + 1));
        }
        let size = words_size(&words);
        proof {
            assert(size as int == spec_line_size(rest[0]));
            assert(spec_find_mem(rest, addr as int, max_i) is None);
            if wv.len() > 0 {
                assert(!(addr as int >= max_i || addr as int + size as int > max_i));
            }
        }
        let ghost ibefore = image@;
        let ghost ebefore = errs@;
        let res = crate::parse::parse_line_with(
            lines[k],
            k as u32,
            &table,
            mem_addr_max,
            addr as u16,
        );
        match res {
            Err(e) => {
                errs.push(e);
            },
            Ok(None) => {},
            Ok(Some(st)) => match st {
                Statement::Label { .. } => {},
                Statement::Instruction { instruction, .. } => {
                    let (b1, b2) = crate::instructions::encode_instruction(&instruction);
                    image.push(b1);
                    image.push(b2);
                },
                Statement::RawBytes { bytes, .. } => {
                    let mut bytes = bytes;
                    image.append(&mut bytes);
                },
            },
        }
        proof {
            assert(spec_pass_c(lviews, 0, start_i, table_final, mem_addr_max).0 =~= image@
                + spec_pass_c(
                lviews.skip(k as int + 1),
                k as int + 1,
                addr as int + size as int,
                table_final,
                mem_addr_max,
            ).0);
            assert(spec_pass_c(lviews, 0, start_i, table_final, mem_addr_max).1
                =~= errs@.map_values(|e: AssemblerError| e@) + spec_pass_c(
                lviews.skip(k as int + 1),
                k as int + 1,
                addr as int + size as int,
                table_final,
                mem_addr_max,
            ).1);
        }
        addr = addr + size;
        k = k + 1;
    }
    proof {
        assert(lviews.skip(n as int) =~= Seq::<Seq<char>>::empty());
        assert(spec_pass_c(lviews, 0, start_i, table_final, mem_addr_max).0 =~= image@);
        assert(spec_pass_c(lviews, 0, start_i, table_final, mem_addr_max).1 =~= errs@.map_values(
            |e: AssemblerError| e@,
        ));
    }
    if dups.len() > 0 || errs.len() > 0 {
        let ghost dv = dups@;
        let ghost ev = errs@;
        let mut all = dups;
        let mut errs = errs;
        all.append(&mut errs);
        proof {
            assert(all@.map_values(|e: AssemblerError| e@) =~= dv.map_values(
                |e: AssemblerError| e@,
            ) + ev.map_values(|e: AssemblerError| e@));
        }
        Err(all)
    } else {
        proof {
            assert(dups@.map_values(|e: AssemblerError| e@).len() == 0);
            assert(errs@.map_values(|e: AssemblerError| e@).len() == 0);
        }
        Ok(image)
    }
}

/// The words of line `k`.
fn get_line_words_of<'a>(lines: &Vec<&'a str>, k: usize) -> (r: Vec<&'a str>)
    requires
        k < lines@.len(),
    ensures
        r@.len() == spec_line_words(lines@[k as int]@).len(),
        forall|j: int| 0 <= j < r@.len() ==> r@[j]@ == spec_line_words(lines@[k as int]@)[j],
        crate::parse::spec_word_views(r@) =~= spec_line_words(lines@[k as int]@),
{
    let r = crate::text::get_line_words(lines[k]);
    proof {
        assert(crate::parse::spec_word_views(r@) =~= spec_line_words(lines@[k as int]@));
    }
    r
}

} // verus!
