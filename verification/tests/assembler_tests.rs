use chip8::assemble;
use chip8::parse_lines;
use chip8::Instruction;
use chip8::LineLocation;
use chip8::Statement;

const DUPLICATE_LABELS_SRC: &str = "
label1:
label2:
label1:
";

#[test]
fn test_duplicate_labels() {
    let result = assemble(DUPLICATE_LABELS_SRC, 0, 0x100);
    assert!(result.is_err());

    let errors = result.unwrap_err();
    let duplicate_label_error = errors.first().unwrap();
    assert_eq!("Label 'label1:' already used.", duplicate_label_error.message);
}

const COMMENTS_SRC: &str = "
# comment 1
  # comment 2
; semicolon test
// double slash test
@ doc comment test
";

#[test]
fn test_comments() {
    let result = assemble(COMMENTS_SRC, 0, 0x100);
    assert!(result.is_ok());
    assert_eq!(0, result.unwrap().len());
}

const MEM_SPACE_EXCEEDED_SRC: &str = "
0x00 0x00
0x00 0x00
0x00 0x00
0x00 0x00
";

#[test]
fn test_mem_space_exceeded() {
    let result = assemble(MEM_SPACE_EXCEEDED_SRC, 0, 0x2);
    assert!(result.is_err());

    let errors = result.unwrap_err();
    let duplicate_label_error = errors.first().unwrap();
    assert_eq!(
        "Memory exceeds available space (0x2)",
        duplicate_label_error.message
    );
}

const BASIC_PROGRAM_SRC: &str = "
  LD V1 10
  JP 0x4
  0x01 0x02 0x03 0x04
";

#[test]
fn test_basic_program() {
    let result = assemble(BASIC_PROGRAM_SRC, 0, 0x20);
    assert!(result.is_ok(), "Expected Ok, but got {:?}", result);

    let bytes = result.unwrap();
    assert_eq!(vec![97, 10, 16, 4, 1, 2, 3, 4], bytes);
}

#[test]
fn test_error_parsing_number() {
    let Err(errors) = parse_lines("jp abc") else {
        panic!("Parsing statements failed to fail.");
    };

    assert_eq!(1, errors.len());
    let Some(error) = errors.first() else {
        panic!();
    };

    assert!(error.message.find("Failed to parse number").is_some());
}

#[test]
fn test_set_label_mem_addr() {
    let mut label = Statement::Label {
        name: "test".to_string(),
        mem_addr: 0,
    };
    Statement::set_mem_addr(&mut label, 1);
    if let Statement::Label { mem_addr, .. } = label {
        assert_eq!(1, mem_addr)
    } else {
        panic!()
    }
}

#[test]
fn test_set_instruction_mem_addr() {
    let mut instruction = Statement::Instruction {
        instruction: Instruction::Exit,
        mem_addr: 0,
    };
    Statement::set_mem_addr(&mut instruction, 1);
    if let Statement::Instruction { mem_addr, .. } = instruction {
        assert_eq!(1, mem_addr)
    } else {
        panic!()
    }
}

#[test]
fn test_line_location_from_line_words() {
    let line = "Can you parse my text?";
    let words = vec!["parse", "text"];
    let Some(line_location) = LineLocation::try_from_line_words(line, &words, 1) else {
        panic!("LineLocation::try_from_line_words failed to parse");
    };

    assert_eq!(17, line_location.column);
    assert_eq!(4, line_location.length);
}

#[test]
fn test_duplicate_start_label_reports_exactly_one_error() {
    let result = assemble("start:\nJP start\nstart:\n", 0, 0x100);
    let errors = result.unwrap_err();
    assert_eq!(1, errors.len());
    assert_eq!("Label 'start:' already used.", errors[0].message);
}

#[test]
fn test_jump_then_raw_bytes_image() {
    let result = assemble("JP 0x4\n0x01 0x02 0x03 0x04", 0, 0x20);
    let bytes = result.unwrap();
    assert_eq!(vec![0x10, 0x04, 0x01, 0x02, 0x03, 0x04], bytes);
}

#[test]
fn test_mem_exceeded_names_offending_line() {
    let result = assemble("0x00 0x00\n0x00 0x00\n0x00 0x00", 0, 0x4);
    let errors = result.unwrap_err();
    assert_eq!(1, errors.len());
    assert_eq!("Memory exceeds available space (0x4)", errors[0].message);
    assert_eq!(2, errors[0].src_location.unwrap().line_num);
}

#[test]
fn test_forward_label_reference_resolves() {
    let result = assemble("JP end\n0x01 0x02\nend:\nEXIT", 0x200, 0x1000);
    let bytes = result.unwrap();
    // The label `end` stands at 0x200 + 2 + 2 = 0x204.
    assert_eq!(vec![0x12, 0x04, 0x01, 0x02, 0x00, 0xFD], bytes);
}

#[test]
fn test_label_captures_address_of_next_byte() {
    let result = assemble("here:\nJP here", 0x200, 0x1000);
    let bytes = result.unwrap();
    assert_eq!(vec![0x12, 0x00], bytes);
}

#[test]
fn test_empty_label_rejected() {
    let result = assemble(":\n", 0, 0x100);
    let errors = result.unwrap_err();
    assert_eq!(1, errors.len());
    assert_eq!("Expected a label before the colon.", errors[0].message);
}

#[test]
fn test_unknown_mnemonic() {
    let errors = assemble("FROB V0", 0, 0x100).unwrap_err();
    assert_eq!(1, errors.len());
    assert_eq!("Unknown instruction.", errors[0].message);
}

#[test]
fn test_bad_register_token() {
    let errors = assemble("SHR VX", 0, 0x100).unwrap_err();
    assert_eq!("Failed to parse register.", errors[0].message);
    let errors = assemble("SHR V", 0, 0x100).unwrap_err();
    assert_eq!("Failed to parse register.", errors[0].message);
}

#[test]
fn test_byte_literal_out_of_range() {
    let errors = assemble("LD V0 0x100", 0, 0x100).unwrap_err();
    assert_eq!("Byte literal out of range.", errors[0].message);
    let errors = assemble("0x100", 0, 0x100).unwrap_err();
    assert_eq!("Byte literal out of range.", errors[0].message);
}

#[test]
fn test_nibble_literal_out_of_range() {
    let errors = assemble("DRW V0 V1 16", 0, 0x100).unwrap_err();
    assert_eq!("Nibble literal out of range.", errors[0].message);
}

#[test]
fn test_address_literal_out_of_range() {
    let errors = assemble("JP 0x100", 0, 0x100).unwrap_err();
    assert_eq!("Address literal out of range.", errors[0].message);
    assert!(assemble("JP 0xFF", 0, 0x100).is_ok());
}

#[test]
fn test_malformed_literals() {
    let errors = assemble("LD V0 0x", 0, 0x100).unwrap_err();
    assert_eq!("Failed to parse number.", errors[0].message);
    let errors = assemble("LD V0 0b", 0, 0x100).unwrap_err();
    assert_eq!("Failed to parse number.", errors[0].message);
    let errors = assemble("LD V0 1a", 0, 0x100).unwrap_err();
    assert_eq!("Failed to parse number.", errors[0].message);
}

#[test]
fn test_literal_radixes() {
    let bytes = assemble("LD V0 0b1010\nLD V1 0x1F\nLD V2 31", 0, 0x100).unwrap();
    assert_eq!(vec![0x60, 0x0A, 0x61, 0x1F, 0x62, 0x1F], bytes);
}

#[test]
fn test_mid_line_comments_and_commas() {
    let bytes = assemble("LD V1, 10 ; load ten\nADD V1, 0x01 // one more", 0, 0x100).unwrap();
    assert_eq!(vec![0x61, 0x0A, 0x71, 0x01], bytes);
}

#[test]
fn test_errors_are_collected_across_lines() {
    let errors = assemble("FROB\nLD V0 0x100\nSHR VZ", 0, 0x100).unwrap_err();
    assert_eq!(3, errors.len());
    assert_eq!("Unknown instruction.", errors[0].message);
    assert_eq!("Byte literal out of range.", errors[1].message);
    assert_eq!("Failed to parse register.", errors[2].message);
}

#[test]
fn test_full_or_nothing_on_error() {
    // One good line and one bad line: only errors come back, no bytes.
    let result = assemble("LD V0 1\nFROB", 0, 0x100);
    assert!(result.is_err());
}

#[test]
fn test_case_insensitive_mnemonics() {
    let bytes = assemble("cls\nret\nexit", 0x200, 0x1000).unwrap();
    assert_eq!(vec![0x00, 0xE0, 0x00, 0xEE, 0x00, 0xFD], bytes);
}

#[test]
fn test_wide_instruction_selection() {
    let bytes = assemble(
        "CALL 0x234\nSE V1 0x10\nSNE V1 0x10\nSE V1 V2\nSNE V1 V2\nLD V3 V4\nOR V1 V2\nAND V1 V2\nXOR V1 V2\nADD V1 V2\nSUB V1 V2\nSUBN V1 V2\nSHR V1\nSHL V1\nLD I 0x345\nJP V0 0x222\nRND V2 0x7F\nDRW V1 V2 5\nSKP V4\nSKNP V4\nLD V5 DT\nLD V6 K\nLD DT V7\nLD ST V8\nADD I V9\nLD F V2\nLD B V3\nLD [I] V4\nLD V5 [I]",
        0x200,
        0x1000,
    )
    .unwrap();
    assert_eq!(
        vec![
            0x22, 0x34, 0x31, 0x10, 0x41, 0x10, 0x51, 0x20, 0x91, 0x20, 0x83, 0x40, 0x81, 0x21,
            0x81, 0x22, 0x81, 0x23, 0x81, 0x24, 0x81, 0x25, 0x81, 0x27, 0x81, 0x06, 0x81, 0x0E,
            0xA3, 0x45, 0xB2, 0x22, 0xC2, 0x7F, 0xD1, 0x25, 0xE4, 0x9E, 0xE4, 0xA1, 0xF5, 0x07,
            0xF6, 0x0A, 0xF7, 0x15, 0xF8, 0x18, 0xF9, 0x1E, 0xF2, 0x29, 0xF3, 0x33, 0xF4, 0x55,
            0xF5, 0x65
        ],
        bytes
    );
}

#[test]
fn test_assemble_is_deterministic() {
    let a = assemble(BASIC_PROGRAM_SRC, 0, 0x20).unwrap();
    let b = assemble(BASIC_PROGRAM_SRC, 0, 0x20).unwrap();
    assert_eq!(a, b);
    let ea = assemble(DUPLICATE_LABELS_SRC, 0, 0x100).unwrap_err();
    let eb = assemble(DUPLICATE_LABELS_SRC, 0, 0x100).unwrap_err();
    assert_eq!(ea.len(), eb.len());
    for (x, y) in ea.iter().zip(eb.iter()) {
        assert_eq!(x.message, y.message);
        assert_eq!(x.src_location, y.src_location);
    }
}

#[test]
fn test_parse_lines_returns_statements_in_order() {
    let stmts = parse_lines("CLS\nstart:\n5 6\n; just a comment").unwrap();
    assert_eq!(3, stmts.len());
    assert!(matches!(stmts[0], Statement::Instruction { instruction: Instruction::ClearDisplay, mem_addr: 0 }));
    match &stmts[1] {
        Statement::Label { name, mem_addr } => {
            assert_eq!("start", name);
            assert_eq!(0, *mem_addr);
        }
        _ => panic!(),
    }
    match &stmts[2] {
        Statement::RawBytes { bytes, mem_addr } => {
            assert_eq!(&vec![5, 6], bytes);
            assert_eq!(0, *mem_addr);
        }
        _ => panic!(),
    }
}
