use chip8::decode_instruction;
use chip8::encode_instruction;
use chip8::get_nibbles;
use chip8::make_addr;
use chip8::Instruction;

#[test]
fn test_null_instruction_decodes_to_unknown() {
    let instruction = decode_instruction(0x00, 0x00);
    let expected_instruction = Instruction::Unknown {
        byte1: 0x00,
        byte2: 0x00,
    };
    assert_eq!(expected_instruction, instruction);
}

#[test]
fn test_get_nibbles() {
    assert_eq!((0xA, 0x5), get_nibbles(0xA5));
    assert_eq!((0x0, 0xF), get_nibbles(0x0F));
}

#[test]
fn test_make_addr_drops_high_nibble() {
    assert_eq!(0x234, make_addr(0x12, 0x34));
    assert_eq!(0xFFF, make_addr(0xFF, 0xFF));
}

#[test]
fn test_decode_known_patterns() {
    assert_eq!(Instruction::ClearDisplay, decode_instruction(0x00, 0xE0));
    assert_eq!(Instruction::Return, decode_instruction(0x00, 0xEE));
    assert_eq!(Instruction::Exit, decode_instruction(0x00, 0xFD));
    assert_eq!(Instruction::Jump { addr: 0x234 }, decode_instruction(0x12, 0x34));
    assert_eq!(
        Instruction::LoadImmToReg { x: 1, byte: 10 },
        decode_instruction(0x61, 0x0A)
    );
    assert_eq!(
        Instruction::Draw { x: 1, y: 2, nibble: 5 },
        decode_instruction(0xD1, 0x25)
    );
    assert_eq!(
        Instruction::LoadDigitSpriteToPointer { x: 0 },
        decode_instruction(0xF0, 0x29)
    );
    assert_eq!(Instruction::Unknown { byte1: 0x5A, byte2: 0xB3 }, decode_instruction(0x5A, 0xB3));
    assert_eq!(Instruction::Unknown { byte1: 0x8A, byte2: 0xB9 }, decode_instruction(0x8A, 0xB9));
}

#[test]
fn test_encode_decode_round_trip() {
    let samples = vec![
        Instruction::ClearDisplay,
        Instruction::Return,
        Instruction::Exit,
        Instruction::Jump { addr: 0xFFF },
        Instruction::Call { addr: 0x001 },
        Instruction::SkipRegEqualsImm { x: 0xF, byte: 0xFF },
        Instruction::SkipRegNotEqualsImm { x: 0, byte: 0 },
        Instruction::SkipRegEqualsReg { x: 1, y: 2 },
        Instruction::LoadImmToReg { x: 3, byte: 4 },
        Instruction::AddImmToReg { x: 5, byte: 6 },
        Instruction::LoadRegToReg { x: 7, y: 8 },
        Instruction::OrReg { x: 9, y: 10 },
        Instruction::AndReg { x: 11, y: 12 },
        Instruction::XorReg { x: 13, y: 14 },
        Instruction::AddReg { x: 15, y: 0 },
        Instruction::SubReg { x: 1, y: 15 },
        Instruction::ShiftRight { x: 2 },
        Instruction::SubNegReg { x: 3, y: 4 },
        Instruction::ShiftLeft { x: 5 },
        Instruction::SkipRegNotEqualsReg { x: 6, y: 7 },
        Instruction::LoadImmToPointer { addr: 0x800 },
        Instruction::JumpOffset { addr: 0x123 },
        Instruction::Random { x: 8, byte: 0x7F },
        Instruction::Draw { x: 9, y: 10, nibble: 15 },
        Instruction::SkipKeyPressed { x: 11 },
        Instruction::SkipNotKeyPressed { x: 12 },
        Instruction::LoadDelayTimerToReg { x: 13 },
        Instruction::LoadNextKeyPress { x: 14 },
        Instruction::LoadRegToDelayTimer { x: 15 },
        Instruction::LoadRegToSoundTimer { x: 0 },
        Instruction::AddRegToPointer { x: 1 },
        Instruction::LoadDigitSpriteToPointer { x: 2 },
        Instruction::LoadDecimalDigitsToPointer { x: 3 },
        Instruction::WriteRegToPointer { x: 4 },
        Instruction::ReadRegFromPointer { x: 5 },
    ];
    for i in samples {
        let (b1, b2) = encode_instruction(&i);
        assert_eq!(i, decode_instruction(b1, b2));
    }
}

#[test]
fn test_unknown_round_trips_its_raw_bytes() {
    let i = Instruction::Unknown { byte1: 0x5A, byte2: 0xB3 };
    assert_eq!((0x5A, 0xB3), encode_instruction(&i));
}
