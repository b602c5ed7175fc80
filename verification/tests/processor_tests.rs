use chip8::assemble;
use chip8::logger::Logger;
use chip8::ExecutionError;
use chip8::Processor;

static RENDER_DIGITS_PROGRAM_A: [u8; 162] = [
    0x60, 0x00, 0x61, 0x00, 0x62, 0x00, 0xF0, 0x29, 0xD1, 0x25,
    0x60, 0x01, 0x61, 0x05, 0x62, 0x00, 0xF0, 0x29, 0xD1, 0x25,
    0x60, 0x02, 0x61, 0x0A, 0x62, 0x00, 0xF0, 0x29, 0xD1, 0x25,
    0x60, 0x03, 0x61, 0x0F, 0x62, 0x00, 0xF0, 0x29, 0xD1, 0x25,
    0x60, 0x04, 0x61, 0x00, 0x62, 0x06, 0xF0, 0x29, 0xD1, 0x25,
    0x60, 0x05, 0x61, 0x05, 0x62, 0x06, 0xF0, 0x29, 0xD1, 0x25,
    0x60, 0x06, 0x61, 0x0A, 0x62, 0x06, 0xF0, 0x29, 0xD1, 0x25,
    0x60, 0x07, 0x61, 0x0F, 0x62, 0x06, 0xF0, 0x29, 0xD1, 0x25,
    0x60, 0x08, 0x61, 0x00, 0x62, 0x0C, 0xF0, 0x29, 0xD1, 0x25,
    0x60, 0x09, 0x61, 0x05, 0x62, 0x0C, 0xF0, 0x29, 0xD1, 0x25,
    0x60, 0x0A, 0x61, 0x0A, 0x62, 0x0C, 0xF0, 0x29, 0xD1, 0x25,
    0x60, 0x0B, 0x61, 0x0F, 0x62, 0x0C, 0xF0, 0x29, 0xD1, 0x25,
    0x60, 0x0C, 0x61, 0x00, 0x62, 0x12, 0xF0, 0x29, 0xD1, 0x25,
    0x60, 0x0D, 0x61, 0x05, 0x62, 0x12, 0xF0, 0x29, 0xD1, 0x25,
    0x60, 0x0E, 0x61, 0x0A, 0x62, 0x12, 0xF0, 0x29, 0xD1, 0x25,
    0x60, 0x0F, 0x61, 0x0F, 0x62, 0x12, 0xF0, 0x29, 0xD1, 0x25,
    0x00, 0xFD,
];

static RENDER_DIGITS_PROGRAM_B: [u8; 162] = [
    0x60, 0x00, 0xF0, 0x29, 0x61, 0x00, 0x62, 0x00, 0xD1, 0x25,
    0x60, 0x01, 0xF0, 0x29, 0x61, 0x05, 0x62, 0x00, 0xD1, 0x25,
    0x60, 0x02, 0xF0, 0x29, 0x61, 0x0A, 0x62, 0x00, 0xD1, 0x25,
    0x60, 0x03, 0xF0, 0x29, 0x61, 0x0F, 0x62, 0x00, 0xD1, 0x25,
    0x60, 0x04, 0xF0, 0x29, 0x61, 0x00, 0x62, 0x06, 0xD1, 0x25,
    0x60, 0x05, 0xF0, 0x29, 0x61, 0x05, 0x62, 0x06, 0xD1, 0x25,
    0x60, 0x06, 0xF0, 0x29, 0x61, 0x0A, 0x62, 0x06, 0xD1, 0x25,
    0x60, 0x07, 0xF0, 0x29, 0x61, 0x0F, 0x62, 0x06, 0xD1, 0x25,
    0x60, 0x08, 0xF0, 0x29, 0x61, 0x00, 0x62, 0x0C, 0xD1, 0x25,
    0x60, 0x09, 0xF0, 0x29, 0x61, 0x05, 0x62, 0x0C, 0xD1, 0x25,
    0x60, 0x0A, 0xF0, 0x29, 0x61, 0x0A, 0x62, 0x0C, 0xD1, 0x25,
    0x60, 0x0B, 0xF0, 0x29, 0x61, 0x0F, 0x62, 0x0C, 0xD1, 0x25,
    0x60, 0x0C, 0xF0, 0x29, 0x61, 0x00, 0x62, 0x12, 0xD1, 0x25,
    0x60, 0x0D, 0xF0, 0x29, 0x61, 0x05, 0x62, 0x12, 0xD1, 0x25,
    0x60, 0x0E, 0xF0, 0x29, 0x61, 0x0A, 0x62, 0x12, 0xD1, 0x25,
    0x60, 0x0F, 0xF0, 0x29, 0x61, 0x0F, 0x62, 0x12, 0xD1, 0x25,
    0x00, 0xFD,
];

static RENDER_DIGITS_DISPLAY: &str = "
XXXX...X..XXXX.XXXX.............................................
X..X..XX.....X....X.............................................
X..X...X..XXXX.XXXX.............................................
X..X...X..X.......X.............................................
XXXX..XXX.XXXX.XXXX.............................................
................................................................
X..X.XXXX.XXXX.XXXX.............................................
X..X.X....X.......X.............................................
XXXX.XXXX.XXXX...X..............................................
...X....X.X..X..X...............................................
...X.XXXX.XXXX..X...............................................
................................................................
XXXX.XXXX.XXXX.XXX..............................................
X..X.X..X.X..X.X..X.............................................
XXXX.XXXX.XXXX.XXX..............................................
X..X....X.X..X.X..X.............................................
XXXX.XXXX.X..X.XXX..............................................
................................................................
XXXX.XXX..XXXX.XXXX.............................................
X....X..X.X....X................................................
X....X..X.XXXX.XXXX.............................................
X....X..X.X....X................................................
XXXX.XXX..XXXX.X................................................
................................................................
................................................................
................................................................
................................................................
................................................................
................................................................
................................................................
................................................................
................................................................
";

fn run_to_termination(processor: &mut Processor<chip8::logger::NullLogSource>) {
    let mut steps = 0;
    while !processor.run_next_instruction().unwrap() {
        steps += 1;
        assert!(steps < 100000, "program did not terminate");
    }
}

fn check_display_matches(processor: &Processor<chip8::logger::NullLogSource>) {
    let display = processor.get_display();
    let expected_display: Vec<&str> = RENDER_DIGITS_DISPLAY
        .trim()
        .split_ascii_whitespace()
        .collect();

    for i in 0..expected_display.len() {
        let row = expected_display[i];
        for j in 0..row.len() {
            let pixel = row.chars().nth(j).unwrap() != '.';
            assert_eq!(pixel, display.get_pixel(i, j));
        }
    }
}

#[test]
fn test_execute_digits_test_render_digits() {
    let logger = Logger::new_null_logger();
    let mut processor = Processor::new(logger);
    processor.initialize(&RENDER_DIGITS_PROGRAM_A);
    run_to_termination(&mut processor);
    check_display_matches(&processor);
}

#[test]
fn test_processor_test_render_digits() {
    let mut processor = Processor::new(Logger::new_null_logger());
    processor.initialize(&RENDER_DIGITS_PROGRAM_B);
    run_to_termination(&mut processor);
    let display = processor.get_display();
    let display_data: Vec<bool> = (0..display.height)
        .flat_map(|i| (0..display.width).map(move |j| (i, j)))
        .map(|(i, j)| display.get_pixel(i, j))
        .collect();

    let expected_display_data: Vec<bool> = RENDER_DIGITS_DISPLAY
        .chars()
        .filter(|c| !c.is_whitespace())
        .map(|c| c != '.')
        .collect();
    assert_eq!(expected_display_data.len(), display_data.len());
    for (expected_bit, display_bit) in expected_display_data.into_iter().zip(display_data) {
        assert_eq!(expected_bit, display_bit);
    }
}

#[test]
fn test_uninitialized_execution_reports_unknown_opcode() {
    let mut processor = Processor::new(Logger::new_null_logger());
    let result = processor.run_next_instruction();
    assert_eq!(
        Err(ExecutionError::UnknownOpcode { byte1: 0, byte2: 0 }),
        result
    );
}

fn assemble_and_load(source: &str) -> Processor<chip8::logger::NullLogSource> {
    let program = assemble(source, 0x200, 0x1000).unwrap();
    let mut processor = Processor::new(Logger::new_null_logger());
    processor.initialize(&program);
    processor
}

#[test]
fn test_add_with_carry_sets_flag() {
    // 0xFF + 0x02 wraps to 0x01 with the flag register set to 1; the sound
    // timer is loaded only if both results are seen.
    let mut p = assemble_and_load(
        "LD V0, 0xFF\nLD V1, 0x02\nADD V0, V1\nSE V0, 0x01\nEXIT\nSE VF, 0x01\nEXIT\nLD V2, 0x3C\nLD ST, V2\nEXIT",
    );
    run_to_termination(&mut p);
    assert!(p.has_sound());
}

#[test]
fn test_add_without_carry_clears_flag() {
    // 0x01 + 0x01 gives 0x02 with the flag register cleared.
    let mut p = assemble_and_load(
        "LD V0, 0x01\nLD V1, 0x01\nADD V0, V1\nSE V0, 0x02\nEXIT\nSE VF, 0x00\nEXIT\nLD V2, 0x3C\nLD ST, V2\nEXIT",
    );
    run_to_termination(&mut p);
    assert!(p.has_sound());
}

#[test]
fn test_key_wait_blocks_until_new_key() {
    let mut p = assemble_and_load(
        "LD V0, K\nSE V0, 0x05\nEXIT\nLD V2, 0x3C\nLD ST, V2\nEXIT",
    );
    // The latch instruction itself executes.
    assert_eq!(Ok(false), p.run_next_instruction());
    // Latched: further steps decode nothing and report not-terminated.
    assert_eq!(Ok(false), p.run_next_instruction());
    assert_eq!(Ok(false), p.run_next_instruction());
    // A key that was already held when latching counts only once newly pressed.
    p.set_keys(0);
    assert_eq!(Ok(false), p.run_next_instruction());
    // Key 5 newly pressed: the latch resolves and execution resumes.
    p.set_keys(1 << 5);
    run_to_termination(&mut p);
    assert!(p.has_sound());
}

#[test]
fn test_key_wait_takes_lowest_new_key() {
    let mut p = assemble_and_load(
        "LD V0, K\nSE V0, 0x03\nEXIT\nLD V2, 0x3C\nLD ST, V2\nEXIT",
    );
    assert_eq!(Ok(false), p.run_next_instruction());
    p.set_keys((1 << 3) | (1 << 9));
    run_to_termination(&mut p);
    assert!(p.has_sound());
}

#[test]
fn test_termination_is_idempotent() {
    let mut p = assemble_and_load("LD V2, 0x3C\nLD ST, V2\nEXIT");
    run_to_termination(&mut p);
    for _ in 0..5 {
        assert_eq!(Ok(true), p.run_next_instruction());
        assert!(p.has_sound());
    }
}

#[test]
fn test_self_jump_terminates() {
    let mut p = assemble_and_load("start:\nJP start");
    assert_eq!(Ok(true), p.run_next_instruction());
}

#[test]
fn test_draw_twice_sets_collision_and_erases() {
    // Draw the digit-3 sprite twice at the same place: the first draw must
    // leave the flag register 0, the second must set it to 1 and erase the
    // sprite entirely.
    let mut p = assemble_and_load(
        "LD V0, 0x03\nLD F, V0\nDRW V1, V2, 0x5\nSE VF, 0x00\nEXIT\nDRW V1, V2, 0x5\nSE VF, 0x01\nEXIT\nLD V3, 0x3C\nLD ST, V3\nEXIT",
    );
    run_to_termination(&mut p);
    assert!(p.has_sound());
    let display = p.get_display();
    for i in 0..display.height {
        for j in 0..display.width {
            assert!(!display.get_pixel(i, j));
        }
    }
}

#[test]
fn test_first_draw_shows_sprite() {
    let mut p = assemble_and_load("LD V0, 0x01\nLD F, V0\nDRW V1, V2, 0x5\nEXIT");
    run_to_termination(&mut p);
    let display = p.get_display();
    // The digit-1 sprite: 0x20, 0x60, 0x20, 0x20, 0x70 in the top-left corner.
    let rows: [u8; 5] = [0x20, 0x60, 0x20, 0x20, 0x70];
    for (i, row) in rows.iter().enumerate() {
        for j in 0..8 {
            let expected = row & (1 << (7 - j)) != 0;
            assert_eq!(expected, display.get_pixel(i, j));
        }
    }
}

#[test]
fn test_timers_tick_down_to_zero() {
    let mut p = assemble_and_load("LD V0, 0x02\nLD ST, V0\nEXIT");
    run_to_termination(&mut p);
    assert!(p.has_sound());
    p.tick_timers();
    assert!(p.has_sound());
    p.tick_timers();
    assert!(!p.has_sound());
    p.tick_timers();
    assert!(!p.has_sound());
}

#[test]
fn test_delay_timer_round_trip() {
    // Store 2 in the delay timer, spin until it reads 0.
    let mut p = assemble_and_load(
        "LD V0, 0x02\nLD DT, V0\ncheck:\nLD V1, DT\nSE V1, 0x00\nJP check\nLD V2, 0x3C\nLD ST, V2\nEXIT",
    );
    let mut steps = 0;
    loop {
        if p.run_next_instruction().unwrap() {
            break;
        }
        p.tick_timers();
        steps += 1;
        assert!(steps < 1000);
    }
    assert!(p.has_sound());
}

#[test]
fn test_key_skip_instructions() {
    let mut p = assemble_and_load(
        "LD V0, 0x04\nSKP V0\nEXIT\nSKNP V0\nLD V2, 0x3C\nLD ST, V2\nEXIT",
    );
    p.set_keys(1 << 4);
    run_to_termination(&mut p);
    assert!(p.has_sound());
}

#[test]
fn test_random_masked_to_zero() {
    // Whatever byte the generator draws, a zero mask forces register 0 to 0.
    let mut p = assemble_and_load(
        "RND V0, 0x00\nSE V0, 0x00\nEXIT\nLD V2, 0x3C\nLD ST, V2\nEXIT",
    );
    run_to_termination(&mut p);
    assert!(p.has_sound());
}

#[test]
fn test_call_and_return() {
    let mut p = assemble_and_load(
        "CALL sub\nEXIT\nsub:\nLD V2, 0x3C\nLD ST, V2\nRET",
    );
    run_to_termination(&mut p);
    assert!(p.has_sound());
}

#[test]
fn test_return_without_call_is_fatal() {
    let mut p = assemble_and_load("RET");
    assert_eq!(Err(ExecutionError::StackUnderflow), p.run_next_instruction());
}
