//! A toolchain for a compact 16-bit-instruction virtual machine: a two-pass
//! assembler from mnemonic source text to a flat byte image, and an
//! interpreter that executes that image against a 4096-byte memory, a
//! 16-register file, a bit-packed monochrome framebuffer and a 16-key keypad.

pub mod assemble;
pub mod assembler_error;
pub mod bit_manipulation;
pub mod display;
pub mod instructions;
pub mod key;
pub mod logger;
pub mod parse;
pub mod processor;
pub mod statement;
pub mod text;

pub use assemble::assemble;
pub use assembler_error::AssemblerError;
pub use assembler_error::LineLocation;
pub use assembler_error::Location;
pub use bit_manipulation::get_display_bit;
pub use bit_manipulation::get_nibbles;
pub use bit_manipulation::make_addr;
pub use display::Display;
pub use instructions::decode_instruction;
pub use instructions::encode_instruction;
pub use instructions::Instruction;
pub use key::key_number_to_keys;
pub use key::keys_has_any_key;
pub use key::keys_to_key_number;
pub use key::Key;
pub use key::Keys;
pub use logger::LogSource;
pub use logger::Logger;
pub use logger::NullLogSource;
pub use parse::get_jump;
pub use parse::is_numeric_literal;
pub use parse::parse_instruction;
pub use parse::parse_line;
pub use parse::parse_lines;
pub use parse::parse_raw_bytes;
pub use parse::try_parse_number_literal;
pub use parse::try_parse_u16_literal;
pub use processor::ExecutionError;
pub use processor::Processor;
pub use statement::Statement;
pub use text::get_line_words;
pub use text::split_lines;
