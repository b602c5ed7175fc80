use std::sync::Arc;
use std::sync::Mutex;

use chip8::key_number_to_keys;
use chip8::keys_has_any_key;
use chip8::keys_to_key_number;
use chip8::logger::LogSource;
use chip8::logger::Logger;
use chip8::Display;
use chip8::Key;

#[test]
fn test_single_keys_to_key_number() {
    assert_eq!(0x0, keys_to_key_number(Key::_0.to_keys()));
    assert_eq!(0x1, keys_to_key_number(Key::_1.to_keys()));
    assert_eq!(0x2, keys_to_key_number(Key::_2.to_keys()));
    assert_eq!(0x3, keys_to_key_number(Key::_3.to_keys()));
    assert_eq!(0x4, keys_to_key_number(Key::_4.to_keys()));
    assert_eq!(0x5, keys_to_key_number(Key::_5.to_keys()));
    assert_eq!(0x6, keys_to_key_number(Key::_6.to_keys()));
    assert_eq!(0x7, keys_to_key_number(Key::_7.to_keys()));
    assert_eq!(0x8, keys_to_key_number(Key::_8.to_keys()));
    assert_eq!(0x9, keys_to_key_number(Key::_9.to_keys()));
    assert_eq!(0xA, keys_to_key_number(Key::_A.to_keys()));
    assert_eq!(0xB, keys_to_key_number(Key::_B.to_keys()));
    assert_eq!(0xC, keys_to_key_number(Key::_C.to_keys()));
    assert_eq!(0xD, keys_to_key_number(Key::_D.to_keys()));
    assert_eq!(0xE, keys_to_key_number(Key::_E.to_keys()));
    assert_eq!(0xF, keys_to_key_number(Key::_F.to_keys()));
}

#[test]
fn test_multiple_keys_to_key_number() {
    assert_eq!(0xA, keys_to_key_number(Key::_A.to_keys() | Key::_B.to_keys()));
}

#[test]
fn test_key_number_to_keys() {
    assert_eq!(0x0001, key_number_to_keys(0));
    assert_eq!(0x8000, key_number_to_keys(15));
    assert_eq!(0, key_number_to_keys(16));
    assert_eq!(0, key_number_to_keys(255));
}

#[test]
fn test_keys_has_any_key() {
    assert!(keys_has_any_key(0b0110, 0b0100));
    assert!(!keys_has_any_key(0b0110, 0b1001));
    assert!(!keys_has_any_key(0, 0xFFFF));
}

#[test]
fn test_get_pixel() {
    let data: [u8; 8] = [0x1, 0x2, 0x3, 0x4, 0x5, 0x6, 0x7, 0x8];
    let display = Display::new(&data, 8, 8);
    for i in 0..8 {
        for j in 0..8 {
            let pixel = data[i] & (1 << (7 - j)) != 0;
            assert_eq!(pixel, display.get_pixel(i, j));
        }
    }
}

#[test]
fn test_get_pixel_out_of_bounds_is_unset() {
    let data: [u8; 8] = [0xFF; 8];
    let display = Display::new(&data, 8, 8);
    assert!(!display.get_pixel(8, 0));
    assert!(!display.get_pixel(0, 8));
}

#[derive(Debug)]
struct TestLogSource {
    log_str: Arc<Mutex<String>>,
}

impl LogSource for TestLogSource {
    fn write(&mut self, message: &str) {
        *self.log_str.lock().unwrap() = message.to_string();
    }
}

#[test]
fn test_logger_logs() {
    let log_str = Arc::new(Mutex::new("".to_owned()));
    let test_log_source = TestLogSource {
        log_str: log_str.clone(),
    };

    let mut logger = Logger::new(test_log_source);
    logger.log("Hello there friend");

    assert_eq!("Hello there friend", *log_str.lock().unwrap());
}
