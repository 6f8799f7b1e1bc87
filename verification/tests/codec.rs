use disklog::checksum::calculate;
use disklog::endian::{read_u16_le, read_u32_le, read_u64_le, u16_le_bytes, u32_le_bytes, u64_le_bytes};
use disklog::open::{open_log_file, open_tail_file};
use disklog::record::{decode_header, encode_header, HEADER_SIZE};
use disklog::tail::{parse_tail_position, tail_file_bytes, TAIL_FILE_SIZE, U64SIZE};
use disklog::OpenError;

fn tail_file(slots: [u64; 3]) -> [u8; 24] {
    let mut bytes = [0u8; 24];
    for (i, slot) in slots.iter().enumerate() {
        bytes[8 * i..8 * i + 8].copy_from_slice(&slot.to_le_bytes());
    }
    bytes
}

fn reference_checksum(position: u64, item_size: u32) -> u16 {
    let position_bytes = position.to_le_bytes();
    let item_size_bytes = item_size.to_le_bytes();
    u16::from_le_bytes([position_bytes[0], position_bytes[1]])
        ^ u16::from_le_bytes([position_bytes[2], position_bytes[3]])
        ^ u16::from_le_bytes([position_bytes[4], position_bytes[5]])
        ^ u16::from_le_bytes([position_bytes[6], position_bytes[7]])
        ^ u16::from_le_bytes([item_size_bytes[0], item_size_bytes[1]])
        ^ u16::from_le_bytes([item_size_bytes[2], item_size_bytes[3]])
}

#[test]
fn checksum_is_the_xor_of_the_halves() {
    assert_eq!(0, calculate(0, 0));
    assert_eq!(11, calculate(0, 11));
    assert_eq!(17 ^ 15, calculate(17, 15));
    assert_eq!(0x1111 ^ 0x2222 ^ 0x4444 ^ 0x8888, calculate(0x1111_2222_4444_8888, 0));
    assert_eq!(0x0f0f ^ 0xf0f0, calculate(0, 0x0f0f_f0f0));
    assert_eq!(0x0102 ^ 0x0304 ^ 0x0506 ^ 0x0708 ^ 0x090a ^ 0x0b0c, calculate(0x0102_0304_0506_0708, 0x090a_0b0c));
    assert_eq!(0, calculate(u64::MAX, 0));
    assert_eq!(0, calculate(u64::MAX, u32::MAX));
    assert_eq!(0xffff, calculate(0xffff, 0));
}

#[test]
fn checksum_agrees_with_the_byte_wise_construction() {
    let mut position: u64 = 0x9e37_79b9_7f4a_7c15;
    let mut size: u32 = 0x85eb_ca6b;
    for _ in 0..1000 {
        assert_eq!(reference_checksum(position, size), calculate(position, size));
        assert_eq!(calculate(position, size), calculate(position, size));
        position = position.wrapping_mul(6364136223846793005).wrapping_add(1442695040888963407);
        size = size.wrapping_mul(1664525).wrapping_add(1013904223);
    }
}

#[test]
fn little_endian_round_trips() {
    assert_eq!([0x34, 0x12], u16_le_bytes(0x1234));
    assert_eq!([0x78, 0x56, 0x34, 0x12], u32_le_bytes(0x1234_5678));
    assert_eq!(
        [0xf0, 0xde, 0xbc, 0x9a, 0x78, 0x56, 0x34, 0x12],
        u64_le_bytes(0x1234_5678_9abc_def0)
    );
    let bytes = [0xffu8, 0x34, 0x12, 0x78, 0x56, 0x34, 0x12, 0xf0, 0xde, 0xbc, 0x9a, 0x78, 0x56, 0x34, 0x12];
    assert_eq!(0x1234, read_u16_le(&bytes, 1));
    assert_eq!(0x1234_5678, read_u32_le(&bytes, 3));
    assert_eq!(0x1234_5678_9abc_def0, read_u64_le(&bytes, 7));
    for value in [0u64, 1, 255, 256, u32::MAX as u64, u64::MAX, 0x0102_0304_0506_0708] {
        assert_eq!(value.to_le_bytes(), u64_le_bytes(value));
        assert_eq!(value, read_u64_le(&u64_le_bytes(value), 0));
        assert_eq!((value as u32).to_le_bytes(), u32_le_bytes(value as u32));
        assert_eq!(value as u32, read_u32_le(&u32_le_bytes(value as u32), 0));
        assert_eq!((value as u16).to_le_bytes(), u16_le_bytes(value as u16));
        assert_eq!(value as u16, read_u16_le(&u16_le_bytes(value as u16), 0));
    }
}

#[test]
fn header_is_checksum_then_length() {
    assert_eq!(6, HEADER_SIZE);
    assert_eq!([11, 0, 11, 0, 0, 0], encode_header(0, 11));
    assert_eq!([17 ^ 15, 0, 15, 0, 0, 0], encode_header(17, 15));
    // 0x0403 ^ 0x0304 ^ 0x0102 = 0x0605
    assert_eq!([0x05, 0x06, 0x04, 0x03, 0x02, 0x01], encode_header(0x0403, 0x0102_0304));
    assert_eq!(Some(11), decode_header(0, &[11, 0, 11, 0, 0, 0]));
    assert_eq!(None, decode_header(1, &[11, 0, 11, 0, 0, 0]));
    assert_eq!(None, decode_header(0, &[12, 0, 11, 0, 0, 0]));
    assert_eq!(None, decode_header(0, &[11, 0, 11, 0, 0, 1]));
    // The same header with its fields most significant first is no header at 17.
    assert_eq!(Some(15), decode_header(17, &[17 ^ 15, 0, 15, 0, 0, 0]));
    assert_eq!(None, decode_header(17, &[0, 17 ^ 15, 0, 0, 0, 15]));
    assert_eq!(Some(0), decode_header(0, &[0; 6]));
    for (position, len) in [(0u64, 0u32), (38, 13), (u64::MAX - 6, u32::MAX), (1 << 40, 1 << 20)] {
        assert_eq!(Some(len), decode_header(position, &encode_header(position, len)));
    }
}

#[test]
fn torn_tail_recovery() {
    assert_eq!(Some(42), parse_tail_position(tail_file([42, 42, 7])));
    assert_eq!(Some(42), parse_tail_position(tail_file([7, 42, 42])));
    assert_eq!(None, parse_tail_position(tail_file([1, 2, 3])));

    assert_eq!(42, open_tail_file(true, &tail_file([42, 42, 7])).unwrap().position);
    assert_eq!(42, open_tail_file(true, &tail_file([7, 42, 42])).unwrap().position);
    assert!(matches!(
        open_tail_file(true, &tail_file([1, 2, 3])),
        Err(OpenError::CorruptTailPosition)
    ));
}

#[test]
fn tail_with_three_distinct_slots_is_corrupt() {
    assert_eq!(None, parse_tail_position(tail_file([1, 2, 1])));
    assert_eq!(None, parse_tail_position(tail_file([0, 1, 2])));
    assert_eq!(None, parse_tail_position(tail_file([u64::MAX, 0, 1])));
    assert!(matches!(
        open_tail_file(true, &tail_file([5, 6, 5])),
        Err(OpenError::CorruptTailPosition)
    ));
}

#[test]
fn tail_file_holds_three_copies() {
    assert_eq!(8, U64SIZE);
    assert_eq!(24, TAIL_FILE_SIZE);
    assert_eq!([0u8; 24], tail_file_bytes(0));
    assert_eq!(tail_file([38, 38, 38]), tail_file_bytes(38));
    let position = 0x0102_0304_0506_0708;
    assert_eq!(tail_file([position; 3]), tail_file_bytes(position));
    assert_eq!(Some(position), parse_tail_position(tail_file_bytes(position)));
    assert_eq!(Some(u64::MAX), parse_tail_position(tail_file_bytes(u64::MAX)));
}

#[test]
fn update_torn_between_two_copies_loses_nothing() {
    let previous = tail_file_bytes(17);
    let next = tail_file_bytes(38);
    for slots in 0..=3usize {
        let mut file = previous;
        file[..8 * slots].copy_from_slice(&next[..8 * slots]);
        let expected = if slots >= 2 { 38 } else { 17 };
        assert_eq!(Some(expected), parse_tail_position(file));
    }
}

#[test]
fn empty_tail_file_is_initialized_with_zeros() {
    let opened = open_tail_file(true, &[]).unwrap();
    assert_eq!(0, opened.position);
    assert_eq!(Some([0u8; 24]), opened.initial);
    let again = open_tail_file(true, &[0u8; 24]).unwrap();
    assert_eq!(0, again.position);
    assert_eq!(None, again.initial);
}

#[test]
fn tail_file_held_by_another_writer() {
    assert!(matches!(open_tail_file(false, &[]), Err(OpenError::AlreadyOpen)));
    assert!(matches!(open_tail_file(false, &[0u8; 24]), Err(OpenError::AlreadyOpen)));
    assert!(matches!(open_tail_file(false, &[0u8; 3]), Err(OpenError::AlreadyOpen)));
}

#[test]
fn log_length_is_held_against_the_tail() {
    assert_eq!(Some(false), open_log_file(0, 0).ok());
    assert_eq!(Some(false), open_log_file(38, 38).ok());
    assert_eq!(Some(true), open_log_file(39, 38).ok());
    assert_eq!(Some(true), open_log_file(57, 7).ok());
    assert!(matches!(open_log_file(37, 38), Err(OpenError::LogTooSmall)));
    assert!(matches!(open_log_file(0, 1), Err(OpenError::LogTooSmall)));
}
