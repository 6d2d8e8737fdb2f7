use bitcask::checksum::{calculate_crc, checksum_bytes};
use bitcask::serdes::{
    accept, frame, parse_input, DeserializeError, KeyValue, ParsedBytes, SerializeError, Serdes,
};

fn hello_world() -> KeyValue<Vec<u8>, Vec<u8>> {
    KeyValue { key: b"hello".to_vec(), value: b"world".to_vec(), timestamp: vec![0; 8] }
}

fn hello_world_bytes() -> Vec<u8> {
    vec![
        0xF9, 0xEB, 0x20, 0xAD, 0x00, 0x00, 0x00, 0x00, 0x00, 0x00, 0x00, 0x00, 0x00, 0x05,
        0x00, 0x05, 0x68, 0x65, 0x6C, 0x6C, 0x6F, 0x77, 0x6F, 0x72, 0x6C, 0x64,
    ]
}

#[test]
fn encodes_hello_world_byte_for_byte() {
    let bytes = KeyValue::serialize(&hello_world()).unwrap();
    assert_eq!(bytes.len(), 26);
    assert_eq!(&bytes[0..4], &[0xF9, 0xEB, 0x20, 0xAD]);
    assert_eq!(bytes, hello_world_bytes());
}

#[test]
fn checksum_of_other_bytes_is_a_mismatch() {
    let mut bytes = hello_world_bytes();
    bytes[0..4].copy_from_slice(&calculate_crc(b"hello ", b"world"));
    assert_eq!(&bytes[0..4], &[0x0D, 0x4A, 0x11, 0x85]);
    let error = KeyValue::deserialize(&bytes).unwrap_err();
    assert_eq!(error.message, "Invalid CRC32 checksum");
}

#[test]
fn decodes_hello_world() {
    let kv = KeyValue::deserialize(&hello_world_bytes()).unwrap();
    assert_eq!(kv.key, b"hello".to_vec());
    assert_eq!(kv.value, b"world".to_vec());
    assert_eq!(kv.timestamp, vec![0u8; 8]);
}

#[test]
fn checksum_of_known_inputs() {
    assert_eq!(calculate_crc(b"hello", b"world"), [0xF9, 0xEB, 0x20, 0xAD]);
    assert_eq!(calculate_crc(b"hello", b" world"), [0x0D, 0x4A, 0x11, 0x85]);
    assert_eq!(calculate_crc(b"", b""), [0, 0, 0, 0]);
    assert_eq!(calculate_crc(b"1234", b"56789"), [0xCB, 0xF4, 0x39, 0x26]);
    assert_eq!(calculate_crc(b"123456789", b""), [0xCB, 0xF4, 0x39, 0x26]);
    assert_eq!(calculate_crc(b"", b"123456789"), [0xCB, 0xF4, 0x39, 0x26]);
}

#[test]
fn checksum_takes_key_before_value() {
    assert_ne!(calculate_crc(b"ab", b"cd"), calculate_crc(b"cd", b"ab"));
}

#[test]
fn round_trip_of_empty_key_and_value() {
    let kv = KeyValue { key: vec![], value: vec![], timestamp: vec![9, 8, 7, 6, 5, 4, 3, 2] };
    let bytes = KeyValue::serialize(&kv).unwrap();
    assert_eq!(bytes, vec![0, 0, 0, 0, 9, 8, 7, 6, 5, 4, 3, 2, 0, 0, 0, 0]);
    assert_eq!(KeyValue::deserialize(&bytes).unwrap(), kv);
}

#[test]
fn round_trip_of_longest_fields() {
    let key: Vec<u8> = (0..65535u32).map(|i| (i % 251) as u8).collect();
    let value: Vec<u8> = (0..65535u32).map(|i| (i % 13) as u8).collect();
    let kv = KeyValue { key, value, timestamp: vec![1, 2, 3, 4, 5, 6, 7, 8] };
    let bytes = KeyValue::serialize(&kv).unwrap();
    assert_eq!(bytes.len(), 16 + 65535 + 65535);
    assert_eq!(&bytes[12..16], &[0xFF, 0xFF, 0xFF, 0xFF]);
    assert_eq!(KeyValue::deserialize(&bytes).unwrap(), kv);
}

#[test]
fn length_fields_are_big_endian() {
    let kv = KeyValue { key: vec![7; 258], value: vec![8; 3], timestamp: vec![0; 8] };
    let bytes = KeyValue::serialize(&kv).unwrap();
    assert_eq!(&bytes[12..16], &[0x01, 0x02, 0x00, 0x03]);
    let parsed = parse_input(&bytes).unwrap();
    assert_eq!(parsed.key_length, 258);
    assert_eq!(parsed.value_length, 3);
    assert_eq!(parsed.key, vec![7; 258]);
    assert_eq!(parsed.value, vec![8; 3]);
}

#[test]
fn key_too_large_is_refused() {
    let kv = KeyValue { key: vec![0; 65536], value: vec![], timestamp: vec![0; 8] };
    let error: SerializeError = KeyValue::serialize(&kv).unwrap_err();
    assert_eq!(error.message, "Field too large");
    assert_eq!(error.to_text(), "SerializeError: Field too large");
}

#[test]
fn value_too_large_is_refused() {
    let kv = KeyValue { key: vec![1], value: vec![0; 65536], timestamp: vec![0; 8] };
    assert_eq!(KeyValue::serialize(&kv).unwrap_err().message, "Field too large");
}

#[test]
fn input_under_sixteen_bytes_is_too_short() {
    for len in 0..16usize {
        let input = vec![0xFFu8; len];
        let error: DeserializeError = KeyValue::deserialize(&input).unwrap_err();
        assert_eq!(error.message, "Input too short");
        assert_eq!(parse_input(&input).unwrap_err().message, "Input too short");
    }
}

#[test]
fn error_text_names_the_error() {
    let error = KeyValue::deserialize(&[]).unwrap_err();
    assert_eq!(error.to_text(), "DeserializeError: Input too short");
}

#[test]
fn every_cut_record_is_too_short() {
    let bytes = hello_world_bytes();
    for len in 0..bytes.len() {
        let error = KeyValue::deserialize(&bytes[..len]).unwrap_err();
        assert_eq!(error.message, "Input too short");
    }
}

#[test]
fn header_alone_with_empty_fields_decodes() {
    let bytes = vec![0u8; 16];
    let kv = KeyValue::deserialize(&bytes).unwrap();
    assert!(kv.key.is_empty());
    assert!(kv.value.is_empty());
}

#[test]
fn flipped_bit_in_checksum_is_found() {
    for at in 0..4 {
        for bit in 0..8 {
            let mut bytes = hello_world_bytes();
            bytes[at] ^= 1 << bit;
            let error = KeyValue::deserialize(&bytes).unwrap_err();
            assert_eq!(error.message, "Invalid CRC32 checksum");
        }
    }
}

#[test]
fn flipped_bit_in_key_or_value_is_found() {
    for at in 16..26 {
        for bit in 0..8 {
            let mut bytes = hello_world_bytes();
            bytes[at] ^= 1 << bit;
            let error = KeyValue::deserialize(&bytes).unwrap_err();
            assert_eq!(error.message, "Invalid CRC32 checksum");
        }
    }
}

#[test]
fn flipped_bit_in_timestamp_is_not_covered() {
    let mut bytes = hello_world_bytes();
    bytes[4] ^= 1;
    let kv = KeyValue::deserialize(&bytes).unwrap();
    assert_eq!(kv.key, b"hello".to_vec());
    assert_eq!(kv.value, b"world".to_vec());
    assert_eq!(kv.timestamp, vec![1, 0, 0, 0, 0, 0, 0, 0]);
}

#[test]
fn parse_input_hands_out_a_wrong_checksum_unchecked() {
    let mut bytes = hello_world_bytes();
    bytes[0] = 0;
    let parsed = parse_input(&bytes).unwrap();
    assert_eq!(parsed.crc_bytes, vec![0x00, 0xEB, 0x20, 0xAD]);
}

#[test]
fn records_in_a_stream_decode_one_after_another() {
    let first = hello_world();
    let second = KeyValue {
        key: b"k".to_vec(),
        value: b"a longer value".to_vec(),
        timestamp: vec![0, 0, 1, 2, 3, 4, 5, 6],
    };
    let mut stream = KeyValue::serialize(&first).unwrap();
    stream.extend(KeyValue::serialize(&second).unwrap());

    let head = KeyValue::deserialize(&stream).unwrap();
    assert_eq!(head, first);
    let next = 16 + head.key.len() + head.value.len();
    let tail = KeyValue::deserialize(&stream[next..]).unwrap();
    assert_eq!(tail, second);
    assert_eq!(next + 16 + tail.key.len() + tail.value.len(), stream.len());
}

#[test]
fn stamped_writes_the_milliseconds_most_significant_first() {
    let kv = KeyValue::stamped(b"k".to_vec(), b"v".to_vec(), 0x0102_0304_0506_0708);
    assert_eq!(kv.key, b"k".to_vec());
    assert_eq!(kv.value, b"v".to_vec());
    assert_eq!(kv.timestamp, vec![1, 2, 3, 4, 5, 6, 7, 8]);
}

#[test]
fn stamped_keeps_the_low_sixty_four_bits() {
    let kv = KeyValue::stamped(vec![], vec![], (0xABu128 << 64) | 0xFF00_0000_0000_0001);
    assert_eq!(kv.timestamp, vec![0xFF, 0, 0, 0, 0, 0, 0, 1]);
    let zero = KeyValue::stamped(vec![], vec![], 0);
    assert_eq!(zero.timestamp, vec![0u8; 8]);
}

#[test]
fn new_takes_anything_that_turns_into_bytes() {
    let kv = KeyValue::new(&b"key"[..], [1u8, 2, 3]);
    assert_eq!(kv.key, b"key".to_vec());
    assert_eq!(kv.value, vec![1, 2, 3]);
    assert_eq!(kv.timestamp.len(), 8);
}

#[test]
fn new_reads_a_clock_past_the_epoch() {
    let kv = KeyValue::new(vec![1u8], vec![2u8]);
    let mut millis: u64 = 0;
    for byte in &kv.timestamp {
        millis = (millis << 8) | u64::from(*byte);
    }
    assert!(millis > 0);
}

#[test]
fn checksum_bytes_are_most_significant_first() {
    assert_eq!(checksum_bytes(0x0D4A_1185), [0x0D, 0x4A, 0x11, 0x85]);
    assert_eq!(checksum_bytes(0), [0, 0, 0, 0]);
    assert_eq!(checksum_bytes(0xFFFF_FFFF), [0xFF, 0xFF, 0xFF, 0xFF]);
    assert_eq!(checksum_bytes(1), [0, 0, 0, 1]);
}

#[test]
fn frame_lays_the_fields_out_behind_any_checksum() {
    let kv = KeyValue { key: b"h".to_vec(), value: b"wo".to_vec(), timestamp: vec![0, 0, 0, 0, 0, 0, 0, 9] };
    let bytes = frame(&kv, &[1, 2, 3, 4]).unwrap();
    assert_eq!(bytes, vec![1, 2, 3, 4, 0, 0, 0, 0, 0, 0, 0, 9, 0, 1, 0, 2, 0x68, 0x77, 0x6F]);
}

#[test]
fn frame_refuses_a_field_too_large() {
    let kv = KeyValue { key: vec![], value: vec![0; 70000], timestamp: vec![0; 8] };
    assert_eq!(frame(&kv, &[0, 0, 0, 0]).unwrap_err().message, "Field too large");
}

fn parsed_hello_world() -> ParsedBytes {
    ParsedBytes {
        crc_bytes: vec![0xF9, 0xEB, 0x20, 0xAD],
        timestamp_bytes: vec![1, 2, 3, 4, 5, 6, 7, 8],
        key_length: 5,
        value_length: 5,
        key: b"hello".to_vec(),
        value: b"world".to_vec(),
    }
}

#[test]
fn accept_makes_the_record_when_the_checksum_is_as_expected() {
    let kv = accept(parsed_hello_world(), &[0xF9, 0xEB, 0x20, 0xAD]).unwrap();
    assert_eq!(kv.key, b"hello".to_vec());
    assert_eq!(kv.value, b"world".to_vec());
    assert_eq!(kv.timestamp, vec![1, 2, 3, 4, 5, 6, 7, 8]);
}

#[test]
fn accept_refuses_another_checksum() {
    let error = accept(parsed_hello_world(), &[0xF9, 0xEB, 0x20, 0xAC]).unwrap_err();
    assert_eq!(error.message, "Invalid CRC32 checksum");
    let shorter = accept(parsed_hello_world(), &[0xF9, 0xEB, 0x20]).unwrap_err();
    assert_eq!(shorter.message, "Invalid CRC32 checksum");
}
