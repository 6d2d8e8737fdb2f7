use bitcask::serdes::{parse_input, KeyValue, ParsedBytes, Serdes};

#[test]
fn test_parse_input_success() {
    let input = vec![
        0x0D, 0x4A, 0x11, 0x85, 0x00, 0x00, 0x00, 0x00, 0x00, 0x00, 0x00, 0x00, 0x00, 0x05,
        0x00, 0x05, 0x68, 0x65, 0x6C, 0x6C, 0x6F, 0x77, 0x6F, 0x72, 0x6C, 0x64,
    ];
    let expected = ParsedBytes {
        crc_bytes: vec![0x0D, 0x4A, 0x11, 0x85],
        timestamp_bytes: vec![0x00, 0x00, 0x00, 0x00, 0x00, 0x00, 0x00, 0x00],
        key_length: 5,
        value_length: 5,
        key: b"hello".to_vec(),
        value: b"world".to_vec(),
    };
    assert_eq!(parse_input(&input).unwrap(), expected);
}

#[test]
fn test_parse_input_fail_input_too_short() {
    let input = vec![0x00];
    let result = parse_input(&input);
    assert!(result.is_err());
    assert_eq!(result.unwrap_err().message, "Input too short".to_string());
}

#[test]
fn test_serialize_deserialize() {
    let kv = KeyValue {
        key: b"hello".to_vec(),
        value: b"world".to_vec(),
        timestamp: vec![0x61, 0x62, 0x63, 0x64, 0x65, 0x66, 0x67, 0x68],
    };

    let serialized = KeyValue::serialize(&kv).unwrap();
    let deserialized = KeyValue::deserialize(&serialized).unwrap();

    assert_eq!(deserialized, kv);
}

#[test]
fn test_key_value_new() {
    let key = b"test_key".to_vec();
    let value = b"test_value".to_vec();

    let kv = KeyValue::new(key.clone(), value.clone());

    assert_eq!(kv.key, key);
    assert_eq!(kv.value, value);
    assert!(!kv.timestamp.is_empty());

    let serialized = KeyValue::serialize(&kv).unwrap();
    let deserialized = KeyValue::deserialize(&serialized).unwrap();

    assert_eq!(deserialized, kv);
}
