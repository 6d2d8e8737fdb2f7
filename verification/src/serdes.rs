//! The record codec: a key, a value and a timestamp as one checksummed byte
//! string, and back.
//!
//! | offset       | size         | field                                   |
//! |--------------|--------------|-----------------------------------------|
//! | 0            | 4            | CRC-32 of key followed by value         |
//! | 4            | 8            | timestamp, milliseconds since the epoch |
//! | 12           | 2            | key length                              |
//! | 14           | 2            | value length                            |
//! | 16           | key length   | key                                     |
//! | 16 + key len | value length | value                                   |
//!
//! All integers are stored most significant byte first. A record says how
//! long it is, so records can follow each other in one stream.

use vstd::prelude::*;
use vstd::slice::slice_to_vec;
use crate::checksum::{calculate_crc, record_checksum};
use crate::clock::unix_millis;

verus! {

pub type Key = Vec<u8>;

pub type Value = Vec<u8>;

/// Length of the fixed part of an encoded record.
pub const HEADER_LEN: usize = 16;

/// The longest key or value that a length field can describe.
pub const MAX_FIELD_LEN: usize = 65535;

/// One entry of the log.
#[derive(Debug, PartialEq, Clone)]
pub struct KeyValue<K, V> {
    pub key: K,
    pub value: V,
    pub timestamp: Vec<u8>,
}

/// A record as a mathematical value.
pub struct Record {
    pub key: Seq<u8>,
    pub value: Seq<u8>,
    pub timestamp: Seq<u8>,
}

impl View for KeyValue<Key, Value> {
    type V = Record;

    open spec fn view(&self) -> Record {
        Record { key: self.key@, value: self.value@, timestamp: self.timestamp@ }
    }
}

/// Why a byte string is not an encoded record.
pub enum DecodeFailure {
    /// Fewer bytes than the header, or fewer than the header announces.
    TooShort,
    /// The stored checksum is not that of the stored key and value.
    ChecksumMismatch,
}

#[derive(Debug)]
pub struct DeserializeError {
    pub message: String,
}

#[derive(Debug)]
pub struct SerializeError {
    pub message: String,
}

/// The fields of an encoded record, cut out of the input and not yet checked
/// against the checksum.
#[derive(Debug, PartialEq, Clone)]
pub struct ParsedBytes {
    pub crc_bytes: Vec<u8>,
    pub timestamp_bytes: Vec<u8>,
    pub key_length: usize,
    pub value_length: usize,
    pub key: Key,
    pub value: Value,
}

/// The number that two bytes stand for, most significant first.
pub open spec fn be_u16(hi: u8, lo: u8) -> int {
    hi * 256 + lo
}

/// The length field for a key or value of `len` bytes: two bytes, most
/// significant first.
pub open spec fn length_field(len: nat) -> Seq<u8>
    recommends
        len <= MAX_FIELD_LEN,
{
    seq![(len / 256) as u8, (len % 256) as u8]
}

/// The eight bytes of `x`, most significant first.
pub open spec fn be_bytes_u64(x: u64) -> Seq<u8> {
    seq![
        (x / 0x100_0000_0000_0000) as u8,
        (x / 0x1_0000_0000_0000 % 0x100) as u8,
        (x / 0x100_0000_0000 % 0x100) as u8,
        (x / 0x1_0000_0000 % 0x100) as u8,
        (x / 0x100_0000 % 0x100) as u8,
        (x / 0x1_0000 % 0x100) as u8,
        (x / 0x100 % 0x100) as u8,
        (x % 0x100) as u8,
    ]
}

/// The timestamp field for a clock reading: the low 64 bits of the
/// milliseconds, most significant byte first.
pub open spec fn timestamp_of(millis: u128) -> Seq<u8> {
    be_bytes_u64((millis % 0x1_0000_0000_0000_0000) as u64)
}

/// The key length that the header of `input` announces.
pub open spec fn declared_key_len(input: Seq<u8>) -> int
    recommends
        input.len() >= HEADER_LEN,
{
    be_u16(input[12], input[13])
}

/// The value length that the header of `input` announces.
pub open spec fn declared_value_len(input: Seq<u8>) -> int
    recommends
        input.len() >= HEADER_LEN,
{
    be_u16(input[14], input[15])
}

/// The length of the record that `input` starts with, according to its header.
pub open spec fn framed_len(input: Seq<u8>) -> int
    recommends
        input.len() >= HEADER_LEN,
{
    HEADER_LEN + declared_key_len(input) + declared_value_len(input)
}

/// `input` holds a whole header and all the bytes that the header announces.
pub open spec fn is_framed(input: Seq<u8>) -> bool {
    input.len() >= HEADER_LEN && input.len() >= framed_len(input)
}

/// The checksum field of `input`.
pub open spec fn stored_checksum(input: Seq<u8>) -> Seq<u8>
    recommends
        is_framed(input),
{
    input.subrange(0, 4)
}

/// The timestamp field of `input`.
pub open spec fn stored_timestamp(input: Seq<u8>) -> Seq<u8>
    recommends
        is_framed(input),
{
    input.subrange(4, 12)
}

/// The key that `input` holds.
pub open spec fn stored_key(input: Seq<u8>) -> Seq<u8>
    recommends
        is_framed(input),
{
    input.subrange(HEADER_LEN as int, HEADER_LEN + declared_key_len(input))
}

/// The value that `input` holds.
pub open spec fn stored_value(input: Seq<u8>) -> Seq<u8>
    recommends
        is_framed(input),
{
    input.subrange(HEADER_LEN + declared_key_len(input), framed_len(input))
}

/// The text that an error carries for each kind of failure.
pub open spec fn failure_text(failure: DecodeFailure) -> Seq<char> {
    match failure {
        DecodeFailure::TooShort => "Input too short"@,
        DecodeFailure::ChecksumMismatch => "Invalid CRC32 checksum"@,
    }
}

/// The text of the error for a key or value that no length field can describe.
pub open spec fn field_too_large_text() -> Seq<char> {
    "Field too large"@
}

/// Key and value are each short enough for a length field.
pub open spec fn fits(record: Record) -> bool {
    record.key.len() <= MAX_FIELD_LEN && record.value.len() <= MAX_FIELD_LEN
}

/// A record that the codec encodes and gets back: both fields fit their
/// length fields and the timestamp has its eight bytes.
pub open spec fn encodable(record: Record) -> bool {
    fits(record) && record.timestamp.len() == 8
}

/// The fields of `record` laid out behind the given checksum.
pub open spec fn framing(checksum: Seq<u8>, record: Record) -> Seq<u8> {
    checksum + record.timestamp + length_field(record.key.len()) + length_field(
        record.value.len(),
    ) + record.key + record.value
}

/// The bytes that stand for `record` in the log.
pub open spec fn encoding(record: Record) -> Seq<u8> {
    framing(record_checksum(record.key, record.value), record)
}

/// What decoding makes of `input`: the record that it starts with, or the
/// reason why it starts with none.
pub open spec fn decoding(input: Seq<u8>) -> Result<Record, DecodeFailure> {
    if !is_framed(input) {
        Err(DecodeFailure::TooShort)
    } else if stored_checksum(input) != record_checksum(stored_key(input), stored_value(input)) {
        Err(DecodeFailure::ChecksumMismatch)
    } else {
        Ok(
            Record {
                key: stored_key(input),
                value: stored_value(input),
                timestamp: stored_timestamp(input),
            },
        )
    }
}

impl DeserializeError {
    /// The error as a line of text.
    pub fn to_text(&self) -> (text: String)
        ensures
            text@ == "DeserializeError: "@ + self.message@,
    {
        String::from_str("DeserializeError: ").concat(self.message.as_str())
    }
}

impl SerializeError {
    /// The error as a line of text.
    pub fn to_text(&self) -> (text: String)
        ensures
            text@ == "SerializeError: "@ + self.message@,
    {
        String::from_str("SerializeError: ").concat(self.message.as_str())
    }
}

impl KeyValue<Key, Value> {
    /// A record for a write that happens now: key and value are what `into`
    /// makes of the arguments, and the timestamp is the reading of the wall
    /// clock, whatever it is. A clock set before the epoch reads as zero.
    pub fn new<K: Into<Key>, V: Into<Value>>(key: K, value: V) -> (kv: Self)
        ensures
            call_ensures(<K as Into<Key>>::into, (key,), kv.key),
            call_ensures(<V as Into<Value>>::into, (value,), kv.value),
            exists|millis: u128| kv.timestamp@ == timestamp_of(millis),
            kv.timestamp@.len() == 8,
    {
        let millis = unix_millis();
        Self::stamped(key.into(), value.into(), millis)
    }

    /// A record for a write at `millis` milliseconds after the Unix epoch.
    pub fn stamped(key: Key, value: Value, millis: u128) -> (kv: Self)
        ensures
            kv.key == key,
            kv.value == value,
            kv.timestamp@ == timestamp_of(millis),
    {
        let low: u64 = (millis & 0xffff_ffff_ffff_ffff) as u64;
        assert(low == (millis % 0x1_0000_0000_0000_0000) as u64) by (bit_vector)
            requires
                low == (millis & 0xffff_ffff_ffff_ffff) as u64,
        ;
        let mut timestamp: Vec<u8> = Vec::new();
        timestamp.push((low >> 56) as u8);
        timestamp.push(((low >> 48) & 0xff) as u8);
        timestamp.push(((low >> 40) & 0xff) as u8);
        timestamp.push(((low >> 32) & 0xff) as u8);
        timestamp.push(((low >> 24) & 0xff) as u8);
        timestamp.push(((low >> 16) & 0xff) as u8);
        timestamp.push(((low >> 8) & 0xff) as u8);
        timestamp.push((low & 0xff) as u8);
        assert(timestamp@ =~= be_bytes_u64(low)) by {
            assert((low >> 56) as u8 == (low / 0x100_0000_0000_0000) as u8) by (bit_vector);
            assert(((low >> 48) & 0xff) as u8 == (low / 0x1_0000_0000_0000 % 0x100) as u8)
                by (bit_vector);
            assert(((low >> 40) & 0xff) as u8 == (low / 0x100_0000_0000 % 0x100) as u8)
                by (bit_vector);
            assert(((low >> 32) & 0xff) as u8 == (low / 0x1_0000_0000 % 0x100) as u8)
                by (bit_vector);
            assert(((low >> 24) & 0xff) as u8 == (low / 0x100_0000 % 0x100) as u8)
                by (bit_vector);
            assert(((low >> 16) & 0xff) as u8 == (low / 0x1_0000 % 0x100) as u8) by (bit_vector);
            assert(((low >> 8) & 0xff) as u8 == (low / 0x100 % 0x100) as u8) by (bit_vector);
            assert((low & 0xff) as u8 == (low % 0x100) as u8) by (bit_vector);
        }
        KeyValue { key, value, timestamp }
    }
}

/// A codec between values of `T` and byte strings.
pub trait Serdes<T> {
    type DeserializeErr;

    type SerializeErr;

    fn deserialize(input: &[u8]) -> Result<T, Self::DeserializeErr>;

    fn serialize(a: &T) -> Result<Vec<u8>, Self::SerializeErr>;
}

fn too_short() -> (e: DeserializeError)
    ensures
        e.message@ == failure_text(DecodeFailure::TooShort),
{
    DeserializeError { message: String::from_str("Input too short") }
}

/// Reads the length field that starts at `at`.
fn read_length(input: &[u8], at: usize) -> (len: usize)
    requires
        at + 2 <= input@.len(),
    ensures
        len == be_u16(input@[at as int], input@[at + 1]),
{
    let hi: u8 = input[at];
    let lo: u8 = input[at + 1];
    (hi as usize) * 256 + (lo as usize)
}

/// Cuts an encoded record into its fields. The checksum is handed out as it
/// was stored, not compared with anything.
pub fn parse_input(input: &[u8]) -> (r: Result<ParsedBytes, DeserializeError>)
    ensures
        input@.len() < HEADER_LEN ==> (r matches Err(e) && e.message@ == failure_text(
            DecodeFailure::TooShort,
        )),
        match r {
            Ok(parsed) => {
                &&& is_framed(input@)
                &&& parsed.crc_bytes@ == stored_checksum(input@)
                &&& parsed.timestamp_bytes@ == stored_timestamp(input@)
                &&& parsed.key_length == declared_key_len(input@)
                &&& parsed.value_length == declared_value_len(input@)
                &&& parsed.key@ == stored_key(input@)
                &&& parsed.value@ == stored_value(input@)
            },
            Err(e) => !is_framed(input@) && e.message@ == failure_text(DecodeFailure::TooShort),
        },
{
    if input.len() < HEADER_LEN {
        return Err(too_short());
    }
    let crc_bytes = slice_to_vec(&input[0..4]);
    let timestamp_bytes = slice_to_vec(&input[4..12]);
    let key_length = read_length(input, 12);
    let value_length = read_length(input, 14);
    if input.len() - HEADER_LEN < key_length + value_length {
        return Err(too_short());
    }
    let key = slice_to_vec(&input[HEADER_LEN..HEADER_LEN + key_length]);
    let value = slice_to_vec(
        &input[HEADER_LEN + key_length..HEADER_LEN + key_length + value_length],
    );
    Ok(ParsedBytes { crc_bytes, timestamp_bytes, key_length, value_length, key, value })
}

/// Whether two byte strings are the same.
fn same_bytes(left: &[u8], right: &[u8]) -> (same: bool)
    ensures
        same == (left@ == right@),
{
    if left.len() != right.len() {
        return false;
    }
    let mut i: usize = 0;
    while i < left.len()
        invariant
            left@.len() == right@.len(),
            i <= left@.len(),
            forall|j: int| 0 <= j < i ==> left@[j] == right@[j],
        decreases left@.len() - i,
    {
        if left[i] != right[i] {
            return false;
        }
        i += 1;
    }
    assert(left@ =~= right@);
    true
}

/// Makes a record of parsed fields if their stored checksum is `expected`.
pub fn accept(parsed: ParsedBytes, expected: &[u8]) -> (r: Result<
    KeyValue<Key, Value>,
    DeserializeError,
>)
    ensures
        match r {
            Ok(kv) => {
                &&& parsed.crc_bytes@ == expected@
                &&& kv.key == parsed.key
                &&& kv.value == parsed.value
                &&& kv.timestamp == parsed.timestamp_bytes
            },
            Err(e) => {
                &&& parsed.crc_bytes@ != expected@
                &&& e.message@ == failure_text(DecodeFailure::ChecksumMismatch)
            },
        },
{
    if same_bytes(parsed.crc_bytes.as_slice(), expected) {
        Ok(KeyValue { key: parsed.key, value: parsed.value, timestamp: parsed.timestamp_bytes })
    } else {
        Err(DeserializeError { message: String::from_str("Invalid CRC32 checksum") })
    }
}

/// Appends the length field for `len`.
fn push_length(buff: &mut Vec<u8>, len: usize)
    requires
        len <= MAX_FIELD_LEN,
    ensures
        final(buff)@ == old(buff)@ + length_field(len as nat),
{
    buff.push((len / 256) as u8);
    buff.push((len % 256) as u8);
    assert(buff@ =~= old(buff)@ + length_field(len as nat));
}

/// Appends `bytes`.
fn push_all(buff: &mut Vec<u8>, bytes: &[u8])
    ensures
        final(buff)@ == old(buff)@ + bytes@,
{
    buff.extend_from_slice(bytes);
    assert(buff@ =~= old(buff)@ + bytes@);
}

/// Lays out the fields of `a` behind the given checksum. A key or a value
/// longer than a length field can describe is refused.
pub fn frame(a: &KeyValue<Key, Value>, checksum: &[u8]) -> (r: Result<Vec<u8>, SerializeError>)
    ensures
        match r {
            Ok(bytes) => fits(a@) && bytes@ == framing(checksum@, a@),
            Err(e) => !fits(a@) && e.message@ == field_too_large_text(),
        },
{
    if a.key.len() > MAX_FIELD_LEN || a.value.len() > MAX_FIELD_LEN {
        return Err(SerializeError { message: String::from_str("Field too large") });
    }
    let mut buff: Vec<u8> = Vec::new();
    push_all(&mut buff, checksum);
    push_all(&mut buff, a.timestamp.as_slice());
    push_length(&mut buff, a.key.len());
    push_length(&mut buff, a.value.len());
    push_all(&mut buff, a.key.as_slice());
    push_all(&mut buff, a.value.as_slice());
    Ok(buff)
}

impl Serdes<KeyValue<Key, Value>> for KeyValue<Key, Value> {
    type DeserializeErr = DeserializeError;

    type SerializeErr = SerializeError;

    /// Decodes the record that `input` starts with. Bytes after it are not
    /// looked at.
    fn deserialize(input: &[u8]) -> (r: Result<Self, DeserializeError>)
        ensures
            input@.len() < HEADER_LEN ==> (r matches Err(e) && e.message@ == failure_text(
                DecodeFailure::TooShort,
            )),
            match decoding(input@) {
                Ok(record) => r matches Ok(kv) && kv@ == record,
                Err(failure) => r matches Err(e) && e.message@ == failure_text(failure),
            },
    {
        let parsed_bytes = match parse_input(input) {
            Ok(parsed_bytes) => parsed_bytes,
            Err(e) => { return Err(e); },
        };
        let expected_crc_bytes = calculate_crc(
            parsed_bytes.key.as_slice(),
            parsed_bytes.value.as_slice(),
        );
        accept(parsed_bytes, expected_crc_bytes.as_slice())
    }

    /// Encodes `a`. A key or a value longer than a length field can describe
    /// is refused.
    fn serialize(a: &Self) -> (r: Result<Vec<u8>, SerializeError>)
        ensures
            match r {
                Ok(bytes) => fits(a@) && bytes@ == encoding(a@),
                Err(e) => !fits(a@) && e.message@ == field_too_large_text(),
            },
    {
        if a.key.len() > MAX_FIELD_LEN || a.value.len() > MAX_FIELD_LEN {
            return Err(SerializeError { message: String::from_str("Field too large") });
        }
        let checksum = calculate_crc(a.key.as_slice(), a.value.as_slice());
        frame(a, checksum.as_slice())
    }
}

} // verus!
