//! What the record codec guarantees: a record comes back as it went in, a cut
//! record is never taken for a whole one, and damage to the checksummed part
//! is found unless the checksums collide.

use vstd::prelude::*;
use crate::checksum::{crc32, lemma_be_bytes_u32_injective, record_checksum};
use crate::serdes::{
    be_u16, declared_key_len, declared_value_len, decoding, encodable, encoding, failure_text,
    framed_len, is_framed, length_field, stored_checksum, stored_key, stored_timestamp,
    stored_value, DecodeFailure, Record, HEADER_LEN,
};

verus! {

/// `bytes` with one bit of the byte at `at` inverted.
pub open spec fn flip_bit(bytes: Seq<u8>, at: int, bit: u8) -> Seq<u8>
    recommends
        0 <= at < bytes.len(),
        bit < 8,
{
    bytes.update(at, bytes[at] ^ (1u8 << bit))
}

/// Inverting a bit changes the byte.
proof fn lemma_flip_changes(byte: u8, bit: u8)
    requires
        bit < 8,
    ensures
        byte ^ (1u8 << bit) != byte,
{
    assert(byte ^ (1u8 << bit) != byte) by (bit_vector)
        requires
            bit < 8,
    ;
}

/// Where each field of an encoded record lies, whatever follows the record.
pub proof fn lemma_layout(record: Record, tail: Seq<u8>)
    requires
        encodable(record),
    ensures
        encoding(record).len() == HEADER_LEN + record.key.len() + record.value.len(),
        framed_len(encoding(record) + tail) == encoding(record).len(),
        is_framed(encoding(record) + tail),
        stored_checksum(encoding(record) + tail) == record_checksum(record.key, record.value),
        stored_timestamp(encoding(record) + tail) == record.timestamp,
        declared_key_len(encoding(record) + tail) == record.key.len(),
        declared_value_len(encoding(record) + tail) == record.value.len(),
        stored_key(encoding(record) + tail) == record.key,
        stored_value(encoding(record) + tail) == record.value,
{
    let input = encoding(record) + tail;
    let key_len = length_field(record.key.len());
    let value_len = length_field(record.value.len());
    assert(be_u16(key_len[0], key_len[1]) == record.key.len());
    assert(be_u16(value_len[0], value_len[1]) == record.value.len());
    assert(input[12] == key_len[0] && input[13] == key_len[1]);
    assert(input[14] == value_len[0] && input[15] == value_len[1]);
    assert(stored_checksum(input) =~= record_checksum(record.key, record.value));
    assert(stored_timestamp(input) =~= record.timestamp);
    assert(stored_key(input) =~= record.key);
    assert(stored_value(input) =~= record.value);
}

/// Decoding an encoded record gives the record back: key, value and
/// timestamp.
pub proof fn lemma_round_trip(record: Record)
    requires
        encodable(record),
    ensures
        decoding(encoding(record)) == Ok::<Record, DecodeFailure>(record),
{
    lemma_layout(record, Seq::empty());
    assert(encoding(record) + Seq::<u8>::empty() =~= encoding(record));
}

/// A stream that starts with an encoded record decodes to that record,
/// whatever follows, and the header tells where the next record starts.
pub proof fn lemma_stream_head(record: Record, tail: Seq<u8>)
    requires
        encodable(record),
    ensures
        decoding(encoding(record) + tail) == Ok::<Record, DecodeFailure>(record),
        framed_len(encoding(record) + tail) == encoding(record).len(),
        (encoding(record) + tail).skip(framed_len(encoding(record) + tail)) == tail,
{
    lemma_layout(record, tail);
    assert((encoding(record) + tail).skip(encoding(record).len() as int) =~= tail);
}

/// An input shorter than the header is too short, whatever it holds.
pub proof fn lemma_header_lower_bound(input: Seq<u8>)
    requires
        input.len() < HEADER_LEN,
    ensures
        decoding(input) == Err::<Record, DecodeFailure>(DecodeFailure::TooShort),
{
}

/// An encoded record that was cut short is too short: it is never taken for
/// a record with a bad checksum.
pub proof fn lemma_truncation_rejected(record: Record, len: int)
    requires
        encodable(record),
        0 <= len < encoding(record).len(),
    ensures
        decoding(encoding(record).take(len)) == Err::<Record, DecodeFailure>(
            DecodeFailure::TooShort,
        ),
{
    lemma_layout(record, Seq::empty());
    let whole = encoding(record);
    assert(whole + Seq::<u8>::empty() =~= whole);
    let cut = whole.take(len);
    if len >= HEADER_LEN {
        assert(cut[12] == whole[12] && cut[13] == whole[13]);
        assert(cut[14] == whole[14] && cut[15] == whole[15]);
        assert(framed_len(cut) == framed_len(whole));
    }
}

/// The two kinds of failure carry different texts.
pub proof fn lemma_failure_texts_differ()
    ensures
        failure_text(DecodeFailure::TooShort) != failure_text(DecodeFailure::ChecksumMismatch),
{
    reveal_strlit("Input too short");
    reveal_strlit("Invalid CRC32 checksum");
    assert(failure_text(DecodeFailure::TooShort).len() == 15);
    assert(failure_text(DecodeFailure::ChecksumMismatch).len() == 22);
}

/// An inverted bit in the checksum field of an encoded record is found.
pub proof fn lemma_checksum_flip_detected(record: Record, at: int, bit: u8)
    requires
        encodable(record),
        0 <= at < 4,
        bit < 8,
    ensures
        decoding(flip_bit(encoding(record), at, bit)) == Err::<Record, DecodeFailure>(
            DecodeFailure::ChecksumMismatch,
        ),
{
    lemma_layout(record, Seq::empty());
    let whole = encoding(record);
    assert(whole + Seq::<u8>::empty() =~= whole);
    let damaged = flip_bit(whole, at, bit);
    lemma_flip_changes(whole[at], bit);
    assert(damaged[12] == whole[12] && damaged[13] == whole[13]);
    assert(damaged[14] == whole[14] && damaged[15] == whole[15]);
    assert(stored_key(damaged) =~= stored_key(whole));
    assert(stored_value(damaged) =~= stored_value(whole));
    assert(stored_checksum(damaged)[at] != stored_checksum(whole)[at]);
}

/// An inverted bit in the key or the value of an encoded record changes
/// what is checksummed, and is found unless the damaged key and value have
/// the CRC-32 of the intact ones. In that case the damaged record is decoded
/// as if it were intact.
pub proof fn lemma_payload_flip_detected(record: Record, at: int, bit: u8)
    requires
        encodable(record),
        HEADER_LEN <= at < encoding(record).len(),
        bit < 8,
    ensures
        ({
            let damaged = flip_bit(encoding(record), at, bit);
            let key = stored_key(damaged);
            let value = stored_value(damaged);
            &&& key.len() == record.key.len()
            &&& value.len() == record.value.len()
            &&& key + value == (record.key + record.value).update(
                at - HEADER_LEN,
                (record.key + record.value)[at - HEADER_LEN] ^ (1u8 << bit),
            )
            &&& key + value != record.key + record.value
            &&& crc32(key + value) != crc32(record.key + record.value) ==> decoding(damaged)
                == Err::<Record, DecodeFailure>(DecodeFailure::ChecksumMismatch)
            &&& crc32(key + value) == crc32(record.key + record.value) ==> decoding(damaged)
                == Ok::<Record, DecodeFailure>(Record { key, value, timestamp: record.timestamp })
        }),
{
    lemma_layout(record, Seq::empty());
    let whole = encoding(record);
    assert(whole + Seq::<u8>::empty() =~= whole);
    let damaged = flip_bit(whole, at, bit);
    let key = stored_key(damaged);
    let value = stored_value(damaged);
    let payload = record.key + record.value;
    lemma_flip_changes(whole[at], bit);
    assert(damaged[12] == whole[12] && damaged[13] == whole[13]);
    assert(damaged[14] == whole[14] && damaged[15] == whole[15]);
    assert(stored_checksum(damaged) =~= stored_checksum(whole));
    assert(stored_timestamp(damaged) =~= stored_timestamp(whole));
    assert(payload[at - HEADER_LEN] == whole[at]);
    assert(key + value =~= payload.update(at - HEADER_LEN, payload[at - HEADER_LEN] ^ (1u8 << bit)));
    assert((key + value)[at - HEADER_LEN] != payload[at - HEADER_LEN]);
    if crc32(key + value) != crc32(payload) {
        if record_checksum(key, value) == record_checksum(record.key, record.value) {
            lemma_be_bytes_u32_injective(crc32(key + value), crc32(payload));
        }
    }
}

/// The checksum does not cover the timestamp: an encoded record with an
/// inverted bit in its timestamp field decodes to the same key and value
/// with the damaged timestamp.
pub proof fn lemma_timestamp_flip_undetected(record: Record, at: int, bit: u8)
    requires
        encodable(record),
        4 <= at < 12,
        bit < 8,
    ensures
        decoding(flip_bit(encoding(record), at, bit)) == Ok::<Record, DecodeFailure>(
            Record {
                key: record.key,
                value: record.value,
                timestamp: flip_bit(record.timestamp, at - 4, bit),
            },
        ),
        flip_bit(record.timestamp, at - 4, bit) != record.timestamp,
{
    lemma_layout(record, Seq::empty());
    let whole = encoding(record);
    assert(whole + Seq::<u8>::empty() =~= whole);
    let damaged = flip_bit(whole, at, bit);
    lemma_flip_changes(whole[at], bit);
    assert(damaged[12] == whole[12] && damaged[13] == whole[13]);
    assert(damaged[14] == whole[14] && damaged[15] == whole[15]);
    assert(stored_checksum(damaged) =~= stored_checksum(whole));
    assert(stored_key(damaged) =~= stored_key(whole));
    assert(stored_value(damaged) =~= stored_value(whole));
    assert(record.timestamp[at - 4] == whole[at]);
    assert(stored_timestamp(damaged) =~= flip_bit(record.timestamp, at - 4, bit));
    assert(flip_bit(record.timestamp, at - 4, bit)[at - 4] != record.timestamp[at - 4]);
}

} // verus!
