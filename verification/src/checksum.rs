//! CRC-32 of a byte string, computed by `crc32fast`.

use vstd::prelude::*;

verus! {

/// `crc32fast::Hasher`, a CRC-32 computation in progress. Nothing inside it
/// is looked at.
#[verifier::external_type_specification]
#[verifier::external_body]
pub struct ExHasher(crc32fast::Hasher);

/// The CRC-32 (IEEE) checksum of `bytes`: what `crc32fast::Hasher::finalize`
/// returns once the hasher was fed `bytes`.
pub uninterp spec fn crc32(bytes: Seq<u8>) -> u32;

/// The bytes that a `crc32fast::Hasher` has been fed since it was created,
/// in the order in which it was fed them.
pub uninterp spec fn hasher_input(hasher: crc32fast::Hasher) -> Seq<u8>;

/// `crc32fast::Hasher::new`: a fresh hasher has been fed nothing.
pub assume_specification[ crc32fast::Hasher::new ]() -> (hasher: crc32fast::Hasher)
    ensures
        hasher_input(hasher) == Seq::<u8>::empty(),
;

/// `crc32fast::Hasher::update`: the hasher has been fed `buf` after what it
/// had before. The hasher counts its input in a `u64`, which must not
/// overflow.
pub assume_specification[ crc32fast::Hasher::update ](hasher: &mut crc32fast::Hasher, buf: &[u8])
    requires
        hasher_input(*old(hasher)).len() + buf@.len() <= u64::MAX,
    ensures
        hasher_input(*final(hasher)) == hasher_input(*old(hasher)) + buf@,
;

/// `crc32fast::Hasher::finalize`: the checksum of all that the hasher was fed.
pub assume_specification[ crc32fast::Hasher::finalize ](hasher: crc32fast::Hasher) -> (sum: u32)
    ensures
        sum == crc32(hasher_input(hasher)),
;

/// The four bytes of `x`, most significant first.
pub open spec fn be_bytes_u32(x: u32) -> Seq<u8> {
    seq![
        (x / 0x100_0000) as u8,
        (x / 0x1_0000 % 0x100) as u8,
        (x / 0x100 % 0x100) as u8,
        (x % 0x100) as u8,
    ]
}

/// Each byte of `x` by shifting and masking.
proof fn lemma_shifts(x: u32)
    ensures
        (x >> 24) as u8 == (x / 0x100_0000) as u8,
        ((x >> 16) & 0xff) as u8 == (x / 0x1_0000 % 0x100) as u8,
        ((x >> 8) & 0xff) as u8 == (x / 0x100 % 0x100) as u8,
        (x & 0xff) as u8 == (x % 0x100) as u8,
{
    assert((x >> 24) as u8 == (x / 0x100_0000) as u8) by (bit_vector);
    assert(((x >> 16) & 0xff) as u8 == (x / 0x1_0000 % 0x100) as u8) by (bit_vector);
    assert(((x >> 8) & 0xff) as u8 == (x / 0x100 % 0x100) as u8) by (bit_vector);
    assert((x & 0xff) as u8 == (x % 0x100) as u8) by (bit_vector);
}

/// The four bytes of a number determine the number.
pub proof fn lemma_be_bytes_u32_injective(a: u32, b: u32)
    requires
        be_bytes_u32(a) == be_bytes_u32(b),
    ensures
        a == b,
{
    let x = be_bytes_u32(a);
    let y = be_bytes_u32(b);
    assert(x[0] == y[0] && x[1] == y[1] && x[2] == y[2] && x[3] == y[3]);
    lemma_shifts(a);
    lemma_shifts(b);
    assert(a == b) by (bit_vector)
        requires
            (a >> 24) as u8 == (b >> 24) as u8,
            ((a >> 16) & 0xff) as u8 == ((b >> 16) & 0xff) as u8,
            ((a >> 8) & 0xff) as u8 == ((b >> 8) & 0xff) as u8,
            (a & 0xff) as u8 == (b & 0xff) as u8,
    ;
}

/// The checksum that a record with this key and value carries: the CRC-32 of
/// the key followed by the value, most significant byte first.
pub open spec fn record_checksum(key: Seq<u8>, value: Seq<u8>) -> Seq<u8> {
    be_bytes_u32(crc32(key + value))
}

/// The four bytes of a checksum, most significant first.
pub fn checksum_bytes(crc: u32) -> (bytes: [u8; 4])
    ensures
        bytes@ == be_bytes_u32(crc),
{
    let bytes: [u8; 4] = [
        (crc >> 24) as u8,
        ((crc >> 16) & 0xff) as u8,
        ((crc >> 8) & 0xff) as u8,
        (crc & 0xff) as u8,
    ];
    assert(bytes@ =~= be_bytes_u32(crc)) by {
        lemma_shifts(crc);
    }
    bytes
}

/// The checksum of a record with this key and value. The hasher counts its
/// input in a `u64`, so the two together must not be longer than that.
pub fn calculate_crc(key: &[u8], value: &[u8]) -> (sum: [u8; 4])
    requires
        key@.len() + value@.len() <= u64::MAX,
    ensures
        sum@ == record_checksum(key@, value@),
{
    let mut hasher = crc32fast::Hasher::new();
    hasher.update(key);
    hasher.update(value);
    let crc_value = hasher.finalize();
    checksum_bytes(crc_value)
}

} // verus!
