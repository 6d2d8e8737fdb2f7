//! The snapshot of a key directory as bytes, written and read by `bincode`.
//!
//! A snapshot is the list of the directory's entries, each a key with the
//! three numbers of its place, in bincode's fixed-width encoding.

use vstd::prelude::*;
use crate::keyfile::KeyMetadata;

verus! {

/// `bincode::ErrorKind`, the error of `bincode::serialize` and
/// `bincode::deserialize`. Nothing inside it is looked at.
#[verifier::external_type_specification]
#[verifier::external_body]
pub struct ExErrorKind(bincode::ErrorKind);

/// Why a snapshot could not be written or read.
#[derive(Debug)]
pub struct PersistenceError {
    pub message: String,
}

/// What `bincode::serialize` makes of a list of entries: the bytes, or
/// nothing where it fails.
pub uninterp spec fn bincode_bytes(entries: Seq<(Seq<char>, (u32, u64, u64))>) -> Option<Seq<u8>>;

/// The list of entries that `bincode::deserialize` reads from `bytes`, if it
/// reads one.
pub uninterp spec fn bincode_entries(bytes: Seq<u8>) -> Option<Seq<(Seq<char>, (u32, u64, u64))>>;

/// `bincode::serialize` on a list of entries: whether it succeeds, and with
/// which bytes, depends on the entries alone, and `bincode::deserialize`
/// reads the same entries back from the bytes. Nothing is claimed of which
/// lists it takes.
#[verifier::external_body]
pub(crate) fn encode_entries(entries: &Vec<(String, (u32, u64, u64))>) -> (r: Result<
    Vec<u8>,
    bincode::Error,
>)
    ensures
        match r {
            Ok(bytes) => {
                &&& bincode_bytes(entries.deep_view()) == Some(bytes@)
                &&& bincode_entries(bytes@) == Some(entries.deep_view())
            },
            Err(_) => bincode_bytes(entries.deep_view()) is None,
        },
{
    bincode::serialize(entries)
}

/// `bincode::deserialize` into a list of entries: whether it succeeds, and
/// with which entries, depends on the bytes alone.
#[verifier::external_body]
pub(crate) fn decode_entries(bytes: &[u8]) -> (r: Result<
    Vec<(String, (u32, u64, u64))>,
    bincode::Error,
>)
    ensures
        match r {
            Ok(entries) => bincode_entries(bytes@) == Some(entries.deep_view()),
            Err(_) => bincode_entries(bytes@) is None,
        },
{
    bincode::deserialize(bytes)
}

/// The text of a `bincode` error, from its `Display` impl. Nothing is claimed
/// of the text.
#[verifier::external_body]
pub(crate) fn describe(error: &bincode::Error) -> (text: String) {
    error.to_string()
}

/// An entry with its place as three plain numbers.
pub open spec fn plain_entry(entry: (Seq<char>, KeyMetadata)) -> (Seq<char>, (u32, u64, u64)) {
    (entry.0, (entry.1.file_id, entry.1.offset, entry.1.size))
}

/// An entry with its three plain numbers as a place.
pub open spec fn listed_entry(plain: (Seq<char>, (u32, u64, u64))) -> (Seq<char>, KeyMetadata) {
    (plain.0, KeyMetadata { file_id: plain.1.0, offset: plain.1.1, size: plain.1.2 })
}

/// A listing as plain values, entry by entry.
pub open spec fn plain_listing(listing: Seq<(Seq<char>, KeyMetadata)>) -> Seq<
    (Seq<char>, (u32, u64, u64)),
> {
    Seq::new(listing.len(), |i: int| plain_entry(listing[i]))
}

/// The listing that plain values stand for, entry by entry.
pub open spec fn listing_from(plain: Seq<(Seq<char>, (u32, u64, u64))>) -> Seq<
    (Seq<char>, KeyMetadata),
> {
    Seq::new(plain.len(), |i: int| listed_entry(plain[i]))
}

} // verus!
