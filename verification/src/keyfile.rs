//! The key directory: for each key, where in the log its latest value lies.

use vstd::prelude::*;
use crate::snapshot::{
    bincode_bytes, bincode_entries, decode_entries, describe, encode_entries, listing_from,
    plain_listing, PersistenceError,
};

verus! {

/// Where a value lies in the log.
#[derive(Debug, Clone, Copy, PartialEq, Eq, Structural)]
pub struct KeyMetadata {
    pub file_id: u32,
    pub offset: u64,
    pub size: u64,
}

/// The mapping that a list of entries stands for when it is read from front
/// to back: of two entries with one key, the later one counts.
pub open spec fn mapping_of(listing: Seq<(Seq<char>, KeyMetadata)>) -> Map<Seq<char>, KeyMetadata>
    decreases listing.len(),
{
    if listing.len() == 0 {
        Map::empty()
    } else {
        mapping_of(listing.drop_last()).insert(listing.last().0, listing.last().1)
    }
}

/// No key occurs twice in `listing`.
pub open spec fn distinct_keys(listing: Seq<(Seq<char>, KeyMetadata)>) -> bool {
    forall|i: int, j: int| 0 <= i < j < listing.len() ==> listing[i].0 != listing[j].0
}

/// The entries of a directory with each key as its characters.
spec fn listing_of(entries: Seq<(String, KeyMetadata)>) -> Seq<(Seq<char>, KeyMetadata)> {
    Seq::new(entries.len(), |i: int| (entries[i].0@, entries[i].1))
}

/// What a lookup of `key` in `mapping` gives.
pub open spec fn lookup(mapping: Map<Seq<char>, KeyMetadata>, key: Seq<char>) -> Option<
    KeyMetadata,
> {
    if mapping.contains_key(key) {
        Some(mapping[key])
    } else {
        None
    }
}

/// The mapping that a snapshot holds, if `bytes` is a snapshot.
pub open spec fn mapping_in(bytes: Seq<u8>) -> Option<Map<Seq<char>, KeyMetadata>> {
    match bincode_entries(bytes) {
        Some(plain) => Some(mapping_of(listing_from(plain))),
        None => None,
    }
}

/// The keys of `mapping_of(listing)` are the keys that occur in `listing`,
/// and where none occurs twice each key has the value listed with it.
pub proof fn lemma_mapping_of(listing: Seq<(Seq<char>, KeyMetadata)>)
    ensures
        forall|key: Seq<char>| #[trigger]
            mapping_of(listing).contains_key(key) <==> exists|i: int|
                0 <= i < listing.len() && (#[trigger] listing[i]).0 == key,
        distinct_keys(listing) ==> forall|i: int|
            0 <= i < listing.len() ==> mapping_of(listing)[(#[trigger] listing[i]).0]
                == listing[i].1,
    decreases listing.len(),
{
    if listing.len() > 0 {
        let front = listing.drop_last();
        let last = listing.last();
        lemma_mapping_of(front);
        assert forall|key: Seq<char>| #[trigger]
            mapping_of(listing).contains_key(key) <==> exists|i: int|
                0 <= i < listing.len() && (#[trigger] listing[i]).0 == key by {
            if mapping_of(listing).contains_key(key) {
                if key == last.0 {
                    assert(listing[listing.len() - 1].0 == key);
                } else {
                    assert(mapping_of(front).contains_key(key));
                    let i = choose|i: int| 0 <= i < front.len() && (#[trigger] front[i]).0 == key;
                    assert(listing[i].0 == key);
                }
            }
            if exists|i: int| 0 <= i < listing.len() && (#[trigger] listing[i]).0 == key {
                let i = choose|i: int| 0 <= i < listing.len() && (#[trigger] listing[i]).0 == key;
                if i < listing.len() - 1 {
                    assert(front[i].0 == key);
                    assert(mapping_of(front).contains_key(key));
                }
            }
        }
        if distinct_keys(listing) {
            assert(distinct_keys(front)) by {
                assert forall|i: int, j: int| 0 <= i < j < front.len() implies front[i].0
                    != front[j].0 by {
                    assert(listing[i].0 != listing[j].0);
                }
            }
            assert forall|i: int| 0 <= i < listing.len() implies mapping_of(listing)[(
            #[trigger] listing[i]).0] == listing[i].1 by {
                if i < listing.len() - 1 {
                    assert(front[i] == listing[i]);
                    assert(listing[i].0 != listing[listing.len() - 1].0);
                }
            }
        }
    }
}

/// A key that occurs nowhere in `listing` is not bound in its mapping.
pub proof fn lemma_absent(listing: Seq<(Seq<char>, KeyMetadata)>, key: Seq<char>)
    requires
        forall|i: int| 0 <= i < listing.len() ==> (#[trigger] listing[i]).0 != key,
    ensures
        !mapping_of(listing).contains_key(key),
{
    lemma_mapping_of(listing);
}

/// Appending an entry with a new key binds that key and keeps the keys
/// distinct.
pub proof fn lemma_appended(listing: Seq<(Seq<char>, KeyMetadata)>, entry: (Seq<char>, KeyMetadata))
    requires
        distinct_keys(listing),
        forall|i: int| 0 <= i < listing.len() ==> (#[trigger] listing[i]).0 != entry.0,
    ensures
        distinct_keys(listing.push(entry)),
        mapping_of(listing.push(entry)) == mapping_of(listing).insert(entry.0, entry.1),
{
    let after = listing.push(entry);
    assert(after.drop_last() =~= listing);
    assert forall|a: int, b: int| 0 <= a < b < after.len() implies after[a].0 != after[b].0 by {
        if b < listing.len() {
            assert(listing[a].0 != listing[b].0);
        } else {
            assert(listing[a].0 != entry.0);
        }
    }
}

/// Giving the entry at `at` another place binds its key to that place and
/// keeps the keys distinct.
pub proof fn lemma_replaced(listing: Seq<(Seq<char>, KeyMetadata)>, at: int, place: KeyMetadata)
    requires
        distinct_keys(listing),
        0 <= at < listing.len(),
    ensures
        distinct_keys(listing.update(at, (listing[at].0, place))),
        mapping_of(listing.update(at, (listing[at].0, place))) == mapping_of(listing).insert(
            listing[at].0,
            place,
        ),
{
    let key = listing[at].0;
    let after = listing.update(at, (key, place));
    assert forall|a: int, b: int| 0 <= a < b < after.len() implies after[a].0 != after[b].0 by {
        assert(listing[a].0 != listing[b].0);
    }
    lemma_mapping_of(listing);
    lemma_mapping_of(after);
    let wanted = mapping_of(listing).insert(key, place);
    assert forall|k: Seq<char>| #[trigger]
        mapping_of(after).contains_key(k) <==> wanted.contains_key(k) by {
        if mapping_of(after).contains_key(k) {
            let j = choose|j: int| 0 <= j < after.len() && (#[trigger] after[j]).0 == k;
            assert(listing[j].0 == k);
        }
        if mapping_of(listing).contains_key(k) {
            let j = choose|j: int| 0 <= j < listing.len() && (#[trigger] listing[j]).0 == k;
            assert(after[j].0 == k);
        }
        if k == key {
            assert(after[at].0 == k);
        }
    }
    assert forall|k: Seq<char>| #[trigger] mapping_of(after).contains_key(k) implies mapping_of(
        after,
    )[k] == wanted[k] by {
        let j = choose|j: int| 0 <= j < after.len() && (#[trigger] after[j]).0 == k;
        assert(mapping_of(after)[after[j].0] == after[j].1);
        if j != at {
            assert(mapping_of(listing)[listing[j].0] == listing[j].1);
            assert(listing[j].0 != listing[at].0);
        }
    }
    assert(mapping_of(after) =~= wanted);
}

/// Taking the entry at `at` out unbinds its key and keeps the keys distinct.
pub proof fn lemma_taken_out(listing: Seq<(Seq<char>, KeyMetadata)>, at: int)
    requires
        distinct_keys(listing),
        0 <= at < listing.len(),
    ensures
        distinct_keys(listing.remove(at)),
        mapping_of(listing.remove(at)) == mapping_of(listing).remove(listing[at].0),
        lookup(mapping_of(listing), listing[at].0) == Some(listing[at].1),
{
    let key = listing[at].0;
    let after = listing.remove(at);
    assert forall|a: int, b: int| 0 <= a < b < after.len() implies after[a].0 != after[b].0 by {
        let a0 = if a < at { a } else { a + 1 };
        let b0 = if b < at { b } else { b + 1 };
        assert(listing[a0].0 != listing[b0].0);
    }
    lemma_mapping_of(listing);
    lemma_mapping_of(after);
    let wanted = mapping_of(listing).remove(key);
    assert forall|k: Seq<char>| #[trigger]
        mapping_of(after).contains_key(k) <==> wanted.contains_key(k) by {
        if mapping_of(after).contains_key(k) {
            let j = choose|j: int| 0 <= j < after.len() && (#[trigger] after[j]).0 == k;
            let j0 = if j < at { j } else { j + 1 };
            assert(listing[j0].0 == k);
            assert(listing[j0].0 != listing[at].0);
        }
        if mapping_of(listing).contains_key(k) && k != key {
            let j = choose|j: int| 0 <= j < listing.len() && (#[trigger] listing[j]).0 == k;
            let j1 = if j < at { j } else { j - 1 };
            assert(after[j1].0 == k);
        }
    }
    assert forall|k: Seq<char>| #[trigger] mapping_of(after).contains_key(k) implies mapping_of(
        after,
    )[k] == wanted[k] by {
        let j = choose|j: int| 0 <= j < after.len() && (#[trigger] after[j]).0 == k;
        let j0 = if j < at { j } else { j + 1 };
        assert(mapping_of(after)[after[j].0] == after[j].1);
        assert(mapping_of(listing)[listing[j0].0] == listing[j0].1);
    }
    assert(mapping_of(after) =~= wanted);
    assert(mapping_of(listing)[listing[at].0] == listing[at].1);
}

/// Finds the entry with the given key.
fn position(entries: &Vec<(String, KeyMetadata)>, key: &String) -> (found: Option<usize>)
    ensures
        match found {
            Some(i) => i < entries@.len() && entries@[i as int].0@ == key@,
            None => forall|j: int| 0 <= j < entries@.len() ==> entries@[j].0@ != key@,
        },
{
    let mut i: usize = 0;
    while i < entries.len()
        invariant
            i <= entries@.len(),
            forall|j: int| 0 <= j < i ==> entries@[j].0@ != key@,
        decreases entries@.len() - i,
    {
        if entries[i].0 == *key {
            return Some(i);
        }
        i += 1;
    }
    None
}

/// A key directory bound to the path of its snapshot file.
pub struct BitcaskKeyFile {
    file_path: String,
    entries: Vec<(String, KeyMetadata)>,
}

impl View for BitcaskKeyFile {
    type V = Map<Seq<char>, KeyMetadata>;

    open spec fn view(&self) -> Map<Seq<char>, KeyMetadata> {
        mapping_of(self.listing())
    }
}

impl BitcaskKeyFile {
    #[verifier::type_invariant]
    spec fn unique(self) -> bool {
        distinct_keys(listing_of(self.entries@))
    }

    /// The entries in the order in which a snapshot lists them.
    pub closed spec fn listing(&self) -> Seq<(Seq<char>, KeyMetadata)> {
        listing_of(self.entries@)
    }

    /// The path that the directory is bound to.
    pub closed spec fn path(&self) -> Seq<char> {
        self.file_path@
    }

    /// An empty directory bound to `file_path`. Nothing is read.
    pub fn new(file_path: &str) -> (directory: Self)
        ensures
            directory@ == Map::<Seq<char>, KeyMetadata>::empty(),
            directory.listing() == Seq::<(Seq<char>, KeyMetadata)>::empty(),
            directory.path() == file_path@,
    {
        let directory = BitcaskKeyFile { file_path: file_path.to_owned(), entries: Vec::new() };
        assert(directory.listing() =~= Seq::empty());
        directory
    }

    /// The path that the directory is bound to.
    pub fn file_path(&self) -> (path: &str)
        ensures
            path@ == self.path(),
    {
        self.file_path.as_str()
    }

    /// Binds `key` to the given place, whether or not it was bound before.
    pub fn add_key(&mut self, key: String, file_id: u32, offset: u64, size: u64)
        ensures
            final(self)@ == old(self)@.insert(key@, KeyMetadata { file_id, offset, size }),
            final(self).path() == old(self).path(),
    {
        proof {
            use_type_invariant(&*self);
        }
        let metadata = KeyMetadata { file_id, offset, size };
        let ghost before = self.listing();
        let ghost bound = key@;
        let mut entries: Vec<(String, KeyMetadata)> = Vec::new();
        std::mem::swap(&mut entries, &mut self.entries);
        match position(&entries, &key) {
            Some(i) => {
                entries.set(i, (key, metadata));
                proof {
                    lemma_replaced(before, i as int, metadata);
                    assert(listing_of(entries@) =~= before.update(i as int, (bound, metadata)));
                }
            },
            None => {
                entries.push((key, metadata));
                proof {
                    lemma_appended(before, (bound, metadata));
                    assert(listing_of(entries@) =~= before.push((bound, metadata)));
                }
            },
        }
        self.entries = entries;
    }

    /// The place that `key` is bound to, if it is bound. The directory stays
    /// as it is.
    pub fn get_key_info(&self, key: &str) -> (info: Option<&KeyMetadata>)
        ensures
            info == match lookup(self@, key@) {
                Some(metadata) => Some(&metadata),
                None => None,
            },
    {
        proof {
            use_type_invariant(self);
            lemma_mapping_of(self.listing());
        }
        let wanted = key.to_owned();
        match position(&self.entries, &wanted) {
            Some(i) => {
                assert(self.listing()[i as int].0 == key@);
                Some(&self.entries[i].1)
            },
            None => {
                proof {
                    lemma_absent(self.listing(), key@);
                }
                None
            },
        }
    }

    /// Unbinds `key` and hands out the place that it was bound to, if it was
    /// bound.
    pub fn remove_key(&mut self, key: &str) -> (removed: Option<KeyMetadata>)
        ensures
            removed == lookup(old(self)@, key@),
            final(self)@ == old(self)@.remove(key@),
            final(self).path() == old(self).path(),
    {
        proof {
            use_type_invariant(&*self);
        }
        let ghost before = self.listing();
        let wanted = key.to_owned();
        let mut entries: Vec<(String, KeyMetadata)> = Vec::new();
        std::mem::swap(&mut entries, &mut self.entries);
        let removed = match position(&entries, &wanted) {
            Some(i) => {
                let entry = entries.remove(i);
                proof {
                    lemma_taken_out(before, i as int);
                    assert(listing_of(entries@) =~= before.remove(i as int));
                }
                Some(entry.1)
            },
            None => {
                proof {
                    lemma_absent(before, key@);
                    assert(listing_of(entries@) =~= before);
                    assert(mapping_of(before).remove(key@) =~= mapping_of(before));
                }
                None
            },
        };
        self.entries = entries;
        removed
    }

    /// The entries as plain values, in the order of the listing. No key
    /// occurs twice.
    pub fn entries(&self) -> (plain: Vec<(String, (u32, u64, u64))>)
        ensures
            plain.deep_view() == plain_listing(self.listing()),
            distinct_keys(self.listing()),
    {
        proof {
            use_type_invariant(self);
        }
        let mut plain: Vec<(String, (u32, u64, u64))> = Vec::new();
        let mut i: usize = 0;
        while i < self.entries.len()
            invariant
                i <= self.entries@.len(),
                plain@.len() == i,
                forall|j: int|
                    0 <= j < i ==> (#[trigger] plain@[j]).0@ == self.entries@[j].0@ && plain@[j].1
                        == (
                        self.entries@[j].1.file_id,
                        self.entries@[j].1.offset,
                        self.entries@[j].1.size,
                    ),
            decreases self.entries@.len() - i,
        {
            let metadata = self.entries[i].1;
            plain.push(
                (self.entries[i].0.clone(), (metadata.file_id, metadata.offset, metadata.size)),
            );
            i += 1;
        }
        assert(plain.deep_view() =~= plain_listing(self.listing()));
        plain
    }

    /// Replaces the mapping by the one that `entries` stands for: read from
    /// front to back, a later entry for a key counts over an earlier one.
    pub fn install(&mut self, entries: Vec<(String, (u32, u64, u64))>)
        ensures
            final(self)@ == mapping_of(listing_from(entries.deep_view())),
            final(self).path() == old(self).path(),
    {
        self.entries = Vec::new();
        assert(self.listing() =~= Seq::empty());
        let ghost target = listing_from(entries.deep_view());
        let mut i: usize = 0;
        while i < entries.len()
            invariant
                i <= entries@.len(),
                target == listing_from(entries.deep_view()),
                self@ == mapping_of(target.take(i as int)),
                self.path() == old(self).path(),
            decreases entries@.len() - i,
        {
            let place = entries[i].1;
            proof {
                assert(target.take(i + 1).drop_last() =~= target.take(i as int));
                assert(target.take(i + 1).last() == target[i as int]);
            }
            self.add_key(entries[i].0.clone(), place.0, place.1, place.2);
            i += 1;
        }
        assert(target.take(i as int) =~= target);
    }

    /// The snapshot of the directory: its entries as `bincode` writes them,
    /// or an error where `bincode` writes none. A snapshot holds the mapping
    /// of the directory that it was taken of.
    pub fn snapshot(&self) -> (r: Result<Vec<u8>, PersistenceError>)
        ensures
            match bincode_bytes(plain_listing(self.listing())) {
                Some(bytes) => {
                    &&& r matches Ok(written)
                    &&& written@ == bytes
                    &&& mapping_in(bytes) == Some(self@)
                },
                None => r is Err,
            },
    {
        let plain = self.entries();
        match encode_entries(&plain) {
            Ok(bytes) => {
                proof {
                    lemma_snapshot_round_trip(*self, bytes@);
                }
                Ok(bytes)
            },
            Err(error) => Err(PersistenceError { message: describe(&error) }),
        }
    }

    /// Replaces the mapping by the one that the snapshot `bytes` holds. Where
    /// `bincode` reads no list of entries from `bytes`, the directory stays
    /// as it is.
    pub fn restore(&mut self, bytes: &[u8]) -> (r: Result<(), PersistenceError>)
        ensures
            match mapping_in(bytes@) {
                Some(mapping) => r is Ok && final(self)@ == mapping,
                None => r is Err && final(self)@ == old(self)@,
            },
            final(self).path() == old(self).path(),
    {
        match decode_entries(bytes) {
            Ok(plain) => {
                self.install(plain);
                Ok(())
            },
            Err(error) => Err(PersistenceError { message: describe(&error) }),
        }
    }
}

/// The plain values of a listing stand for that listing again, so a directory
/// that is given the entries of another holds the same mapping.
pub proof fn lemma_listing_round_trip(listing: Seq<(Seq<char>, KeyMetadata)>)
    ensures
        listing_from(plain_listing(listing)) == listing,
        mapping_of(listing_from(plain_listing(listing))) == mapping_of(listing),
{
    assert(listing_from(plain_listing(listing)) =~= listing);
}

/// Bytes from which the entries of `source` are read back hold the mapping
/// of `source`: a directory restored from them equals `source`, whatever
/// adds and removes led to it.
pub proof fn lemma_snapshot_round_trip(source: BitcaskKeyFile, bytes: Seq<u8>)
    requires
        bincode_entries(bytes) == Some(plain_listing(source.listing())),
    ensures
        mapping_in(bytes) == Some(source@),
{
    lemma_listing_round_trip(source.listing());
}

/// Binding a key to a place makes lookups of that key give the place and
/// leaves lookups of every other key as they were.
pub proof fn lemma_lookup_after_add(
    mapping: Map<Seq<char>, KeyMetadata>,
    bound: Seq<char>,
    place: KeyMetadata,
    key: Seq<char>,
)
    ensures
        lookup(mapping.insert(bound, place), key) == if key == bound {
            Some(place)
        } else {
            lookup(mapping, key)
        },
{
}

/// Unbinding a key makes lookups of that key give nothing and leaves lookups
/// of every other key as they were.
pub proof fn lemma_lookup_after_remove(
    mapping: Map<Seq<char>, KeyMetadata>,
    unbound: Seq<char>,
    key: Seq<char>,
)
    ensures
        lookup(mapping.remove(unbound), key) == if key == unbound {
            None
        } else {
            lookup(mapping, key)
        },
{
}

} // verus!
