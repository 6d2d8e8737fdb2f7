//! Record codec and key directory of a Bitcask-style append-only store.
//!
//! A record is a key, a value and a timestamp, written to the log as one
//! checksummed byte string. The key directory maps each key to the place in
//! the log where its latest value lies, and can be turned into a snapshot and
//! rebuilt from one.

pub mod checksum;
pub mod serdes;
pub mod clock;
pub mod keyfile;
pub mod snapshot;
pub mod integrity;
