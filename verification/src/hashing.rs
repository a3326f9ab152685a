//! Hashes that fix a starting index in the host table: of an agent's
//! identifier, and of the clock where nothing better is known.

use std::collections::hash_map::DefaultHasher;
use std::hash::{Hash, Hasher};
use std::time::Instant;
use vstd::prelude::*;
use vstd::std_specs::hash::DefaultHasherAdditionalSpecFns;

verus! {

/// The writes that the standard library's `Hash` impl of `str` makes to a
/// hasher for the string `key`.
pub uninterp spec fn str_hash_writes(key: Seq<char>) -> Seq<Seq<u8>>;

/// The hash of `key`: what a fresh `DefaultHasher` yields once `key` was
/// hashed into it.
pub open spec fn key_hash(key: Seq<char>) -> u64 {
    DefaultHasher::spec_finish(str_hash_writes(key))
}

/// Trusted. Calls `<str as Hash>::hash` on `key`. The contract claims that the
/// writes this makes to the hasher depend on the characters of `key` alone, and
/// that they are appended to those made before.
#[verifier::external_body]
fn feed_str(key: &str, state: &mut DefaultHasher)
    ensures
        final(state)@ == old(state)@ + str_hash_writes(key@),
{
    key.hash(state)
}

/// Trusted. The type `std::time::Instant`, of which nothing is known here.
#[verifier::external_type_specification]
#[verifier::external_body]
pub struct ExInstant(Instant);

/// Trusted. Calls `Instant::now`. Nothing is claimed of the reading.
#[verifier::external_body]
fn clock_reading() -> Instant {
    Instant::now()
}

/// Trusted. Calls `<Instant as Hash>::hash` on `reading`. Nothing is claimed of
/// what it writes to the hasher.
#[verifier::external_body]
fn feed_instant(reading: &Instant, state: &mut DefaultHasher) {
    reading.hash(state)
}

/// Hash of an agent's identifier. Equal identifiers have equal hashes.
pub fn hash_key(key: &str) -> (hash: u64)
    ensures
        hash == key_hash(key@),
{
    let mut state = DefaultHasher::new();
    feed_str(key, &mut state);
    state.finish()
}

/// Hash of the current reading of the clock: any value may come back, and two
/// calls need not agree.
pub(crate) fn clock_hash() -> u64 {
    let mut state = DefaultHasher::new();
    let reading = clock_reading();
    feed_instant(&reading, &mut state);
    state.finish()
}

} // verus!
