//! The host pickers: by hash of a key, and by lowest moving average.

use crate::hashing::{clock_hash, hash_key, key_hash};
use crate::probe::{first_free, lemma_first_free, lemma_first_free_unhindered, probe_from};
use vstd::arithmetic::div_mod::lemma_mod_bound;
use vstd::prelude::*;

verus! {

/// Average of a host of which no latency is known yet.
pub const NO_AVERAGE: u64 = 0xffff_ffff_ffff_ffff;

/// The host that hash routing picks for `hash`: the index `hash % hosts`, or
/// the first one after it, by linear probing, that is not excluded.
pub open spec fn hash_route(hash: u64, hosts: int, excludes: Seq<usize>) -> int {
    first_free(hash as int % hosts, hosts, excludes)
}

/// `i` is the first index that holds the smallest average, and that average
/// tells something.
pub open spec fn is_lowest(averages: Seq<u64>, i: int) -> bool {
    &&& 0 <= i < averages.len()
    &&& averages[i] < NO_AVERAGE
    &&& forall|j: int| 0 <= j < averages.len() ==> averages[i] <= #[trigger] averages[j]
    &&& forall|j: int| 0 <= j < i ==> averages[i] < #[trigger] averages[j]
}

/// Index of the lowest average, the first such on a tie; `None` where every
/// host holds `NO_AVERAGE`.
pub open spec fn lowest_average(averages: Seq<u64>) -> Option<int> {
    if exists|i: int| is_lowest(averages, i) {
        Some(choose|i: int| is_lowest(averages, i))
    } else {
        None
    }
}

/// The host that latency routing picks: the one with the lowest average, or,
/// where no average is known, the one at `fallback % hosts`; from there the
/// first one, by linear probing, that is not excluded.
pub open spec fn average_route(averages: Seq<u64>, excludes: Seq<usize>, fallback: u64) -> int {
    match lowest_average(averages) {
        Some(i) => first_free(i, averages.len() as int, excludes),
        None => hash_route(fallback, averages.len() as int, excludes),
    }
}

/// At most one index is the lowest.
pub proof fn lemma_lowest_is_unique(averages: Seq<u64>, i: int, j: int)
    requires
        is_lowest(averages, i),
        is_lowest(averages, j),
    ensures
        i == j,
{
    if i < j {
        assert(averages[j] < averages[i]);
    } else if j < i {
        assert(averages[i] < averages[j]);
    }
}

/// With no host excluded, hash routing picks the index `hash % hosts`: the
/// pick is a function of the key's hash and the number of hosts alone.
pub proof fn lemma_hash_route_unhindered(hash: u64, hosts: int)
    requires
        0 < hosts <= usize::MAX,
    ensures
        hash_route(hash, hosts, Seq::<usize>::empty()) == hash as int % hosts,
{
    lemma_mod_bound(hash as int, hosts);
    lemma_first_free_unhindered(hash as int % hosts, hosts, Seq::<usize>::empty());
}

/// Where fewer indices are excluded than there are hosts, hash routing picks
/// a host of the table that is not excluded.
pub proof fn lemma_hash_route_avoids_excluded(hash: u64, hosts: int, excludes: Seq<usize>)
    requires
        excludes.len() < hosts <= usize::MAX,
    ensures
        0 <= hash_route(hash, hosts, excludes) < hosts,
        !excludes.contains(hash_route(hash, hosts, excludes) as usize),
{
    lemma_mod_bound(hash as int, hosts);
    lemma_first_free(hash as int % hosts, hosts, excludes);
}

/// Picks the host for `hash` among `hosts` hosts, passing over the excluded.
pub fn route_from_hash(hash: u64, hosts: usize, exclude_indexes: &Vec<usize>) -> (out: usize)
    requires
        hosts > exclude_indexes.len(),
    ensures
        out == hash_route(hash, hosts as int, exclude_indexes@),
        out < hosts,
        !exclude_indexes@.contains(out),
{
    let start = (hash % (hosts as u64)) as usize;
    probe_from(start, hosts, exclude_indexes)
}

/// Picks a host by the hash of `key`, with linear probing past the excluded
/// indices. The pick depends on `key`, the number of hosts and the exclusions
/// alone.
pub fn pick_host_from_hash<V>(urls: &Vec<V>, key: &str, exclude_indexes: &Vec<usize>) -> (out:
    usize)
    requires
        urls.len() > exclude_indexes.len(),
    ensures
        out == hash_route(key_hash(key@), urls.len() as int, exclude_indexes@),
        out < urls.len(),
        !exclude_indexes@.contains(out),
{
    route_from_hash(hash_key(key), urls.len(), exclude_indexes)
}

/// Finds the host with the lowest average, the first such on a tie; `None`
/// where every host holds `NO_AVERAGE`.
pub fn lowest_average_index(averages: &Vec<u64>) -> (found: Option<usize>)
    ensures
        match found {
            Some(i) => is_lowest(averages@, i as int) && lowest_average(averages@) == Some(
                i as int,
            ),
            None => lowest_average(averages@) is None && forall|j: int|
                0 <= j < averages.len() ==> averages@[j] == NO_AVERAGE,
        },
{
    let mut lowest: u64 = NO_AVERAGE;
    let mut found: Option<usize> = None;
    let mut i: usize = 0;
    while i < averages.len()
        invariant
            i <= averages.len(),
            forall|j: int| 0 <= j < i ==> lowest <= #[trigger] averages@[j],
            match found {
                Some(at) => {
                    &&& at < i
                    &&& averages@[at as int] == lowest
                    &&& lowest < NO_AVERAGE
                    &&& forall|j: int| 0 <= j < at ==> lowest < #[trigger] averages@[j]
                },
                None => lowest == NO_AVERAGE,
            },
        decreases averages.len() - i,
    {
        if averages[i] < lowest {
            lowest = averages[i];
            found = Some(i);
        }
        i = i + 1;
    }
    proof {
        match found {
            Some(at) => {
                let chosen = choose|k: int| is_lowest(averages@, k);
                lemma_lowest_is_unique(averages@, at as int, chosen);
            },
            None => {
                assert forall|k: int| !is_lowest(averages@, k) by {
                    if 0 <= k < averages.len() {
                        assert(lowest <= averages@[k]);
                    }
                }
            },
        }
    }
    found
}

/// Picks the host with the lowest average, or the one that `fallback_hash`
/// selects where no average is known, with linear probing past the excluded
/// indices.
pub fn route_from_averages(
    averages: &Vec<u64>,
    exclude_indexes: &Vec<usize>,
    fallback_hash: u64,
) -> (out: usize)
    requires
        averages.len() > exclude_indexes.len(),
    ensures
        out == average_route(averages@, exclude_indexes@, fallback_hash),
        out < averages.len(),
        !exclude_indexes@.contains(out),
{
    match lowest_average_index(averages) {
        Some(i) => probe_from(i, averages.len(), exclude_indexes),
        None => route_from_hash(fallback_hash, averages.len(), exclude_indexes),
    }
}

/// Picks the host with the lowest average, with linear probing past the
/// excluded indices. Where no average is known, the starting index comes from
/// a hash of the clock, so that any host may be picked.
pub fn pick_host_lowest_average(averages: &Vec<u64>, exclude_indexes: &Vec<usize>) -> (out: usize)
    requires
        averages.len() > exclude_indexes.len(),
    ensures
        exists|fallback: u64| out == average_route(averages@, exclude_indexes@, fallback),
        lowest_average(averages@) matches Some(i) ==> out == first_free(
            i,
            averages.len() as int,
            exclude_indexes@,
        ),
        out < averages.len(),
        !exclude_indexes@.contains(out),
{
    match lowest_average_index(averages) {
        Some(i) => {
            let out = probe_from(i, averages.len(), exclude_indexes);
            assert(out == average_route(averages@, exclude_indexes@, 0));
            out
        },
        None => {
            let fallback = clock_hash();
            let out = route_from_hash(fallback, averages.len(), exclude_indexes);
            assert(out == average_route(averages@, exclude_indexes@, fallback));
            out
        },
    }
}

} // verus!
