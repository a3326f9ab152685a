//! Linear probing past excluded hosts.
//!
//! A host picker first settles on a starting index and then steps forward,
//! wrapping at the end of the host table, until it stands on an index that the
//! caller did not exclude.

use vstd::arithmetic::div_mod::{lemma_mod_self_0, lemma_small_mod};
use vstd::prelude::*;

verus! {

/// The index after `i` in a table of `hosts` entries, wrapping to the front.
pub open spec fn next_index(i: int, hosts: int) -> int {
    (i + 1) % hosts
}

/// The first index not in `excludes` that is met from `start` on, stepping by
/// `next_index`, within `budget` steps; the index reached after `budget` steps
/// if all before it are excluded.
pub open spec fn first_free_within(start: int, hosts: int, excludes: Seq<usize>, budget: nat) -> int
    decreases budget,
{
    if budget == 0 || !excludes.contains(start as usize) {
        start
    } else {
        first_free_within(next_index(start, hosts), hosts, excludes, (budget - 1) as nat)
    }
}

/// The first index not in `excludes` that linear probing meets from `start` on.
pub open spec fn first_free(start: int, hosts: int, excludes: Seq<usize>) -> int {
    first_free_within(start, hosts, excludes, hosts as nat)
}

/// Number of probing steps from `from` to `to` in a table of `hosts` entries.
pub open spec fn steps_between(from: int, to: int, hosts: int) -> int {
    if to >= from {
        to - from
    } else {
        to - from + hosts
    }
}

/// Within a table, the next index is the following one, or the first after the
/// last.
pub proof fn lemma_next_index(i: int, hosts: int)
    requires
        0 <= i < hosts,
    ensures
        next_index(i, hosts) == if i + 1 == hosts {
            0
        } else {
            i + 1
        },
{
    if i + 1 == hosts {
        lemma_mod_self_0(hosts);
    } else {
        lemma_small_mod((i + 1) as nat, hosts as nat);
    }
}

/// A list shorter than the table leaves some index of the table out.
pub proof fn lemma_some_index_free(hosts: int, excludes: Seq<usize>)
    requires
        excludes.len() < hosts <= usize::MAX,
    ensures
        exists|i: usize| i < hosts && !excludes.contains(i),
    decreases hosts,
{
    let last = (hosts - 1) as usize;
    if excludes.contains(last) {
        let j = choose|j: int| 0 <= j < excludes.len() && excludes[j] == last;
        let fewer = excludes.remove(j);
        lemma_some_index_free(hosts - 1, fewer);
        let i = choose|i: usize| i < hosts - 1 && !fewer.contains(i);
        lemma_kept_out(excludes, j, i);
        assert(i < hosts && !excludes.contains(i));
    } else {
        assert(last < hosts && !excludes.contains(last));
    }
}

/// A value that differs from the entry at `j` and is not among the others is
/// not in the list.
proof fn lemma_kept_out(excludes: Seq<usize>, j: int, x: usize)
    requires
        0 <= j < excludes.len(),
        excludes[j] != x,
        !excludes.remove(j).contains(x),
    ensures
        !excludes.contains(x),
{
    let fewer = excludes.remove(j);
    if excludes.contains(x) {
        let at = choose|at: int| 0 <= at < excludes.len() && excludes[at] == x;
        if at < j {
            assert(fewer[at] == x);
        } else {
            assert(fewer[at - 1] == x);
        }
    }
}

/// Probing from `start` with a budget that reaches the free index `free`
/// stops on an index of the table that is not excluded, and every index it
/// passed before is excluded.
pub proof fn lemma_first_free_within(
    start: int,
    hosts: int,
    excludes: Seq<usize>,
    budget: nat,
    free: int,
)
    requires
        0 <= start < hosts <= usize::MAX,
        0 <= free < hosts,
        !excludes.contains(free as usize),
        steps_between(start, free, hosts) <= budget,
    ensures
        0 <= first_free_within(start, hosts, excludes, budget) < hosts,
        !excludes.contains(first_free_within(start, hosts, excludes, budget) as usize),
        steps_between(start, first_free_within(start, hosts, excludes, budget), hosts)
            <= steps_between(start, free, hosts),
        forall|i: usize|
            i < hosts && steps_between(start, i as int, hosts) < steps_between(
                start,
                first_free_within(start, hosts, excludes, budget),
                hosts,
            ) ==> #[trigger] excludes.contains(i),
    decreases budget,
{
    if excludes.contains(start as usize) {
        lemma_next_index(start, hosts);
        let next = next_index(start, hosts);
        lemma_first_free_within(next, hosts, excludes, (budget - 1) as nat, free);
    }
}

/// Linear probing over a table with more entries than exclusions ends on an
/// index of the table that is not excluded.
pub proof fn lemma_first_free(start: int, hosts: int, excludes: Seq<usize>)
    requires
        0 <= start < hosts <= usize::MAX,
        excludes.len() < hosts,
    ensures
        0 <= first_free(start, hosts, excludes) < hosts,
        !excludes.contains(first_free(start, hosts, excludes) as usize),
        forall|i: usize|
            i < hosts && steps_between(start, i as int, hosts) < steps_between(
                start,
                first_free(start, hosts, excludes),
                hosts,
            ) ==> #[trigger] excludes.contains(i),
{
    lemma_some_index_free(hosts, excludes);
    let free = choose|i: usize| i < hosts && !excludes.contains(i);
    lemma_first_free_within(start, hosts, excludes, hosts as nat, free as int);
}

/// Where nothing is excluded, probing stays on its starting index.
pub proof fn lemma_first_free_unhindered(start: int, hosts: int, excludes: Seq<usize>)
    requires
        0 <= start < hosts <= usize::MAX,
        !excludes.contains(start as usize),
    ensures
        first_free(start, hosts, excludes) == start,
{
}

/// Tells whether `index` is among `exclude_indexes`.
pub fn is_excluded(exclude_indexes: &Vec<usize>, index: usize) -> (found: bool)
    ensures
        found == exclude_indexes@.contains(index),
{
    let mut at: usize = 0;
    while at < exclude_indexes.len()
        invariant
            at <= exclude_indexes.len(),
            forall|j: int| 0 <= j < at ==> exclude_indexes@[j] != index,
        decreases exclude_indexes.len() - at,
    {
        if exclude_indexes[at] == index {
            return true;
        }
        at = at + 1;
    }
    false
}

/// Steps from `start` past every excluded index and returns the first one that
/// is not excluded.
pub fn probe_from(start: usize, hosts: usize, exclude_indexes: &Vec<usize>) -> (out: usize)
    requires
        start < hosts,
        hosts > exclude_indexes.len(),
    ensures
        out == first_free(start as int, hosts as int, exclude_indexes@),
        out < hosts,
        !exclude_indexes@.contains(out),
{
    let ghost free: int;
    proof {
        lemma_some_index_free(hosts as int, exclude_indexes@);
        free = (choose|i: usize| i < hosts && !exclude_indexes@.contains(i)) as int;
    }
    let ghost mut budget: nat = hosts as nat;
    let mut out = start;
    while is_excluded(exclude_indexes, out)
        invariant
            out < hosts,
            0 <= free < hosts,
            !exclude_indexes@.contains(free as usize),
            steps_between(out as int, free, hosts as int) <= budget,
            first_free(start as int, hosts as int, exclude_indexes@) == first_free_within(
                out as int,
                hosts as int,
                exclude_indexes@,
                budget,
            ),
        decreases budget,
    {
        proof {
            lemma_next_index(out as int, hosts as int);
            budget = (budget - 1) as nat;
        }
        out = (out + 1) % hosts;
    }
    out
}

} // verus!
