//! The search coordinator: claims candidates 1, 2, 3, ... in rounds, hashes
//! each round on rayon's thread pool, and records matches in a bounded
//! result set until the target count is reached.
use rayon::iter::{IndexedParallelIterator, IntoParallelRefIterator, ParallelIterator};
use vstd::prelude::*;

use crate::digest::{compute_hash, digest_of};
use crate::suffix::{has_zero_suffix, hash_ends_with_zeros};

verus! {

/// How many candidates one round hands to the thread pool.
pub const ROUND_SIZE: u64 = 16384;

/// Whether candidate `v` matches: it is positive and its digest ends in
/// `zeros` '0' characters.
pub open spec fn is_match(v: u64, zeros: usize) -> bool {
    1 <= v && has_zero_suffix(digest_of(v), zeros as int)
}

/// Whether `p` is a match together with its digest.
pub open spec fn is_match_pair(p: (u64, String), zeros: usize) -> bool {
    is_match(p.0, zeros) && p.1@ == digest_of(p.0)
}

/// Whether candidate `v` appears in `r`.
pub open spec fn has_candidate(r: Seq<(u64, String)>, v: u64) -> bool {
    exists|i: int| 0 <= i < r.len() && r[i].0 == v
}

/// Whether no candidate appears twice in `r`.
pub open spec fn distinct_candidates(r: Seq<(u64, String)>) -> bool {
    forall|i: int, j: int| 0 <= i < r.len() && 0 <= j < r.len() && i != j ==> r[i].0 != r[j].0
}

/// The shared state of one search: the found counter and the result set,
/// bounded by the target count.
pub struct SearchState {
    found: usize,
    max_results: usize,
    results: Vec<(u64, String)>,
}

impl SearchState {
    /// Matches seen so far, recorded or not.
    pub closed spec fn found(&self) -> nat {
        self.found as nat
    }

    /// The target count.
    pub closed spec fn max_results(&self) -> nat {
        self.max_results as nat
    }

    /// The recorded matches, in the order they were recorded.
    pub closed spec fn results(&self) -> Seq<(u64, String)> {
        self.results@
    }

    /// The result set holds one entry per match seen, up to the target count.
    pub closed spec fn wf(&self) -> bool {
        self.results@.len() == if self.found <= self.max_results {
            self.found as nat
        } else {
            self.max_results as nat
        }
    }

    /// An empty search state for `max_results` matches.
    pub fn new(max_results: usize) -> (s: Self)
        ensures
            s.wf(),
            s.found() == 0,
            s.max_results() == max_results,
            s.results() == Seq::<(u64, String)>::empty(),
    {
        SearchState { found: 0, max_results, results: Vec::new() }
    }

    /// Whether the target count has been reached, so that no more candidates
    /// should be claimed.
    pub fn target_reached(&self) -> (r: bool)
        ensures
            r == (self.found() >= self.max_results()),
    {
        self.found >= self.max_results
    }

    /// Records one match. Its slot is the counter's value before the
    /// increment: a slot below the target appends the pair, a later one is
    /// dropped. Returns whether this match filled the last slot or a later one.
    pub fn record(&mut self, num: u64, hash: String) -> (stop: bool)
        requires
            old(self).wf(),
            old(self).found() < usize::MAX,
        ensures
            final(self).wf(),
            final(self).found() == old(self).found() + 1,
            final(self).max_results() == old(self).max_results(),
            final(self).results() == if old(self).found() < old(self).max_results() {
                old(self).results().push((num, hash))
            } else {
                old(self).results()
            },
            stop == (old(self).found() + 1 >= old(self).max_results()),
    {
        let slot = self.found;
        self.found = self.found + 1;
        if slot < self.max_results {
            self.results.push((num, hash));
        }
        slot + 1 >= self.max_results
    }

    /// The recorded matches.
    pub fn into_results(self) -> (r: Vec<(u64, String)>)
        ensures
            r@ == self.results(),
    {
        self.results
    }
}

/// Relies on rayon's `par_iter().map(..).collect_into_vec(..)` over a slice:
/// one result per item, stored at that item's position. Each item is hashed
/// by [`compute_hash`] on rayon's thread pool.
#[verifier::external_body]
fn hash_all(candidates: &[u64]) -> (r: Vec<String>)
    ensures
        r@.len() == candidates@.len(),
        forall|i: int| 0 <= i < r@.len() ==> #[trigger] r@[i]@ == digest_of(candidates@[i]),
{
    let mut out = Vec::new();
    candidates.par_iter().map(|&n| compute_hash(n)).collect_into_vec(&mut out);
    out
}

/// The `count` candidates `start, start + 1, ...`.
fn candidate_range(start: u64, count: u64) -> (r: Vec<u64>)
    requires
        start + count <= u64::MAX + 1,
    ensures
        r@.len() == count,
        forall|i: int| 0 <= i < r@.len() ==> #[trigger] r@[i] == start + i,
{
    let mut r: Vec<u64> = Vec::new();
    let mut i: u64 = 0;
    while i < count
        invariant
            start + count <= u64::MAX + 1,
            i <= count,
            r@.len() == i,
            forall|k: int| 0 <= k < r@.len() ==> #[trigger] r@[k] == start + k,
        decreases count - i,
    {
        r.push(start + i);
        i = i + 1;
    }
    r
}

/// Searches the positive integers for ones whose digest ends in `zeros` '0'
/// characters, and returns up to `max_results` of them with their digests.
///
/// Candidates are claimed in ascending rounds; each round is hashed in
/// parallel. Every match is returned with its digest and no candidate twice.
/// Fewer than `max_results` pairs come back only once every candidate up to
/// `u64::MAX` has been tried, and then every match is among them. Which
/// matches are returned, and in what order, is otherwise left open. With
/// `max_results == 0` the result is empty at once; with `zeros == 0` nothing
/// matches.
pub fn find_hashes(zeros: usize, max_results: usize) -> (r: Vec<(u64, String)>)
    ensures
        r@.len() <= max_results,
        forall|i: int| 0 <= i < r@.len() ==> #[trigger] is_match_pair(r@[i], zeros),
        distinct_candidates(r@),
        r@.len() == max_results || forall|v: u64| #[trigger]
            is_match(v, zeros) ==> has_candidate(r@, v),
{
    let mut state = SearchState::new(max_results);
    let mut next: u64 = 1;
    let mut exhausted = false;
    while !exhausted && !state.target_reached()
        invariant
            state.wf(),
            state.max_results() == max_results,
            state.found() <= max_results,
            1 <= next,
            forall|i: int|
                0 <= i < state.results().len() ==> #[trigger] is_match_pair(
                    state.results()[i],
                    zeros,
                ),
            !exhausted ==> forall|i: int|
                0 <= i < state.results().len() ==> #[trigger] state.results()[i].0 < next,
            distinct_candidates(state.results()),
            !exhausted && state.found() < max_results ==> forall|v: u64|
                #![trigger is_match(v, zeros)]
                v < next && is_match(v, zeros) ==> has_candidate(state.results(), v),
            exhausted && state.found() < max_results ==> forall|v: u64|
                #![trigger is_match(v, zeros)]
                is_match(v, zeros) ==> has_candidate(state.results(), v),
        decreases (if exhausted { 0 } else { u64::MAX - next + 1 }),
    {
        let last_round = u64::MAX - next < ROUND_SIZE;
        let count: u64 = if last_round { u64::MAX - next + 1 } else { ROUND_SIZE };
        let candidates = candidate_range(next, count);
        let digests = hash_all(candidates.as_slice());
        let mut j: usize = 0;
        while j < candidates.len() && !state.target_reached()
            invariant
                state.wf(),
                state.max_results() == max_results,
                state.found() <= max_results,
                1 <= next,
                candidates@.len() == count,
                next + count <= u64::MAX + 1,
                digests@.len() == candidates@.len(),
                j <= candidates@.len(),
                forall|i: int| 0 <= i < candidates@.len() ==> #[trigger] candidates@[i] == next + i,
                forall|i: int|
                    0 <= i < digests@.len() ==> #[trigger] digests@[i]@ == digest_of(
                        candidates@[i],
                    ),
                forall|i: int|
                    0 <= i < state.results().len() ==> #[trigger] is_match_pair(
                        state.results()[i],
                        zeros,
                    ),
                forall|i: int|
                    0 <= i < state.results().len() ==> #[trigger] state.results()[i].0 < next + j,
                distinct_candidates(state.results()),
                state.found() < max_results ==> forall|v: u64|
                    #![trigger is_match(v, zeros)]
                    v < next + j && is_match(v, zeros) ==> has_candidate(state.results(), v),
            decreases candidates@.len() - j,
        {
            let num = candidates[j];
            let hash = &digests[j];
            assert(hash@ == digest_of(num));
            if hash_ends_with_zeros(hash.as_str(), zeros) {
                let ghost before = state.results();
                let copy = hash.clone();
                state.record(num, copy);
                proof {
                    let after = state.results();
                    assert(after == before.push((num, copy)));
                    assert(is_match_pair((num, copy), zeros));
                    assert forall|i: int| 0 <= i < before.len() implies after[i] == before[i] by {}
                    assert forall|i: int| 0 <= i < after.len() implies #[trigger] after[i].0 < next + j + 1 by {
                        if i < before.len() {
                            assert(before[i].0 < next + j);
                        }
                    }
                    assert forall|v: u64| #![trigger is_match(v, zeros)]
                        v < next + j + 1 && is_match(v, zeros) && state.found() < max_results
                        implies has_candidate(after, v) by {
                        if v < next + j {
                            let k = choose|k: int| 0 <= k < before.len() && before[k].0 == v;
                            assert(after[k].0 == v);
                        } else {
                            assert(after[before.len() as int].0 == v);
                        }
                    }
                    assert forall|a: int, b: int| 0 <= a < after.len() && 0 <= b < after.len() && a != b
                        implies after[a].0 != after[b].0 by {
                        if a < before.len() && b < before.len() {
                            assert(before[a].0 != before[b].0);
                        } else if a < before.len() {
                            assert(before[a].0 < next + j);
                        } else if b < before.len() {
                            assert(before[b].0 < next + j);
                        }
                    }
                }
            } else {
                assert(!is_match(num, zeros));
            }
            j = j + 1;
        }
        if last_round {
            proof {
                if state.found() < max_results {
                    assert(j == count);
                    let results = state.results();
                    assert forall|v: u64| #![trigger is_match(v, zeros)]
                        is_match(v, zeros) implies has_candidate(results, v) by {
                        assert(v < next + j);
                    }
                }
            }
            exhausted = true;
        } else {
            next = next + count;
            proof {
                if state.found() < max_results {
                    assert(j == count);
                }
            }
        }
    }
    state.into_results()
}

} // verus!
