//! Reducing the results of the workers of one round to a single best.

use crate::bytes::{le_bytes, to_le};
use crate::worker::{degenerate, Candidate, WorkerResult};
use vstd::prelude::*;

verus! {

/// The best candidate of a round and the hashes all workers tried together.
#[derive(Clone, Copy, Debug, PartialEq, Eq)]
pub struct GlobalBest {
    pub best: Candidate,
    pub total_hashes: u64,
}

/// A digest with the nonce that produced it, as the ledger checks it.
#[derive(Clone, Copy, Debug, PartialEq, Eq)]
pub struct Solution {
    pub d: [u8; 16],
    pub n: [u8; 8],
}

/// The sum of the hash counts of all results.
pub open spec fn total_hashes(results: Seq<WorkerResult>) -> nat
    decreases results.len(),
{
    if results.len() == 0 {
        0
    } else {
        total_hashes(results.drop_last()) + results.last().hash_count as nat
    }
}

/// The sum of the hash counts of all results, held at the largest count
/// there is when it no longer fits.
pub open spec fn total_hashes_held(results: Seq<WorkerResult>) -> int {
    if total_hashes(results) > u64::MAX {
        u64::MAX as int
    } else {
        total_hashes(results) as int
    }
}

/// Entry `k` has the highest difficulty of all, and is the first that has it.
pub open spec fn is_first_best(results: Seq<WorkerResult>, k: int) -> bool {
    &&& 0 <= k < results.len()
    &&& forall|j: int|
        0 <= j < results.len() ==> (#[trigger] results[j]).best.difficulty
            <= results[k].best.difficulty
    &&& forall|j: int|
        0 <= j < k ==> (#[trigger] results[j]).best.difficulty < results[k].best.difficulty
}

/// The index of the first entry with the highest difficulty, found by going
/// through the entries in worker order and moving on only to a strictly
/// higher one.
pub open spec fn first_best_index(results: Seq<WorkerResult>) -> int
    decreases results.len(),
{
    if results.len() <= 1 {
        0
    } else {
        let k = first_best_index(results.drop_last());
        if results.last().best.difficulty > results[k].best.difficulty {
            results.len() - 1
        } else {
            k
        }
    }
}

/// `first_best_index` names the first entry with the highest difficulty.
pub proof fn lemma_first_best_index(results: Seq<WorkerResult>)
    requires
        results.len() > 0,
    ensures
        is_first_best(results, first_best_index(results)),
    decreases results.len(),
{
    if results.len() > 1 {
        let front = results.drop_last();
        let k = first_best_index(front);
        let chosen = first_best_index(results);
        lemma_first_best_index(front);
        assert forall|j: int| 0 <= j < results.len() implies (#[trigger] results[j]).best.difficulty
            <= results[chosen].best.difficulty by {
            if j < front.len() {
                assert(front[j].best.difficulty <= front[k].best.difficulty);
            }
        }
        assert forall|j: int| 0 <= j < chosen implies (#[trigger] results[j]).best.difficulty
            < results[chosen].best.difficulty by {
            assert(front[j].best.difficulty <= front[k].best.difficulty);
        }
    }
}

/// Only one entry is the first with the highest difficulty.
pub proof fn lemma_first_best_unique(results: Seq<WorkerResult>, a: int, b: int)
    requires
        is_first_best(results, a),
        is_first_best(results, b),
    ensures
        a == b,
{
    if a < b {
        assert(results[a].best.difficulty < results[b].best.difficulty);
        assert(results[b].best.difficulty <= results[a].best.difficulty);
    } else if b < a {
        assert(results[b].best.difficulty < results[a].best.difficulty);
        assert(results[a].best.difficulty <= results[b].best.difficulty);
    }
}

/// Picks the result with the highest difficulty, the earliest worker's among
/// equals, and adds up the hash counts. Without any result the best is the
/// degenerate candidate at nonce zero.
pub fn reduce(results: &Vec<WorkerResult>) -> (global: GlobalBest)
    ensures
        global.total_hashes == total_hashes_held(results@),
        results@.len() == 0 ==> global.best@ == degenerate(0),
        results@.len() > 0 ==> global.best == results@[first_best_index(results@)].best,
        results@.len() > 0 ==> is_first_best(results@, first_best_index(results@)),
        forall|j: int|
            0 <= j < results@.len() ==> (#[trigger] results@[j]).best.difficulty
                <= global.best.difficulty,
{
    if results.len() == 0 {
        return GlobalBest { best: Candidate::degenerate(0), total_hashes: 0 };
    }
    let mut best: Candidate = results[0].best;
    let mut total: u64 = results[0].hash_count;
    let mut at: usize = 1;
    proof {
        assert(results@.take(1).drop_last() =~= Seq::<WorkerResult>::empty());
        assert(total_hashes(Seq::<WorkerResult>::empty()) == 0);
    }
    while at < results.len()
        invariant
            1 <= at <= results.len(),
            total == total_hashes_held(results@.take(at as int)),
            best == results@[first_best_index(results@.take(at as int))].best,
            0 <= first_best_index(results@.take(at as int)) < at,
        decreases results.len() - at,
    {
        let ghost seen = results@.take(at as int);
        let ghost grown = results@.take(at + 1);
        proof {
            assert(grown.drop_last() =~= seen);
            lemma_first_best_index(seen);
        }
        let next = results[at];
        if next.best.difficulty > best.difficulty {
            best = next.best;
        }
        total = total.saturating_add(next.hash_count);
        at += 1;
    }
    proof {
        assert(results@.take(at as int) =~= results@);
        lemma_first_best_index(results@);
    }
    GlobalBest { best, total_hashes: total }
}

/// The seconds a round is taken to have lasted when its hash rate is shown.
pub const NOMINAL_ROUND_SECONDS: u64 = 55;

impl GlobalBest {
    /// Hashes per second over a round of nominal length, rounded down.
    pub fn hashes_per_second(&self) -> (rate: u64)
        ensures
            rate == self.total_hashes / NOMINAL_ROUND_SECONDS,
    {
        self.total_hashes / NOMINAL_ROUND_SECONDS
    }

    /// The best digest with its nonce in little-endian bytes.
    pub fn solution(&self) -> (solution: Solution)
        ensures
            solution.d == self.best.hash.d,
            solution.n@ == le_bytes(self.best.nonce as nat, 8),
    {
        Solution { d: self.best.hash.d, n: to_le::<8>(self.best.nonce) }
    }
}

} // verus!
