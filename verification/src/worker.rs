//! One worker of a search round: it hashes its nonces one after another and
//! keeps the best result it has seen.

use crate::bytes::{le_bytes, to_le};
use crate::partition::{lemma_starting_nonce_in_range, starting_nonce, starting_nonce_spec};
use drillx::equix::SolverMemory;
use std::time::{Duration, Instant};
use vstd::prelude::*;
use vstd::std_specs::bits::u8_leading_zeros;

verus! {

/// The solver's scratch memory, `equix::SolverMemory`, as `drillx` hands it
/// on. Nothing is known of what it holds.
#[verifier::external_type_specification]
#[verifier::external_body]
pub struct ExSolverMemory(drillx::equix::SolverMemory);

/// `std::time::Instant`: a reading of the monotonic clock.
#[verifier::external_type_specification]
#[verifier::external_body]
pub struct ExInstant(std::time::Instant);

/// `equix::SolverMemory::new` allocates fresh scratch memory.
pub assume_specification[ drillx::equix::SolverMemory::new ]() -> SolverMemory
;

/// `Instant::elapsed`: the time since the reading was taken. It depends on
/// the clock, so nothing is promised of it.
pub assume_specification[ std::time::Instant::elapsed ](timer: &Instant) -> Duration
;

/// `Duration::as_secs`: the whole seconds of a duration.
pub assume_specification[ std::time::Duration::as_secs ](duration: &Duration) -> u64
;

/// What `drillx::hash_with_memory` makes of a challenge and a nonce: the
/// digest and the hash, or nothing where the solver finds no solution.
pub uninterp spec fn drillx_hash(challenge: Seq<u8>, nonce: Seq<u8>) -> Option<(Seq<u8>, Seq<u8>)>;

/// The number of zero bits before the first one bit of a byte string.
pub open spec fn leading_zero_bits(bytes: Seq<u8>) -> nat
    decreases bytes.len(),
{
    if bytes.len() == 0 {
        0
    } else if bytes[0] == 0 {
        8 + leading_zero_bits(bytes.drop_first())
    } else {
        u8_leading_zeros(bytes[0]) as nat
    }
}

/// The difficulty of a hash: the zero bits at its front.
pub open spec fn score(hash: Seq<u8>) -> u32 {
    leading_zero_bits(hash) as u32
}

/// The result of one hash: the digest that proves the work and the hash that
/// scores it.
#[derive(Clone, Copy, Debug, PartialEq, Eq)]
pub struct HashOutput {
    pub d: [u8; 16],
    pub h: [u8; 32],
}

/// Calls `drillx::hash_with_memory`, which solves the puzzle seeded by the
/// challenge and the nonce and hashes the first solution together with the
/// nonce. The result is a function of the challenge and the nonce; the memory
/// is scratch space.
#[verifier::external_body]
fn hash_with_memory(memory: &mut SolverMemory, challenge: &[u8; 32], nonce: &[u8; 8]) -> (hash:
    Option<HashOutput>)
    ensures
        hash matches Some(found) ==> drillx_hash(challenge@, nonce@) == Some((found.d@, found.h@)),
        hash is None ==> drillx_hash(challenge@, nonce@) is None,
{
    match drillx::hash_with_memory(memory, challenge, nonce) {
        Ok(found) => Some(HashOutput { d: found.d, h: found.h }),
        Err(_) => None,
    }
}

/// Calls `drillx::difficulty`, which counts the zero bits at the front of
/// the 32 bytes.
#[verifier::external_body]
fn difficulty_of(hash: [u8; 32]) -> (difficulty: u32)
    ensures
        difficulty == leading_zero_bits(hash@),
{
    drillx::difficulty(hash)
}

impl HashOutput {
    /// The all-zero value that stands for "no hash yet".
    pub fn empty() -> (hash: HashOutput)
        ensures
            hash.d@ == Seq::new(16, |i: int| 0u8),
            hash.h@ == Seq::new(32, |i: int| 0u8),
    {
        HashOutput { d: [0u8; 16], h: [0u8; 32] }
    }

    /// The difficulty of this hash: the zero bits at its front.
    pub fn difficulty(&self) -> (difficulty: u32)
        ensures
            difficulty == leading_zero_bits(self.h@),
            difficulty == score(self.h@),
            difficulty <= 256,
    {
        proof {
            lemma_leading_zero_bits_bound(self.h@);
        }
        difficulty_of(self.h)
    }
}

/// A candidate as plain values: the nonce, its score, and the two byte
/// strings of its hash.
pub struct CandidateView {
    pub nonce: u64,
    pub difficulty: u32,
    pub digest: Seq<u8>,
    pub hash: Seq<u8>,
}

/// The best result a worker has found so far.
#[derive(Clone, Copy, Debug, PartialEq, Eq)]
pub struct Candidate {
    pub nonce: u64,
    pub difficulty: u32,
    pub hash: HashOutput,
}

impl View for Candidate {
    type V = CandidateView;

    open spec fn view(&self) -> CandidateView {
        CandidateView {
            nonce: self.nonce,
            difficulty: self.difficulty,
            digest: self.hash.d@,
            hash: self.hash.h@,
        }
    }
}

/// What a worker holds before any hash has succeeded: its first nonce, with
/// difficulty zero and an all-zero hash.
pub open spec fn degenerate(seed: u64) -> CandidateView {
    CandidateView {
        nonce: seed,
        difficulty: 0,
        digest: Seq::new(16, |i: int| 0u8),
        hash: Seq::new(32, |i: int| 0u8),
    }
}

/// The best candidate once `nonce` has been tried with `outcome`: the new
/// hash replaces the old best only if it scores strictly higher, and a failed
/// hash changes nothing.
pub open spec fn improved(
    best: CandidateView,
    nonce: u64,
    outcome: Option<(Seq<u8>, Seq<u8>)>,
) -> CandidateView {
    match outcome {
        Some((digest, hash)) => if score(hash) > best.difficulty {
            CandidateView { nonce, difficulty: score(hash), digest, hash }
        } else {
            best
        },
        None => best,
    }
}

/// The nonce that a worker tries as its `step`-th, counting from zero.
pub open spec fn nonce_at(seed: u64, step: nat) -> u64 {
    (seed + step) as u64
}

/// What hashing the `step`-th nonce of a worker gives.
pub open spec fn outcome_at(challenge: Seq<u8>, seed: u64, step: nat) -> Option<
    (Seq<u8>, Seq<u8>),
> {
    drillx_hash(challenge, le_bytes(nonce_at(seed, step) as nat, 8))
}

/// The difficulty that the `step`-th nonce of a worker reaches: that of its
/// hash, or zero where hashing it fails.
pub open spec fn score_at(challenge: Seq<u8>, seed: u64, step: nat) -> u32 {
    match outcome_at(challenge, seed, step) {
        Some((digest, hash)) => score(hash),
        None => 0,
    }
}

/// The best candidate of a worker that started at `seed` and has tried its
/// first `tried` nonces.
pub open spec fn best_after(challenge: Seq<u8>, seed: u64, tried: nat) -> CandidateView
    decreases tried,
{
    if tried == 0 {
        degenerate(seed)
    } else {
        improved(
            best_after(challenge, seed, (tried - 1) as nat),
            nonce_at(seed, (tried - 1) as nat),
            outcome_at(challenge, seed, (tried - 1) as nat),
        )
    }
}

/// The best candidate of a worker that started at `seed` once it has tried
/// every nonce up to and including `nonce`.
pub open spec fn best_through(challenge: Seq<u8>, seed: u64, nonce: u64) -> CandidateView
    recommends
        seed <= nonce,
{
    best_after(challenge, seed, (nonce - seed + 1) as nat)
}

/// `best` is what the `step`-th nonce gave, and no earlier nonce reached its
/// difficulty.
pub open spec fn found_first_at(
    challenge: Seq<u8>,
    seed: u64,
    best: CandidateView,
    step: nat,
) -> bool {
    &&& best.nonce == nonce_at(seed, step)
    &&& outcome_at(challenge, seed, step) == Some((best.digest, best.hash))
    &&& best.difficulty == score(best.hash)
    &&& forall|earlier: nat|
        earlier < step ==> #[trigger] score_at(challenge, seed, earlier) < best.difficulty
}

/// As a worker tries more nonces, the difficulty of its best never goes
/// down.
pub proof fn lemma_best_difficulty_never_drops(
    challenge: Seq<u8>,
    seed: u64,
    fewer: nat,
    more: nat,
)
    requires
        fewer <= more,
    ensures
        best_after(challenge, seed, fewer).difficulty <= best_after(
            challenge,
            seed,
            more,
        ).difficulty,
    decreases more,
{
    if fewer < more {
        lemma_best_difficulty_never_drops(challenge, seed, fewer, (more - 1) as nat);
    }
}

/// The best of a worker has the highest difficulty of all nonces tried, and
/// comes from the first nonce that reached it. A worker that has seen no
/// difficulty above zero still holds the degenerate candidate.
pub proof fn lemma_best_is_first_maximum(challenge: Seq<u8>, seed: u64, tried: nat)
    ensures
        forall|step: nat|
            step < tried ==> #[trigger] score_at(challenge, seed, step) <= best_after(
                challenge,
                seed,
                tried,
            ).difficulty,
        best_after(challenge, seed, tried).difficulty == 0 ==> best_after(challenge, seed, tried)
            == degenerate(seed),
        best_after(challenge, seed, tried).difficulty > 0 ==> exists|step: nat|
            step < tried && #[trigger] found_first_at(
                challenge,
                seed,
                best_after(challenge, seed, tried),
                step,
            ),
    decreases tried,
{
    if tried > 0 {
        let last = (tried - 1) as nat;
        let before = best_after(challenge, seed, last);
        let best = best_after(challenge, seed, tried);
        lemma_best_is_first_maximum(challenge, seed, last);
        assert forall|step: nat| step < tried implies #[trigger] score_at(challenge, seed, step)
            <= best.difficulty by {
            if step < last {
                assert(score_at(challenge, seed, step) <= before.difficulty);
            }
        }
        if best.difficulty > 0 {
            if best == before {
                let step = choose|step: nat|
                    step < last && #[trigger] found_first_at(challenge, seed, before, step);
                assert(step < tried && found_first_at(challenge, seed, best, step));
            } else {
                assert forall|earlier: nat| earlier < last implies #[trigger] score_at(
                    challenge,
                    seed,
                    earlier,
                ) < best.difficulty by {
                    assert(score_at(challenge, seed, earlier) <= before.difficulty);
                }
                assert(found_first_at(challenge, seed, best, last));
            }
        }
    }
}

/// A byte string has no more zero bits at its front than it has bits.
pub proof fn lemma_leading_zero_bits_bound(bytes: Seq<u8>)
    ensures
        leading_zero_bits(bytes) <= 8 * bytes.len(),
    decreases bytes.len(),
{
    if bytes.len() > 0 {
        if bytes[0] == 0 {
            lemma_leading_zero_bits_bound(bytes.drop_first());
        } else {
            vstd::std_specs::bits::axiom_u8_leading_zeros(bytes[0]);
        }
    }
}

impl Candidate {
    /// The candidate of a worker that has not seen a hash succeed.
    pub fn degenerate(seed: u64) -> (candidate: Candidate)
        ensures
            candidate@ == degenerate(seed),
    {
        Candidate { nonce: seed, difficulty: 0, hash: HashOutput::empty() }
    }

    /// Takes in the outcome of hashing `nonce`.
    pub fn improved(self, nonce: u64, outcome: Option<HashOutput>) -> (next: Candidate)
        ensures
            next@ == improved(
                self@,
                nonce,
                match outcome {
                    Some(found) => Some((found.d@, found.h@)),
                    None => None,
                },
            ),
    {
        match outcome {
            Some(found) => {
                let difficulty = found.difficulty();
                if difficulty > self.difficulty {
                    Candidate { nonce, difficulty, hash: found }
                } else {
                    self
                }
            },
            None => self,
        }
    }
}

/// What a worker does at a checkpoint.
#[derive(Clone, Copy, Debug, PartialEq, Eq)]
pub enum Decision {
    /// Go on with the next nonce.
    Continue,
    /// Go on, and tell the user how many seconds are left.
    Report { remaining: u64 },
    /// End the search.
    Stop,
}

/// Nonces between two checkpoints: the clock is read at every nonce that is a
/// multiple of this.
pub const CHECKPOINT_INTERVAL: u64 = 100;

/// The rule of a checkpoint. Before the cutoff the search goes on, and worker
/// zero reports the time that is left. From the cutoff on the search ends as
/// soon as the best difficulty is above the floor, and goes on until then.
pub open spec fn decide(
    index: u64,
    elapsed: u64,
    cutoff: u64,
    best_difficulty: u32,
    min_difficulty: u32,
) -> Decision {
    if elapsed >= cutoff {
        if best_difficulty > min_difficulty {
            Decision::Stop
        } else {
            Decision::Continue
        }
    } else if index == 0 {
        Decision::Report { remaining: (cutoff - elapsed) as u64 }
    } else {
        Decision::Continue
    }
}

/// Applies the rule of a checkpoint to a reading of the clock.
pub fn checkpoint_decision(
    index: u64,
    elapsed: u64,
    cutoff: u64,
    best_difficulty: u32,
    min_difficulty: u32,
) -> (decision: Decision)
    ensures
        decision == decide(index, elapsed, cutoff, best_difficulty, min_difficulty),
{
    if elapsed >= cutoff {
        if best_difficulty > min_difficulty {
            Decision::Stop
        } else {
            Decision::Continue
        }
    } else if index == 0 {
        Decision::Report { remaining: cutoff - elapsed }
    } else {
        Decision::Continue
    }
}

/// What a worker hands back: its best candidate and the number of nonces it
/// has hashed, failed hashes included.
#[derive(Clone, Copy, Debug, PartialEq, Eq)]
pub struct WorkerResult {
    pub best: Candidate,
    pub hash_count: u64,
}

/// Why `WorkerUnit::advance` came back.
#[derive(Clone, Copy, Debug, PartialEq, Eq)]
pub enum Signal {
    /// The cutoff is still ahead; worker zero passes on the seconds left.
    Progress { remaining: u64 },
    /// The search ended at a checkpoint with a best above the floor.
    Done,
    /// The last nonce there is has been tried.
    Exhausted,
}

/// A worker as plain values.
pub struct WorkerView {
    pub index: u64,
    pub challenge: Seq<u8>,
    pub cutoff: u64,
    pub min_difficulty: u32,
    pub seed: u64,
    pub nonce: u64,
    pub best: CandidateView,
    pub finished: bool,
}

impl WorkerView {
    /// The number of nonces that have been hashed. A finished worker stands
    /// on the last nonce it hashed; a running one on the next to hash.
    pub open spec fn tried(self) -> nat {
        if self.finished {
            (self.nonce - self.seed + 1) as nat
        } else {
            (self.nonce - self.seed) as nat
        }
    }

    /// The number of nonces that have been hashed, as a worker reports it:
    /// held at the largest count where a search from nonce zero has gone
    /// through the whole nonce space.
    pub open spec fn hash_count(self) -> int {
        if self.tried() > u64::MAX {
            u64::MAX as int
        } else {
            self.tried() as int
        }
    }

    /// The worker stands at or past its seed, and its best candidate is the
    /// best of the nonces it has hashed. If its search has ended, it stands
    /// on a checkpoint with its best above the floor, or on the last nonce.
    pub open spec fn wf(self) -> bool {
        &&& self.challenge.len() == 32
        &&& self.seed <= self.nonce
        &&& self.best == best_after(self.challenge, self.seed, self.tried())
        &&& self.finished ==> self.nonce == u64::MAX || (self.nonce % CHECKPOINT_INTERVAL == 0
            && self.best.difficulty > self.min_difficulty)
    }

    /// The two stand in the same round as the same worker.
    pub open spec fn same_round(self, other: WorkerView) -> bool {
        &&& self.index == other.index
        &&& self.challenge == other.challenge
        &&& self.cutoff == other.cutoff
        &&& self.min_difficulty == other.min_difficulty
        &&& self.seed == other.seed
    }

    /// A worker that has not hashed anything yet.
    pub open spec fn fresh(
        index: u64,
        challenge: Seq<u8>,
        cutoff: u64,
        depth: u64,
        min_difficulty: u32,
    ) -> WorkerView {
        let seed = starting_nonce_spec(depth, index) as u64;
        WorkerView {
            index,
            challenge,
            cutoff,
            min_difficulty,
            seed,
            nonce: seed,
            best: degenerate(seed),
            finished: false,
        }
    }
}

/// What a worker knows of its search. It is well formed at all times:
/// whatever it holds as its best is the best of the nonces it has hashed.
#[derive(Clone, Copy)]
struct SearchState {
    index: u64,
    challenge: [u8; 32],
    cutoff: u64,
    min_difficulty: u32,
    seed: u64,
    nonce: u64,
    best: Candidate,
    finished: bool,
}

impl View for SearchState {
    type V = WorkerView;

    closed spec fn view(&self) -> WorkerView {
        WorkerView {
            index: self.index,
            challenge: self.challenge@,
            cutoff: self.cutoff,
            min_difficulty: self.min_difficulty,
            seed: self.seed,
            nonce: self.nonce,
            best: self.best@,
            finished: self.finished,
        }
    }
}

impl SearchState {
    #[verifier::type_invariant]
    spec fn well_formed(self) -> bool {
        self@.wf()
    }
}

/// One worker of a round. It owns its slice of the nonce space, its best
/// candidate and the solver's scratch memory, and shares none of them.
pub struct WorkerUnit {
    state: SearchState,
    memory: SolverMemory,
}

impl View for WorkerUnit {
    type V = WorkerView;

    closed spec fn view(&self) -> WorkerView {
        self.state@
    }
}

impl WorkerUnit {
    /// Worker `index` of a round on `challenge`, at its starting nonce.
    pub fn new(index: u64, challenge: [u8; 32], cutoff: u64, depth: u64, min_difficulty: u32) -> (unit:
        WorkerUnit)
        requires
            depth > 0,
        ensures
            unit@ == WorkerView::fresh(index, challenge@, cutoff, depth, min_difficulty),
            unit@.wf(),
    {
        let seed = starting_nonce(depth, index);
        WorkerUnit {
            state: SearchState {
                index,
                challenge,
                cutoff,
                min_difficulty,
                seed,
                nonce: seed,
                best: Candidate::degenerate(seed),
                finished: false,
            },
            memory: SolverMemory::new(),
        }
    }

    pub fn index(&self) -> (index: u64)
        ensures
            index == self@.index,
    {
        self.state.index
    }

    pub fn seed(&self) -> (seed: u64)
        ensures
            seed == self@.seed,
    {
        self.state.seed
    }

    pub fn nonce(&self) -> (nonce: u64)
        ensures
            nonce == self@.nonce,
    {
        self.state.nonce
    }

    pub fn best(&self) -> (best: Candidate)
        ensures
            best@ == self@.best,
    {
        self.state.best
    }

    pub fn is_finished(&self) -> (finished: bool)
        ensures
            finished == self@.finished,
    {
        self.state.finished
    }

    /// The best candidate so far and the number of nonces hashed so far.
    pub fn result(&self) -> (result: WorkerResult)
        ensures
            self@.wf(),
            result.best@ == self@.best,
            result.hash_count == self@.hash_count(),
    {
        proof {
            use_type_invariant(&self.state);
        }
        let passed: u64 = self.state.nonce - self.state.seed;
        let hash_count: u64 = if self.state.finished {
            passed.saturating_add(1)
        } else {
            passed
        };
        WorkerResult { best: self.state.best, hash_count }
    }

    /// Hashes nonce after nonce, reading the clock at every checkpoint, until
    /// there is something to tell: progress, the end of the search, or the
    /// end of the nonce space. After `Progress` the search is resumed by
    /// calling again. A worker whose search has ended stays as it is and
    /// says once more how it ended.
    ///
    /// When the search ends depends on the clock. With a cutoff of zero it
    /// does not: the search then ends at the first checkpoint at which the
    /// best difficulty is above the floor.
    pub fn advance(&mut self, timer: &Instant) -> (signal: Signal)
        ensures
            final(self)@.wf(),
            final(self)@.same_round(old(self)@),
            old(self)@.nonce <= final(self)@.nonce,
            old(self)@.finished ==> final(self)@ == old(self)@,
            match signal {
                Signal::Progress { remaining } => {
                    &&& !old(self)@.finished
                    &&& !final(self)@.finished
                    &&& final(self)@.index == 0
                    &&& old(self)@.nonce < final(self)@.nonce
                    &&& (final(self)@.nonce - 1) % (CHECKPOINT_INTERVAL as int) == 0
                    &&& 0 < remaining <= final(self)@.cutoff
                },
                Signal::Done => {
                    &&& final(self)@.finished
                    &&& final(self)@.nonce % CHECKPOINT_INTERVAL == 0
                    &&& final(self)@.best.difficulty > final(self)@.min_difficulty
                },
                Signal::Exhausted => {
                    &&& final(self)@.finished
                    &&& final(self)@.nonce == u64::MAX
                },
            },
            final(self)@.cutoff == 0 ==> forall|passed: u64|
                old(self)@.nonce <= passed < final(self)@.nonce && passed % CHECKPOINT_INTERVAL
                    == 0 ==> (#[trigger] best_through(
                    final(self)@.challenge,
                    final(self)@.seed,
                    passed,
                )).difficulty <= final(self)@.min_difficulty,
    {
        let start = self.state;
        proof {
            use_type_invariant(&start);
        }
        if start.finished {
            return if start.nonce == u64::MAX {
                Signal::Exhausted
            } else {
                Signal::Done
            };
        }
        let mut nonce: u64 = start.nonce;
        let mut best: Candidate = start.best;
        loop
            invariant
                start == old(self).state,
                start@.wf(),
                !start.finished,
                self.state == start,
                start.nonce <= nonce,
                best@ == best_after(start.challenge@, start.seed, (nonce - start.seed) as nat),
                start.cutoff == 0 ==> forall|passed: u64|
                    start.nonce <= passed < nonce && passed % CHECKPOINT_INTERVAL == 0 ==> (
                    #[trigger] best_through(start.challenge@, start.seed, passed)).difficulty
                        <= start.min_difficulty,
            decreases u64::MAX - nonce,
        {
            let nonce_bytes: [u8; 8] = to_le::<8>(nonce);
            let outcome = hash_with_memory(&mut self.memory, &start.challenge, &nonce_bytes);
            best = best.improved(nonce, outcome);
            assert(best@ == best_through(start.challenge@, start.seed, nonce));
            if nonce % CHECKPOINT_INTERVAL == 0 {
                let elapsed = timer.elapsed().as_secs();
                match checkpoint_decision(
                    start.index,
                    elapsed,
                    start.cutoff,
                    best.difficulty,
                    start.min_difficulty,
                ) {
                    Decision::Stop => {
                        self.state = SearchState { nonce, best, finished: true, ..start };
                        return Signal::Done;
                    },
                    Decision::Report { remaining } => {
                        self.state = SearchState {
                            nonce: nonce + 1,
                            best,
                            finished: false,
                            ..start
                        };
                        return Signal::Progress { remaining };
                    },
                    Decision::Continue => {},
                }
            }
            if nonce == u64::MAX {
                self.state = SearchState { nonce, best, finished: true, ..start };
                return Signal::Exhausted;
            }
            nonce = nonce + 1;
        }
    }
}

/// The number of nonces from `first` to `last`, both counted, held at the
/// largest count where the two span the whole nonce space.
pub open spec fn nonces_between(first: u64, last: u64) -> int
    recommends
        first <= last,
{
    if last - first + 1 > u64::MAX {
        u64::MAX as int
    } else {
        last - first + 1
    }
}

/// The nonce on which a search ended that began at `seed` and hashed
/// `hash_count` nonces. A search from nonce zero with the largest count has
/// gone through the whole nonce space: no search ends one nonce short of it.
pub open spec fn last_nonce(seed: u64, hash_count: u64) -> int
    recommends
        hash_count >= 1,
{
    if seed == 0 && hash_count == u64::MAX {
        u64::MAX as int
    } else {
        seed + hash_count - 1
    }
}

/// The whole search of worker `index` in a round on `challenge`: from its
/// starting nonce, nonce by nonce, to the checkpoint at which it may stop or
/// to the end of the nonce space. Each time the worker has progress to tell,
/// `report` is called with the seconds that are left.
///
/// The result holds the best of all nonces from the first to the one the
/// search ended on, and counts those nonces.
pub fn search<F: Fn(u64)>(
    index: u64,
    challenge: [u8; 32],
    cutoff: u64,
    depth: u64,
    min_difficulty: u32,
    timer: &Instant,
    report: F,
) -> (result: WorkerResult)
    requires
        depth > 0,
        forall|remaining: u64| #[trigger] report.requires((remaining,)),
    ensures
        ({
            let seed = starting_nonce_spec(depth, index);
            let last = last_nonce(seed as u64, result.hash_count);
            &&& result.hash_count >= 1
            &&& seed <= last <= u64::MAX
            &&& result.hash_count == nonces_between(seed as u64, last as u64)
            &&& result.best@ == best_through(challenge@, seed as u64, last as u64)
            &&& last < u64::MAX ==> last % (CHECKPOINT_INTERVAL as int) == 0
                && result.best.difficulty > min_difficulty
            &&& cutoff == 0 ==> forall|passed: u64|
                seed <= passed < last && passed % CHECKPOINT_INTERVAL == 0 ==> (
                #[trigger] best_through(challenge@, seed as u64, passed)).difficulty
                    <= min_difficulty
        }),
{
    let mut unit = WorkerUnit::new(index, challenge, cutoff, depth, min_difficulty);
    let ghost fresh = unit@;
    proof {
        lemma_starting_nonce_in_range(depth, index);
    }
    loop
        invariant
            depth > 0,
            unit@.wf(),
            !unit@.finished,
            unit@.same_round(fresh),
            fresh == WorkerView::fresh(index, challenge@, cutoff, depth, min_difficulty),
            fresh.seed == starting_nonce_spec(depth, index),
            cutoff == 0 ==> unit@.nonce == fresh.seed,
            forall|remaining: u64| #[trigger] report.requires((remaining,)),
        decreases u64::MAX - unit@.nonce,
    {
        match unit.advance(timer) {
            Signal::Progress { remaining } => {
                report(remaining);
            },
            Signal::Done => {
                return unit.result();
            },
            Signal::Exhausted => {
                return unit.result();
            },
        }
    }
}

} // verus!
