//! Polling for a new challenge, and the timing of a round.

use crate::bytes::same_bytes;
use vstd::prelude::*;

verus! {

/// Seconds between two hashes that the ledger expects of a miner.
pub const HASH_INTERVAL_SECONDS: i64 = 60;

/// Seconds taken off the end of an epoch when asking whether it is over.
pub const RESET_BUFFER_SECONDS: i64 = 5;

/// How long the poller waits when the challenge has not changed.
pub const IDLE_SLEEP_MILLIS: u64 = 5000;

/// What the ledger says of the pool: the challenge to work on, the stake, and
/// when the last hash was accepted.
#[derive(Clone, Copy, Debug, PartialEq, Eq)]
pub struct ProofState {
    pub challenge: [u8; 32],
    pub balance: u64,
    pub last_hash_at: i64,
}

/// The program-wide settings on the ledger that a miner reads.
#[derive(Clone, Copy, Debug, PartialEq, Eq)]
pub struct Config {
    pub last_reset_at: i64,
    pub min_difficulty: u64,
}

/// The parameters of one search round.
#[derive(Clone, Copy, Debug, PartialEq, Eq)]
pub struct SearchConfig {
    pub min_difficulty: u32,
    pub worker_count: u64,
    pub depth: u64,
    pub buffer_seconds: u64,
}

impl SearchConfig {
    /// Takes the difficulty floor from the ledger's settings, keeping its low
    /// 32 bits.
    pub fn new(config: &Config, worker_count: u64, depth: u64, buffer_seconds: u64) -> (search:
        SearchConfig)
        ensures
            search.min_difficulty == config.min_difficulty % 0x1_0000_0000,
            search.worker_count == worker_count,
            search.depth == depth,
            search.buffer_seconds == buffer_seconds,
    {
        SearchConfig {
            min_difficulty: (config.min_difficulty % 0x1_0000_0000) as u32,
            worker_count,
            depth,
            buffer_seconds,
        }
    }
}

/// The seconds a round may search before it is allowed to stop:
/// `last_hash_at + 60 - buffer_seconds - now`, never below zero and never
/// above what a `u64` holds.
pub open spec fn cutoff_seconds(last_hash_at: int, buffer_seconds: int, now: int) -> int {
    let remaining = last_hash_at + HASH_INTERVAL_SECONDS - buffer_seconds - now;
    if remaining <= 0 {
        0
    } else if remaining > u64::MAX {
        u64::MAX as int
    } else {
        remaining
    }
}

/// The cutoff of the round that starts at `now`.
pub fn get_cutoff(proof: &ProofState, buffer_time: u64, now: i64) -> (cutoff: u64)
    ensures
        cutoff == cutoff_seconds(proof.last_hash_at as int, buffer_time as int, now as int),
        now > proof.last_hash_at + HASH_INTERVAL_SECONDS - buffer_time ==> cutoff == 0,
{
    let remaining: i128 = proof.last_hash_at as i128 + HASH_INTERVAL_SECONDS as i128
        - buffer_time as i128 - now as i128;
    if remaining <= 0 {
        0
    } else if remaining > u64::MAX as i128 {
        u64::MAX
    } else {
        remaining as u64
    }
}

/// The cutoff is never negative, it is zero once the interval, less the
/// buffer, has passed, and until then it is the time that is left of it,
/// wherever a `u64` holds that.
pub proof fn lemma_cutoff_zero_when_late(last_hash_at: int, buffer_seconds: int, now: int)
    ensures
        cutoff_seconds(last_hash_at, buffer_seconds, now) >= 0,
        now > last_hash_at + HASH_INTERVAL_SECONDS - buffer_seconds ==> cutoff_seconds(
            last_hash_at,
            buffer_seconds,
            now,
        ) == 0,
        0 <= last_hash_at + HASH_INTERVAL_SECONDS - buffer_seconds - now <= u64::MAX
            ==> cutoff_seconds(last_hash_at, buffer_seconds, now) == last_hash_at
            + HASH_INTERVAL_SECONDS - buffer_seconds - now,
{
}

/// Length of a program epoch in seconds.
pub open spec fn epoch_duration_spec() -> int {
    300
}

/// Reads `ore_api::consts::EPOCH_DURATION`, which that crate defines as five
/// times one minute of sixty seconds.
#[verifier::external_body]
fn epoch_duration() -> (seconds: i64)
    ensures
        seconds == epoch_duration_spec(),
{
    ore_api::consts::EPOCH_DURATION
}

/// The first second at which the epoch that began at `last_reset_at` is due
/// for a reset: one epoch later, held at the largest timestamp, less the
/// buffer.
pub open spec fn reset_due_at(last_reset_at: int) -> int {
    let end = last_reset_at + epoch_duration_spec();
    (if end > i64::MAX { i64::MAX as int } else { end }) - RESET_BUFFER_SECONDS
}

/// True when, at `now`, the epoch of `config` ends within the buffer or is
/// over.
pub fn should_reset(config: &Config, now: i64) -> (due: bool)
    ensures
        due == (reset_due_at(config.last_reset_at as int) <= now),
{
    let epoch = epoch_duration();
    let end: i64 = match config.last_reset_at.checked_add(epoch) {
        Some(end) => end,
        None => i64::MAX,
    };
    end - RESET_BUFFER_SECONDS <= now
}

/// True unless `current` is the challenge that was processed last.
pub open spec fn is_new_challenge(previous: Option<[u8; 32]>, current: [u8; 32]) -> bool {
    !(previous matches Some(last) && last@ == current@)
}

/// Compares the challenge just polled with the one processed last, byte by
/// byte.
pub fn has_new_challenge(previous: &Option<[u8; 32]>, current: &[u8; 32]) -> (fresh: bool)
    ensures
        fresh == is_new_challenge(*previous, *current),
{
    match previous {
        Some(last) => !same_bytes(last, current),
        None => true,
    }
}

/// Where the poller stands between two actions.
#[derive(Clone, Copy, Debug, PartialEq, Eq)]
pub enum Phase {
    /// Nothing is under way; the next thing to do is to poll.
    Idle,
    /// A round for this challenge is being searched and submitted.
    Searching { challenge: [u8; 32] },
    /// The challenge had not changed; the poller waits before polling again.
    Sleeping,
}

/// What the outside reports back to the poller.
#[derive(Clone, Copy, Debug, PartialEq, Eq)]
pub enum PollEvent {
    /// The ledger was read and holds this challenge.
    Polled { challenge: [u8; 32] },
    /// The round's result was handed to the scoring service.
    Submitted,
    /// The idle wait is over.
    Woke,
}

/// What the poller asks the outside to do next.
#[derive(Clone, Copy, Debug, PartialEq, Eq)]
pub enum PollAction {
    /// Read the ledger.
    Poll,
    /// Search a round for this challenge, then submit its best result.
    Search { challenge: [u8; 32] },
    /// Wait this long, without interruption.
    Sleep { millis: u64 },
}

/// Decides when a search round is due: one round for each challenge that
/// differs from the one processed just before it.
#[derive(Clone, Copy, Debug, PartialEq, Eq)]
pub struct ChallengePoller {
    /// The challenge of the last round that was submitted.
    pub previous: Option<[u8; 32]>,
    pub phase: Phase,
}

impl ChallengePoller {
    /// The state after `event`. An event that the phase does not wait for
    /// changes nothing.
    pub open spec fn step_spec(self, event: PollEvent) -> ChallengePoller {
        match (self.phase, event) {
            (Phase::Idle, PollEvent::Polled { challenge }) => ChallengePoller {
                previous: self.previous,
                phase: if is_new_challenge(self.previous, challenge) {
                    Phase::Searching { challenge }
                } else {
                    Phase::Sleeping
                },
            },
            (Phase::Searching { challenge }, PollEvent::Submitted) => ChallengePoller {
                previous: Some(challenge),
                phase: Phase::Idle,
            },
            (Phase::Sleeping, PollEvent::Woke) => ChallengePoller {
                previous: self.previous,
                phase: Phase::Idle,
            },
            _ => self,
        }
    }

    /// What a poller in this state waits for the outside to do.
    pub open spec fn action_spec(self) -> PollAction {
        match self.phase {
            Phase::Idle => PollAction::Poll,
            Phase::Searching { challenge } => PollAction::Search { challenge },
            Phase::Sleeping => PollAction::Sleep { millis: IDLE_SLEEP_MILLIS },
        }
    }

    /// A poller that has processed no challenge yet.
    pub fn new() -> (poller: ChallengePoller)
        ensures
            poller.previous is None,
            poller.phase == Phase::Idle,
            poller.action_spec() == PollAction::Poll,
    {
        ChallengePoller { previous: None, phase: Phase::Idle }
    }

    /// What this poller waits for the outside to do.
    pub fn action(&self) -> (action: PollAction)
        ensures
            action == self.action_spec(),
    {
        match self.phase {
            Phase::Idle => PollAction::Poll,
            Phase::Searching { challenge } => PollAction::Search { challenge },
            Phase::Sleeping => PollAction::Sleep { millis: IDLE_SLEEP_MILLIS },
        }
    }

    /// Takes in `event` and says what to do next.
    pub fn step(&mut self, event: PollEvent) -> (action: PollAction)
        ensures
            *final(self) == old(self).step_spec(event),
            action == final(self).action_spec(),
    {
        match (self.phase, event) {
            (Phase::Idle, PollEvent::Polled { challenge }) => {
                if has_new_challenge(&self.previous, &challenge) {
                    self.phase = Phase::Searching { challenge };
                } else {
                    self.phase = Phase::Sleeping;
                }
            },
            (Phase::Searching { challenge }, PollEvent::Submitted) => {
                self.previous = Some(challenge);
                self.phase = Phase::Idle;
            },
            (Phase::Sleeping, PollEvent::Woke) => {
                self.phase = Phase::Idle;
            },
            _ => {},
        }
        self.action()
    }
}

/// A search starts only from the idle phase, and only for a challenge that
/// differs from the one processed last.
pub proof fn lemma_search_starts_on_new_challenge(poller: ChallengePoller, event: PollEvent)
    requires
        !(poller.phase is Searching),
        poller.step_spec(event).phase is Searching,
    ensures
        poller.phase == Phase::Idle,
        event is Polled,
        poller.step_spec(event).phase == (Phase::Searching { challenge: event->challenge }),
        is_new_challenge(poller.previous, event->challenge),
{
}

/// Once the round for a challenge has been submitted, polling the same
/// challenge again leads to a wait and not to a second round.
pub proof fn lemma_processed_challenge_not_repeated(poller: ChallengePoller, challenge: [u8; 32])
    requires
        poller.phase == (Phase::Searching { challenge }),
    ensures
        ({
            let submitted = poller.step_spec(PollEvent::Submitted);
            let polled = submitted.step_spec(PollEvent::Polled { challenge });
            &&& submitted.phase == Phase::Idle
            &&& submitted.previous == Some(challenge)
            &&& polled.phase == Phase::Sleeping
            &&& polled.action_spec() == (PollAction::Sleep { millis: IDLE_SLEEP_MILLIS })
            &&& polled.previous == Some(challenge)
        }),
{
}

/// The challenge processed last changes only when a round is submitted.
pub proof fn lemma_previous_changes_on_submission(poller: ChallengePoller, event: PollEvent)
    ensures
        poller.step_spec(event).previous != poller.previous ==> event is Submitted && poller.phase
            is Searching,
{
}

} // verus!
