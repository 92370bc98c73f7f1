use pool_miner::poller::{
    get_cutoff, has_new_challenge, should_reset, ChallengePoller, Config, Phase, PollAction,
    PollEvent, ProofState, SearchConfig, IDLE_SLEEP_MILLIS,
};

fn proof_at(last_hash_at: i64) -> ProofState {
    ProofState { challenge: [7u8; 32], balance: 0, last_hash_at }
}

#[test]
fn cutoff_at_the_moment_of_the_last_hash() {
    assert_eq!(get_cutoff(&proof_at(1000), 5, 1000), 55);
}

#[test]
fn cutoff_long_after_the_last_hash_is_zero() {
    assert_eq!(get_cutoff(&proof_at(1000), 5, 2000), 0);
}

#[test]
fn cutoff_reaches_zero_exactly_when_the_interval_is_used_up() {
    assert_eq!(get_cutoff(&proof_at(1000), 5, 1054), 1);
    assert_eq!(get_cutoff(&proof_at(1000), 5, 1055), 0);
    assert_eq!(get_cutoff(&proof_at(1000), 5, 1056), 0);
    assert_eq!(get_cutoff(&proof_at(1000), 0, 1000), 60);
    assert_eq!(get_cutoff(&proof_at(1000), 60, 1000), 0);
    assert_eq!(get_cutoff(&proof_at(1000), 61, 1000), 0);
}

#[test]
fn cutoff_at_the_limits_of_its_inputs() {
    assert_eq!(get_cutoff(&proof_at(1000), u64::MAX, 1000), 0);
    assert_eq!(get_cutoff(&proof_at(i64::MIN), 0, i64::MAX), 0);
    assert_eq!(get_cutoff(&proof_at(i64::MAX), 0, i64::MAX), 60);
    assert_eq!(get_cutoff(&proof_at(i64::MAX), 0, 0), i64::MAX as u64 + 60);
    assert_eq!(get_cutoff(&proof_at(i64::MAX), 0, i64::MIN), u64::MAX);
    assert_eq!(get_cutoff(&proof_at(i64::MAX), 60, i64::MIN), u64::MAX);
    assert_eq!(get_cutoff(&proof_at(i64::MAX), 61, i64::MIN), u64::MAX - 1);
}

#[test]
fn reset_is_due_five_seconds_before_the_epoch_ends() {
    let config = Config { last_reset_at: 1000, min_difficulty: 8 };
    assert!(!should_reset(&config, 1000));
    assert!(!should_reset(&config, 1294));
    assert!(should_reset(&config, 1295));
    assert!(should_reset(&config, 1300));
}

#[test]
fn reset_with_an_epoch_that_ends_past_the_last_timestamp() {
    let config = Config { last_reset_at: i64::MAX - 10, min_difficulty: 8 };
    assert!(!should_reset(&config, i64::MAX - 6));
    assert!(should_reset(&config, i64::MAX - 5));
    let early = Config { last_reset_at: i64::MIN, min_difficulty: 8 };
    assert!(!should_reset(&early, i64::MIN + 294));
    assert!(should_reset(&early, i64::MIN + 295));
}

#[test]
fn search_config_keeps_the_low_bits_of_the_floor() {
    let search = SearchConfig::new(&Config { last_reset_at: 0, min_difficulty: 12 }, 4, 500, 5);
    assert_eq!(
        search,
        SearchConfig { min_difficulty: 12, worker_count: 4, depth: 500, buffer_seconds: 5 }
    );
    let wide = SearchConfig::new(
        &Config { last_reset_at: 0, min_difficulty: (1u64 << 32) + 9 },
        1,
        50,
        0,
    );
    assert_eq!(wide.min_difficulty, 9);
}

#[test]
fn a_challenge_is_new_unless_it_was_processed_last() {
    let a = [1u8; 32];
    let mut b = [1u8; 32];
    b[31] = 2;
    assert!(has_new_challenge(&None, &a));
    assert!(!has_new_challenge(&Some(a), &a));
    assert!(has_new_challenge(&Some(a), &b));
    assert!(has_new_challenge(&Some(b), &a));
}

#[test]
fn a_round_runs_once_for_each_new_challenge() {
    let first = [3u8; 32];
    let second = [4u8; 32];
    let mut poller = ChallengePoller::new();
    assert_eq!(poller.action(), PollAction::Poll);
    assert_eq!(poller.previous, None);

    assert_eq!(
        poller.step(PollEvent::Polled { challenge: first }),
        PollAction::Search { challenge: first }
    );
    assert_eq!(poller.phase, Phase::Searching { challenge: first });
    assert_eq!(poller.previous, None);
    assert_eq!(poller.step(PollEvent::Submitted), PollAction::Poll);
    assert_eq!(poller.previous, Some(first));

    assert_eq!(
        poller.step(PollEvent::Polled { challenge: first }),
        PollAction::Sleep { millis: 5000 }
    );
    assert_eq!(poller.phase, Phase::Sleeping);
    assert_eq!(poller.step(PollEvent::Woke), PollAction::Poll);
    assert_eq!(poller.previous, Some(first));
    assert_eq!(
        poller.step(PollEvent::Polled { challenge: first }),
        PollAction::Sleep { millis: IDLE_SLEEP_MILLIS }
    );
    assert_eq!(poller.step(PollEvent::Woke), PollAction::Poll);

    assert_eq!(
        poller.step(PollEvent::Polled { challenge: second }),
        PollAction::Search { challenge: second }
    );
    assert_eq!(poller.step(PollEvent::Submitted), PollAction::Poll);
    assert_eq!(poller.previous, Some(second));

    assert_eq!(
        poller.step(PollEvent::Polled { challenge: first }),
        PollAction::Search { challenge: first }
    );
}

#[test]
fn an_event_out_of_turn_changes_nothing() {
    let challenge = [9u8; 32];
    let mut poller = ChallengePoller::new();
    assert_eq!(poller.step(PollEvent::Submitted), PollAction::Poll);
    assert_eq!(poller.step(PollEvent::Woke), PollAction::Poll);
    assert_eq!(poller, ChallengePoller::new());

    poller.step(PollEvent::Polled { challenge });
    let searching = poller;
    assert_eq!(poller.step(PollEvent::Woke), PollAction::Search { challenge });
    assert_eq!(
        poller.step(PollEvent::Polled { challenge: [1u8; 32] }),
        PollAction::Search { challenge }
    );
    assert_eq!(poller, searching);

    poller.step(PollEvent::Submitted);
    poller.step(PollEvent::Polled { challenge });
    let sleeping = poller;
    assert_eq!(poller.step(PollEvent::Submitted), PollAction::Sleep { millis: 5000 });
    assert_eq!(
        poller.step(PollEvent::Polled { challenge: [1u8; 32] }),
        PollAction::Sleep { millis: 5000 }
    );
    assert_eq!(poller, sleeping);
}
