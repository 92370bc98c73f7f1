use pool_miner::aggregate::{reduce, GlobalBest};
use pool_miner::worker::{Candidate, HashOutput, WorkerResult};

fn result(nonce: u64, difficulty: u32, mark: u8, hash_count: u64) -> WorkerResult {
    WorkerResult {
        best: Candidate { nonce, difficulty, hash: HashOutput { d: [mark; 16], h: [mark; 32] } },
        hash_count,
    }
}

#[test]
fn the_higher_of_two_difficulties_wins() {
    let results = vec![result(10, 12, 1, 300), result(20, 18, 2, 500)];
    let global = reduce(&results);
    assert_eq!(global.best, results[1].best);
    assert_eq!(global.best.difficulty, 18);
    assert_eq!(global.best.nonce, 20);
    assert_eq!(global.total_hashes, 800);
}

#[test]
fn the_higher_difficulty_wins_wherever_it_stands() {
    let results = vec![result(10, 18, 1, 1), result(20, 12, 2, 2), result(30, 17, 3, 3)];
    let global = reduce(&results);
    assert_eq!(global.best, results[0].best);
    assert_eq!(global.total_hashes, 6);
}

#[test]
fn among_equals_the_earliest_worker_wins() {
    let results =
        vec![result(10, 5, 1, 1), result(20, 9, 2, 1), result(30, 9, 3, 1), result(40, 9, 4, 1)];
    let global = reduce(&results);
    assert_eq!(global.best, results[1].best);
    assert_eq!(global.best.nonce, 20);
    assert_eq!(global.best.hash.d, [2u8; 16]);
}

#[test]
fn with_no_difficulty_above_zero_worker_zero_wins() {
    let results = vec![result(77, 0, 1, 100), result(88, 0, 2, 200)];
    let global = reduce(&results);
    assert_eq!(global.best, results[0].best);
    assert_eq!(global.total_hashes, 300);
}

#[test]
fn without_results_the_best_is_degenerate() {
    let global = reduce(&Vec::new());
    assert_eq!(
        global,
        GlobalBest {
            best: Candidate { nonce: 0, difficulty: 0, hash: HashOutput { d: [0; 16], h: [0; 32] } },
            total_hashes: 0,
        }
    );
}

#[test]
fn a_total_past_the_largest_count_is_held_there() {
    let results = vec![result(1, 1, 1, u64::MAX - 1), result(2, 2, 2, 1), result(3, 3, 3, 7)];
    assert_eq!(reduce(&results[..2].to_vec()).total_hashes, u64::MAX);
    let global = reduce(&results);
    assert_eq!(global.total_hashes, u64::MAX);
    assert_eq!(global.best, results[2].best);
}

#[test]
fn a_single_result_is_the_best() {
    let results = vec![result(5, 3, 9, u64::MAX)];
    let global = reduce(&results);
    assert_eq!(global.best, results[0].best);
    assert_eq!(global.total_hashes, u64::MAX);
}

#[test]
fn the_solution_holds_the_digest_and_the_nonce_in_little_endian() {
    let global = reduce(&vec![result(0x0102030405060708, 4, 6, 1)]);
    let solution = global.solution();
    assert_eq!(solution.d, [6u8; 16]);
    assert_eq!(solution.n, [8, 7, 6, 5, 4, 3, 2, 1]);
    assert_eq!(solution.n, 0x0102030405060708u64.to_le_bytes());
}

#[test]
fn the_hash_rate_is_the_total_over_fifty_five_seconds() {
    let global = reduce(&vec![result(1, 2, 3, 5500), result(2, 1, 4, 109)]);
    assert_eq!(global.total_hashes, 5609);
    assert_eq!(global.hashes_per_second(), 101);
    assert_eq!(reduce(&vec![result(1, 2, 3, 54)]).hashes_per_second(), 0);
    assert_eq!(reduce(&vec![result(1, 2, 3, 55)]).hashes_per_second(), 1);
}
