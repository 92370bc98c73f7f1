//! Splitting the nonce space among the workers of one round.

use vstd::prelude::*;

verus! {

/// Distance between the starting nonces of two neighbouring workers.
pub open spec fn nonce_stride(depth: u64) -> int
    recommends
        depth > 0,
{
    u64::MAX as int / depth as int
}

/// Where worker `index` starts: `index` strides from zero, held at the top of
/// the nonce space when that product no longer fits.
pub open spec fn starting_nonce_spec(depth: u64, index: u64) -> int
    recommends
        depth > 0,
{
    let start = nonce_stride(depth) * index;
    if start <= u64::MAX {
        start
    } else {
        u64::MAX as int
    }
}

/// True when none of the first `worker_count` starting nonces is held at the
/// top of the nonce space.
pub open spec fn starts_fit(depth: u64, worker_count: u64) -> bool
    recommends
        depth > 0,
{
    worker_count == 0 || nonce_stride(depth) * (worker_count - 1) <= u64::MAX
}

/// Every starting nonce is a nonce.
pub proof fn lemma_starting_nonce_in_range(depth: u64, index: u64)
    requires
        depth > 0,
    ensures
        0 <= starting_nonce_spec(depth, index) <= u64::MAX,
{
    let stride = nonce_stride(depth);
    assert(stride * index >= 0) by (nonlinear_arith)
        requires
            stride == u64::MAX as int / depth as int,
            0 < depth,
            0 <= index,
    ;
}

/// The first nonce that worker `index` tries.
pub fn starting_nonce(depth: u64, index: u64) -> (start: u64)
    requires
        depth > 0,
    ensures
        start == starting_nonce_spec(depth, index),
{
    let stride: u64 = u64::MAX / depth;
    match stride.checked_mul(index) {
        Some(start) => start,
        None => u64::MAX,
    }
}

/// The starting nonces of workers `0..worker_count`, in worker order.
pub fn starting_nonces(depth: u64, worker_count: u64) -> (starts: Vec<u64>)
    requires
        depth > 0,
        worker_count <= usize::MAX,
    ensures
        starts@.len() == worker_count,
        forall|i: int|
            0 <= i < worker_count ==> starts@[i] == #[trigger] starting_nonce_spec(depth, i as u64),
{
    let mut starts: Vec<u64> = Vec::new();
    let mut index: u64 = 0;
    while index < worker_count
        invariant
            depth > 0,
            index <= worker_count,
            starts@.len() == index,
            forall|i: int|
                0 <= i < index ==> starts@[i] == #[trigger] starting_nonce_spec(depth, i as u64),
        decreases worker_count - index,
    {
        starts.push(starting_nonce(depth, index));
        index += 1;
    }
    starts
}

/// As long as no start is held at the top, worker `index` starts exactly
/// `index` strides from zero.
pub proof fn lemma_start_is_multiple_of_stride(depth: u64, worker_count: u64, index: u64)
    requires
        depth > 0,
        starts_fit(depth, worker_count),
        index < worker_count,
    ensures
        starting_nonce_spec(depth, index) == (u64::MAX as int / depth as int) * index,
{
    let stride = nonce_stride(depth);
    assert(stride * index <= stride * (worker_count - 1)) by (nonlinear_arith)
        requires
            0 <= stride,
            0 <= index <= worker_count - 1,
    ;
}

/// For a depth above zero and at least one worker, as long as no start is
/// held at the top of the nonce space: worker `i` starts at
/// `floor(u64::MAX / depth) * i`, and no two workers start at the same nonce.
pub proof fn lemma_starting_nonces_distinct(depth: u64, worker_count: u64)
    requires
        depth > 0,
        worker_count >= 1,
        starts_fit(depth, worker_count),
    ensures
        forall|i: u64|
            i < worker_count ==> #[trigger] starting_nonce_spec(depth, i) == (u64::MAX as int
                / depth as int) * i,
        forall|i: u64, j: u64|
            i < worker_count && j < worker_count && i != j ==> #[trigger] starting_nonce_spec(
                depth,
                i,
            ) != #[trigger] starting_nonce_spec(depth, j),
{
    let stride = nonce_stride(depth);
    assert(stride >= 1) by (nonlinear_arith)
        requires
            stride == u64::MAX as int / depth as int,
            0 < depth <= u64::MAX,
    ;
    assert forall|i: u64| i < worker_count implies #[trigger] starting_nonce_spec(depth, i)
        == stride * i by {
        lemma_start_is_multiple_of_stride(depth, worker_count, i);
    }
    assert forall|i: u64, j: u64| i < worker_count && j < worker_count && i != j implies
        #[trigger] starting_nonce_spec(depth, i) != #[trigger] starting_nonce_spec(depth, j) by {
        assert(stride * i != stride * j) by (nonlinear_arith)
            requires
                stride >= 1,
                i != j,
        ;
    }
}

/// With at most `depth + 1` workers no start is held at the top.
pub proof fn lemma_starts_fit_within_depth(depth: u64, worker_count: u64)
    requires
        depth > 0,
        worker_count <= depth + 1,
    ensures
        starts_fit(depth, worker_count),
{
    if worker_count > 0 {
        let stride = nonce_stride(depth);
        assert(stride * (worker_count - 1) <= u64::MAX) by (nonlinear_arith)
            requires
                stride == u64::MAX as int / depth as int,
                0 < depth,
                0 <= worker_count - 1 <= depth,
        ;
    }
}

} // verus!
