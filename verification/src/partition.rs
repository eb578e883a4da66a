//! Partitioning and buffer sizing for the concurrent pipeline.
//!
//! The partitioner assigns every record to exactly one of N worker lanes
//! by reducing the client id modulo N: a deterministic, stateless rule,
//! so all records of one client land on the same lane and keep their
//! relative order. The lane buffer capacity is computed once, before
//! processing starts, from the input's byte size and the lane count:
//! a monotonic policy clamped between a floor and a ceiling.

use vstd::prelude::*;
use vstd::arithmetic::div_mod::{lemma_div_is_ordered, lemma_div_nonincreasing, lemma_div_pos_is_pos};
use vstd::arithmetic::mul::lemma_mul_inequality;

verus! {

/// Lane buffers never shrink below this many records, however small the
/// input is.
pub const CAPACITY_FLOOR: u64 = 10_000;

/// Lane buffers never grow beyond this many records, however large the
/// input is: backpressure, not memory, absorbs the rest.
pub const CAPACITY_CEILING: u64 = 5_000_000;

/// The byte volume of input one buffer floor's worth of capacity is
/// budgeted for, per lane.
pub const BYTES_PER_WORK_UNIT: u64 = 25_000_000;

/// The lane a client's records are routed to: the client id modulo the
/// lane count.
pub open spec fn spec_lane_of(client: u16, lane_count: usize) -> int {
    client as int % lane_count as int
}

/// Routes a client to its lane. Deterministic and stateless: every record
/// carrying this client id lands on the same lane.
pub fn lane_of(client: u16, lane_count: usize) -> (lane: usize)
    requires
        lane_count >= 1,
    ensures
        lane == spec_lane_of(client, lane_count),
        lane < lane_count,
{
    (client as usize) % lane_count
}

/// Two records of the same client are always routed to the same lane, for
/// any fixed lane count: each lane's engine therefore sees a private,
/// race-free slice of the stream.
pub proof fn lemma_same_client_same_lane(
    t1: crate::record::Transaction,
    t2: crate::record::Transaction,
    lane_count: usize,
)
    requires
        t1.client == t2.client,
    ensures
        spec_lane_of(t1.client, lane_count) == spec_lane_of(t2.client, lane_count),
{
}

/// The capacity a lane buffer is created with: scales with the input
/// bytes each lane is expected to handle, clamped to
/// [`CAPACITY_FLOOR`]..=[`CAPACITY_CEILING`].
pub open spec fn spec_buffer_capacity(input_bytes: u64, lane_count: u64) -> u64 {
    let work_units = input_bytes as int / lane_count as int / BYTES_PER_WORK_UNIT as int + 1;
    if CAPACITY_FLOOR * work_units < CAPACITY_CEILING {
        (CAPACITY_FLOOR * work_units) as u64
    } else {
        CAPACITY_CEILING
    }
}

/// Computes a lane buffer's capacity, in records, from the input's total
/// byte size and the lane count. The result always lies between the floor
/// and the ceiling, and grows monotonically with the input size
/// ([`lemma_buffer_capacity_monotonic`]).
pub fn buffer_capacity(input_bytes: u64, lane_count: u64) -> (capacity: u64)
    requires
        lane_count >= 1,
    ensures
        capacity == spec_buffer_capacity(input_bytes, lane_count),
        CAPACITY_FLOOR <= capacity <= CAPACITY_CEILING,
{
    let per_lane = input_bytes / lane_count;
    let work_units = per_lane / BYTES_PER_WORK_UNIT + 1;
    proof {
        lemma_div_is_ordered(per_lane as int, u64::MAX as int, BYTES_PER_WORK_UNIT as int);
        assert(work_units <= u64::MAX as int / BYTES_PER_WORK_UNIT as int + 1);
        lemma_mul_inequality(
            work_units as int,
            u64::MAX as int / BYTES_PER_WORK_UNIT as int + 1,
            CAPACITY_FLOOR as int,
        );
    }
    let scaled = CAPACITY_FLOOR * work_units;
    if scaled < CAPACITY_CEILING {
        scaled
    } else {
        CAPACITY_CEILING
    }
}

/// The sizing policy is monotonic: more input never yields a smaller
/// buffer.
pub proof fn lemma_buffer_capacity_monotonic(bytes_small: u64, bytes_large: u64, lane_count: u64)
    requires
        lane_count >= 1,
        bytes_small <= bytes_large,
    ensures
        spec_buffer_capacity(bytes_small, lane_count) <= spec_buffer_capacity(
            bytes_large,
            lane_count,
        ),
{
    let n = lane_count as int;
    let b = BYTES_PER_WORK_UNIT as int;
    lemma_div_is_ordered(bytes_small as int, bytes_large as int, n);
    lemma_div_is_ordered(bytes_small as int / n, bytes_large as int / n, b);
    let w_small = bytes_small as int / n / b + 1;
    let w_large = bytes_large as int / n / b + 1;
    lemma_mul_inequality(w_small, w_large, CAPACITY_FLOOR as int);
    lemma_div_pos_is_pos(bytes_small as int, n);
    lemma_div_pos_is_pos(bytes_small as int / n, b);
    lemma_div_nonincreasing(bytes_small as int, n);
    lemma_div_nonincreasing(bytes_small as int / n, b);
}

} // verus!
