//! Recording decisions: option validation, when recording stops, and the
//! slower GPU sampling cadence.
use vstd::prelude::*;

use crate::engine::{SampleRequest, REQUEST_GPU, REQUEST_PER_CORE, REQUEST_SENSORS};

verus! {

/// Version of the recorded CSV schema.
pub const SCHEMA_VERSION: u8 = 2;

/// Time between GPU samples while recording, in nanoseconds (two seconds).
pub const GPU_INTERVAL_NS: u64 = 2_000_000_000;

/// How to record: the sampling interval, and optionally a total duration or
/// a number of samples after which recording stops (nanoseconds).
#[derive(Clone, Copy, Debug)]
pub struct RecordOptions {
    pub interval_ns: u64,
    pub duration_ns: Option<u64>,
    pub count: Option<u64>,
}

/// Options recording refuses.
#[derive(Debug, PartialEq, Eq, Structural)]
pub enum RecordError {
    ZeroInterval,
}

/// Checks that the sampling interval is positive.
pub fn validate_options(options: &RecordOptions) -> (checked: Result<(), RecordError>)
    ensures
        checked is Ok <==> options.interval_ns != 0,
        checked is Err ==> checked == Err::<(), RecordError>(RecordError::ZeroInterval),
{
    if options.interval_ns == 0 {
        Err(RecordError::ZeroInterval)
    } else {
        Ok(())
    }
}

/// Whether recording stops before the attempt due at `next_deadline`: the
/// requested number of samples was written, or the deadline falls after
/// the end of the requested duration (`end`).
pub fn recording_finished(options: &RecordOptions, samples_written: u64, next_deadline: u64, end: Option<u64>) -> (finished: bool)
    ensures
        finished == ((options.count matches Some(count) && samples_written >= count)
            || (end matches Some(e) && next_deadline > e)),
{
    if let Some(count) = options.count {
        if samples_written >= count {
            return true;
        }
    }
    if let Some(e) = end {
        if next_deadline > e {
            return true;
        }
    }
    false
}

/// The GPU deadline after the one at `next_gpu_deadline` has been served by
/// the attempt at `sample_deadline`: the first deadline on the same cadence
/// that lies after the attempt.
pub open spec fn next_gpu_deadline_after(sample_deadline: u64, next_gpu_deadline: u64) -> int {
    next_gpu_deadline + ((sample_deadline - next_gpu_deadline) / (GPU_INTERVAL_NS as int) + 1)
        * GPU_INTERVAL_NS
}

/// Whether the attempt at `sample_deadline` also samples the GPU. When it
/// does, the GPU deadline moves to the first point on its cadence after the
/// attempt, so missed GPU deadlines are skipped rather than caught up in a
/// burst.
pub fn gpu_sample_due(sample_deadline: u64, next_gpu_deadline: &mut u64) -> (due: bool)
    requires
        sample_deadline + GPU_INTERVAL_NS <= u64::MAX,
    ensures
        due == (sample_deadline >= *old(next_gpu_deadline)),
        !due ==> *final(next_gpu_deadline) == *old(next_gpu_deadline),
        due ==> *final(next_gpu_deadline) == next_gpu_deadline_after(
            sample_deadline,
            *old(next_gpu_deadline),
        ),
{
    if sample_deadline < *next_gpu_deadline {
        return false;
    }
    let ghost start = *next_gpu_deadline;
    let ghost mut k: int = 0;
    while *next_gpu_deadline <= sample_deadline
        invariant
            sample_deadline + GPU_INTERVAL_NS <= u64::MAX,
            start <= sample_deadline,
            *next_gpu_deadline == start + k * GPU_INTERVAL_NS,
            k >= 0,
            k > 0 ==> *next_gpu_deadline - GPU_INTERVAL_NS <= sample_deadline,
        decreases u64::MAX - *next_gpu_deadline,
    {
        *next_gpu_deadline = *next_gpu_deadline + GPU_INTERVAL_NS;
        proof {
            k = k + 1;
        }
    }
    proof {
        let x = sample_deadline - start;
        vstd::arithmetic::div_mod::lemma_fundamental_div_mod_converse(
            x,
            GPU_INTERVAL_NS as int,
            k - 1,
            x - (k - 1) * GPU_INTERVAL_NS,
        );
    }
    true
}

/// The GPU cadence never bursts and never drifts: a served GPU deadline moves
/// to a point after the attempt, at most one GPU interval later, and on the
/// same grid as the deadline it replaces.
pub proof fn gpu_cadence_keeps_its_grid(sample_deadline: u64, next_gpu_deadline: u64)
    requires
        next_gpu_deadline <= sample_deadline,
    ensures
        sample_deadline < next_gpu_deadline_after(sample_deadline, next_gpu_deadline)
            <= sample_deadline + GPU_INTERVAL_NS,
        (next_gpu_deadline_after(sample_deadline, next_gpu_deadline) - next_gpu_deadline)
            % (GPU_INTERVAL_NS as int) == 0,
{
    let x = sample_deadline - next_gpu_deadline;
    let m = GPU_INTERVAL_NS as int;
    let q = x / m;
    vstd::arithmetic::div_mod::lemma_fundamental_div_mod(x, m);
    assert(0 <= x % m < m) by {
        vstd::arithmetic::div_mod::lemma_mod_bound(x, m);
    }
    vstd::arithmetic::div_mod::lemma_mod_multiples_basic(q + 1, m);
    assert((q + 1) * m == q * m + m) by (nonlinear_arith);
}

/// What a recording attempt samples: sensors always, per-core utilization
/// when it is recorded, and the GPU when its deadline is due.
pub fn attempt_request(per_core: bool, gpu_due: bool) -> (request: SampleRequest)
    ensures
        request.spec_bits() == (REQUEST_SENSORS | (if per_core {
            REQUEST_PER_CORE
        } else {
            0
        }) | (if gpu_due {
            REQUEST_GPU
        } else {
            0
        })),
{
    let base = if per_core {
        SampleRequest::per_core().union(SampleRequest::sensors())
    } else {
        SampleRequest::sensors()
    };
    let request = if gpu_due {
        base.union(SampleRequest::gpu())
    } else {
        base
    };
    proof {
        let p: u32 = if per_core { 1 } else { 0 };
        let g: u32 = if gpu_due { 4 } else { 0 };
        assert((p | 2u32) == (2u32 | p)) by (bit_vector);
        assert(((p | 2u32) | g) == (2u32 | p | g)) by (bit_vector);
        assert((2u32 | p | 0u32) == (2u32 | p)) by (bit_vector);
        assert((2u32 | 0u32) == 2u32) by (bit_vector);
    }
    request
}

} // verus!
