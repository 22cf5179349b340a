//! Sampling-engine bookkeeping: request flags, emission timing and the
//! bounded history of emitted points.
use vstd::prelude::*;
use vstd::string::StringExecFns;

use crate::gpu::GpuError;
use crate::smc::error::SmcError;
use crate::cpu::{
    interval_shares, lemma_per_core_shares_len, per_core_cpus_ascend, per_core_shares, CpuError, CpuShares, CpuTicks, MachCpuProvider, MachPerCoreProvider, PerCoreShares,
};

verus! {

/// Number of aggregate CPU history points kept by the engine.
pub const HISTORY_CAPACITY: usize = 180;

/// Number of GPU history points kept by the engine.
pub const GPU_HISTORY_CAPACITY: usize = 90;

/// Largest number of logical CPUs a snapshot carries.
pub const MAX_LOGICAL_CPUS: usize = 64;

/// Request bit: sample per-core utilization.
pub const REQUEST_PER_CORE: u32 = 1;

/// Request bit: sample SMC sensors.
pub const REQUEST_SENSORS: u32 = 2;

/// Request bit: sample GPU utilization.
pub const REQUEST_GPU: u32 = 4;

/// All request bits this engine understands.
pub const REQUEST_MASK: u32 = 7;

/// The optional reads a sample performs, as a set of request bits.
#[derive(Clone, Copy, Debug, Default, PartialEq, Eq, Structural)]
pub struct SampleRequest(u32);

impl SampleRequest {
    /// The request for aggregate CPU only.
    pub fn none() -> (request: SampleRequest)
        ensures
            request.spec_bits() == 0,
    {
        SampleRequest(0)
    }

    /// The request for per-core utilization.
    pub fn per_core() -> (request: SampleRequest)
        ensures
            request.spec_bits() == REQUEST_PER_CORE,
    {
        SampleRequest(REQUEST_PER_CORE)
    }

    /// The request for SMC sensors.
    pub fn sensors() -> (request: SampleRequest)
        ensures
            request.spec_bits() == REQUEST_SENSORS,
    {
        SampleRequest(REQUEST_SENSORS)
    }

    /// The request for GPU utilization.
    pub fn gpu() -> (request: SampleRequest)
        ensures
            request.spec_bits() == REQUEST_GPU,
    {
        SampleRequest(REQUEST_GPU)
    }

    /// The bits of this request.
    pub closed spec fn spec_bits(self) -> u32 {
        self.0
    }

    /// The request with exactly `bits`, or `None` when `bits` holds a bit
    /// outside `REQUEST_MASK`.
    pub fn from_bits(bits: u32) -> (request: Option<SampleRequest>)
        ensures
            match request {
                Some(r) => bits & !REQUEST_MASK == 0 && r.spec_bits() == bits,
                None => bits & !REQUEST_MASK != 0,
            },
    {
        if bits & !REQUEST_MASK == 0 {
            Some(SampleRequest(bits))
        } else {
            None
        }
    }

    /// The bits of this request.
    pub fn bits(self) -> (bits: u32)
        ensures
            bits == self.spec_bits(),
    {
        self.0
    }

    /// Whether this request shares a bit with `request`.
    pub fn contains(self, request: SampleRequest) -> (shared: bool)
        ensures
            shared == (self.spec_bits() & request.spec_bits() != 0),
    {
        self.0 & request.0 != 0
    }

    /// The request holding the bits of both requests.
    pub fn union(self, other: SampleRequest) -> (request: SampleRequest)
        ensures
            request.spec_bits() == self.spec_bits() | other.spec_bits(),
    {
        SampleRequest(self.0 | other.0)
    }
}

/// A union of requests asks for what either asks for, and nothing else.
pub proof fn union_shares_what_either_shares(a: SampleRequest, b: SampleRequest, x: SampleRequest)
    ensures
        ((a.spec_bits() | b.spec_bits()) & x.spec_bits() != 0) == ((a.spec_bits() & x.spec_bits()
            != 0) || (b.spec_bits() & x.spec_bits() != 0)),
{
    let (p, q, r) = (a.spec_bits(), b.spec_bits(), x.spec_bits());
    assert(((p | q) & r != 0) == ((p & r != 0) || (q & r != 0))) by (bit_vector);
}

impl core::ops::BitOr for SampleRequest {
    type Output = SampleRequest;

    fn bitor(self, rhs: SampleRequest) -> (request: SampleRequest)
        ensures
            request.spec_bits() == self.spec_bits() | rhs.spec_bits(),
    {
        self.union(rhs)
    }
}

impl vstd::std_specs::ops::BitOrSpecImpl for SampleRequest {
    open spec fn obeys_bitor_spec() -> bool {
        true
    }

    open spec fn bitor_req(self, rhs: SampleRequest) -> bool {
        true
    }

    closed spec fn bitor_spec(self, rhs: SampleRequest) -> SampleRequest {
        SampleRequest(self.0 | rhs.0)
    }
}

/// A failure to establish or advance a CPU counter baseline.
#[derive(Debug)]
pub enum EngineError {
    AggregateBaseline(CpuError),
    PerCoreBaseline(CpuError),
    AggregateSample(CpuError),
    PerCoreSample(CpuError),
}

impl EngineError {
    /// The text this error displays (its cause is reported by `source`).
    pub open spec fn spec_message(&self) -> Seq<char> {
        match self {
            EngineError::AggregateBaseline(_) => "failed to establish aggregate CPU counter baseline"@,
            EngineError::PerCoreBaseline(_) => "failed to establish per-core CPU counter baseline"@,
            EngineError::AggregateSample(_) => "failed to sample aggregate CPU utilization"@,
            EngineError::PerCoreSample(_) => "failed to sample per-core CPU utilization"@,
        }
    }

    /// Renders the error without its cause.
    pub fn message(&self) -> (text: String)
        ensures
            text@ == self.spec_message(),
    {
        match self {
            EngineError::AggregateBaseline(_) => String::from_str(
                "failed to establish aggregate CPU counter baseline",
            ),
            EngineError::PerCoreBaseline(_) => String::from_str(
                "failed to establish per-core CPU counter baseline",
            ),
            EngineError::AggregateSample(_) => String::from_str(
                "failed to sample aggregate CPU utilization",
            ),
            EngineError::PerCoreSample(_) => String::from_str(
                "failed to sample per-core CPU utilization",
            ),
        }
    }

    /// The counter read failure that caused this error.
    pub fn source(&self) -> (cause: &CpuError)
        ensures
            cause == match self {
                EngineError::AggregateBaseline(e) => e,
                EngineError::PerCoreBaseline(e) => e,
                EngineError::AggregateSample(e) => e,
                EngineError::PerCoreSample(e) => e,
            },
    {
        match self {
            EngineError::AggregateBaseline(e) => e,
            EngineError::PerCoreBaseline(e) => e,
            EngineError::AggregateSample(e) => e,
            EngineError::PerCoreSample(e) => e,
        }
    }
}

/// Nanoseconds of a duration given in nanoseconds, saturating at `u64::MAX`.
pub fn duration_ns(nanos: u128) -> (ns: u64)
    ensures
        ns == if nanos <= u64::MAX {
            nanos as u64
        } else {
            u64::MAX
        },
{
    if nanos <= u64::MAX as u128 {
        nanos as u64
    } else {
        u64::MAX
    }
}

/// The timing of one emitted snapshot, in nanoseconds of a monotonic clock.
#[derive(Clone, Copy, Debug, PartialEq, Eq, Structural)]
pub struct EmissionTiming {
    pub sequence: u64,
    pub monotonic_ns: u64,
    pub interval_ns: u64,
}

/// Sequence numbers and intervals of emitted snapshots. Instants are
/// nanoseconds of a monotonic clock; a difference that would be negative is
/// zero.
#[derive(Debug)]
pub struct EmissionTimeline {
    started_at: u64,
    previous_emitted_at: u64,
    sequence: u64,
}

impl EmissionTimeline {
    pub closed spec fn spec_started_at(self) -> u64 {
        self.started_at
    }

    pub closed spec fn spec_previous_emitted_at(self) -> u64 {
        self.previous_emitted_at
    }

    pub closed spec fn spec_sequence(self) -> u64 {
        self.sequence
    }

    /// A timeline that starts, and last emitted, at `started_at`.
    pub fn new(started_at: u64) -> (timeline: Self)
        ensures
            timeline.spec_started_at() == started_at,
            timeline.spec_previous_emitted_at() == started_at,
            timeline.spec_sequence() == 0,
    {
        EmissionTimeline { started_at, previous_emitted_at: started_at, sequence: 0 }
    }

    /// Records a snapshot emitted at `emitted_at`: the next sequence number,
    /// the time since the start, and the time since the previous emission
    /// (or since the last interval reset).
    pub fn record_emission(&mut self, emitted_at: u64) -> (timing: EmissionTiming)
        requires
            old(self).spec_sequence() < u64::MAX,
        ensures
            timing.sequence == old(self).spec_sequence() + 1,
            timing.monotonic_ns == saturating_difference(emitted_at, old(self).spec_started_at()),
            timing.interval_ns == saturating_difference(
                emitted_at,
                old(self).spec_previous_emitted_at(),
            ),
            final(self).spec_sequence() == timing.sequence,
            final(self).spec_started_at() == old(self).spec_started_at(),
            final(self).spec_previous_emitted_at() == emitted_at,
    {
        self.sequence = self.sequence + 1;
        let timing = EmissionTiming {
            sequence: self.sequence,
            monotonic_ns: emitted_at.saturating_sub(self.started_at),
            interval_ns: emitted_at.saturating_sub(self.previous_emitted_at),
        };
        self.previous_emitted_at = emitted_at;
        timing
    }

    /// Starts the next interval at `reset_at`, so that the time before it
    /// (such as a sleep) is not counted.
    pub fn reset_interval(&mut self, reset_at: u64)
        ensures
            final(self).spec_previous_emitted_at() == reset_at,
            final(self).spec_started_at() == old(self).spec_started_at(),
            final(self).spec_sequence() == old(self).spec_sequence(),
    {
        self.previous_emitted_at = reset_at;
    }
}

/// `later - earlier`, or zero when `earlier` is later.
pub open spec fn saturating_difference(later: u64, earlier: u64) -> u64 {
    if later >= earlier {
        (later - earlier) as u64
    } else {
        0
    }
}

/// The last `n` elements of `s` (all of `s` when it is shorter).
pub open spec fn latest<T>(s: Seq<T>, n: nat) -> Seq<T> {
    if s.len() <= n {
        s
    } else {
        s.subrange(s.len() - n, s.len() as int)
    }
}

/// Reduction modulo `m` of a value below `2 * m`.
proof fn lemma_wrap(x: int, m: int)
    requires
        m > 0,
        0 <= x < 2 * m,
    ensures
        x % m == if x < m {
            x
        } else {
            x - m
        },
{
    if x < m {
        vstd::arithmetic::div_mod::lemma_small_mod(x as nat, m as nat);
    } else {
        vstd::arithmetic::div_mod::lemma_small_mod((x - m) as nat, m as nat);
        vstd::arithmetic::div_mod::lemma_mod_add_multiples_vanish(x - m, m);
    }
}

/// A fixed-capacity history that keeps the most recent `CAPACITY` points in
/// oldest-to-newest order.
pub struct HistoryBuffer<T, const CAPACITY: usize> {
    points: Vec<T>,
    start: usize,
}

impl<T, const CAPACITY: usize> HistoryBuffer<T, CAPACITY> {
    /// The ring-buffer invariant that every constructor establishes and every
    /// method keeps.
    pub closed spec fn well_formed(self) -> bool {
        &&& CAPACITY > 0
        &&& self.points.len() <= CAPACITY
        &&& self.start < CAPACITY
        &&& (self.start == 0 || self.points.len() == CAPACITY)
    }

    /// The retained points, oldest first.
    pub closed spec fn view(self) -> Seq<T> {
        Seq::new(
            self.points.len() as nat,
            |i: int| self.points@[(self.start + i) % (CAPACITY as int)],
        )
    }

}

impl<T: Copy, const CAPACITY: usize> HistoryBuffer<T, CAPACITY> {
    /// An empty history.
    pub fn new() -> (history: Self)
        requires
            CAPACITY > 0,
        ensures
            history.well_formed(),
            history.view() == Seq::<T>::empty(),
    {
        let history = HistoryBuffer { points: Vec::new(), start: 0 };
        assert(history.view() =~= Seq::<T>::empty());
        history
    }

    /// Number of retained points.
    pub fn len(&self) -> (count: usize)
        requires
            self.well_formed(),
        ensures
            count == self.view().len(),
            count <= CAPACITY,
    {
        self.points.len()
    }

    /// Appends `point`, discarding the oldest point once `CAPACITY` points
    /// are retained.
    pub fn push(&mut self, point: T)
        requires
            old(self).well_formed(),
        ensures
            final(self).well_formed(),
            final(self).view() == latest(old(self).view().push(point), CAPACITY as nat),
    {
        let ghost before = self.view();
        if self.points.len() < CAPACITY {
            self.points.push(point);
            proof {
                assert forall|i: int| 0 <= i < self.points.len() implies #[trigger] self.view()[i]
                    == self.points@[i] by {
                    vstd::arithmetic::div_mod::lemma_small_mod(i as nat, CAPACITY as nat);
                }
                assert forall|i: int| 0 <= i < before.len() implies #[trigger] before[i]
                    == old(self).points@[i] by {
                    vstd::arithmetic::div_mod::lemma_small_mod(i as nat, CAPACITY as nat);
                }
                assert(self.view() =~= latest(before.push(point), CAPACITY as nat));
            }
        } else {
            let index = self.start;
            self.points.set(index, point);
            self.start = if index + 1 == CAPACITY {
                0
            } else {
                index + 1
            };
            proof {
                let cap = CAPACITY as int;
                let new_start = self.start as int;
                assert forall|i: int| 0 <= i < cap implies #[trigger] self.view()[i] == latest(
                    before.push(point),
                    CAPACITY as nat,
                )[i] by {
                    let k = index + 1 + i;
                    lemma_wrap(k, cap);
                    lemma_wrap(new_start + i, cap);
                    if i < cap - 1 {
                        lemma_wrap(index + (i + 1), cap);
                        assert(before[i + 1] == old(self).points@[(index + (i + 1)) % cap]);
                    }
                }
                assert(self.view() =~= latest(before.push(point), CAPACITY as nat));
            }
        }
    }

    /// Writes the newest `min(len, output.len())` points into the front of
    /// `output`, oldest first, and returns how many were written. The rest of
    /// `output` is left unchanged.
    pub fn copy_into(&self, output: &mut [T]) -> (count: usize)
        requires
            self.well_formed(),
        ensures
            count == if self.view().len() <= old(output)@.len() {
                self.view().len()
            } else {
                old(output)@.len()
            },
            final(output)@ == self.view().subrange(
                self.view().len() - count,
                self.view().len() as int,
            ) + old(output)@.subrange(count as int, old(output)@.len() as int),
    {
        let len = self.points.len();
        let count = if len <= output.len() {
            len
        } else {
            output.len()
        };
        let skipped = len - count;
        let mut index: usize = 0;
        while index < count
            invariant
                len == self.view().len(),
                count <= len,
                count <= output@.len(),
                skipped == len - count,
                output@.len() == old(output)@.len(),
                self.well_formed(),
                forall|j: int| 0 <= j < index ==> output@[j] == self.view()[skipped + j],
                forall|j: int| count <= j < output@.len() ==> output@[j] == old(output)@[j],
            decreases count - index,
        {
            let offset = skipped + index;
            let source = if offset < CAPACITY - self.start {
                self.start + offset
            } else {
                offset - (CAPACITY - self.start)
            };
            proof {
                lemma_wrap(self.start + offset, CAPACITY as int);
                assert(self.view()[offset as int] == self.points@[source as int]);
            }
            output[index] = self.points[source];
            index += 1;
        }
        proof {
            assert(output@ =~= self.view().subrange(
                self.view().len() - count,
                self.view().len() as int,
            ) + old(output)@.subrange(count as int, old(output)@.len() as int));
        }
        count
    }
}

/// A history keeps a sliding window: after the points `s` were pushed in
/// order, it holds the newest `n` of them, and pushing one more point moves
/// the window forward by that point.
pub proof fn history_window_slides<T>(s: Seq<T>, point: T, n: nat)
    requires
        n > 0,
    ensures
        latest(latest(s, n).push(point), n) == latest(s.push(point), n),
{
    let w = latest(s, n);
    if s.len() < n {
        assert(latest(s, n) == s);
    } else {
        assert(w.len() == n);
        assert(latest(w.push(point), n) =~= latest(s.push(point), n));
    }
}

/// Copying a history that holds the newest `n` of the points `s` into an
/// output of `m` slots gives the newest `min(len s, n, m)` points of `s`,
/// oldest first.
pub proof fn copied_window_holds_newest<T>(s: Seq<T>, n: nat, m: nat)
    ensures
        ({
            let w = latest(s, n);
            let count = if w.len() <= m {
                w.len()
            } else {
                m
            };
            &&& count == if s.len() <= n && s.len() <= m {
                s.len()
            } else if n <= m {
                n
            } else {
                m
            }
            &&& w.subrange(w.len() - count, w.len() as int) == s.subrange(
                s.len() - count,
                s.len() as int,
            )
        }),
{
    let w = latest(s, n);
    let count = if w.len() <= m {
        w.len()
    } else {
        m
    };
    assert(w.subrange(w.len() - count, w.len() as int) =~= s.subrange(s.len() - count, s.len() as int));
}

/// The history that pushing `points`, in order, into an empty history of
/// capacity `n` leaves, one `push` at a time.
pub open spec fn pushed_history<T>(points: Seq<T>, n: nat) -> Seq<T>
    decreases points.len(),
{
    if points.len() == 0 {
        Seq::empty()
    } else {
        latest(pushed_history(points.drop_last(), n).push(points.last()), n)
    }
}

/// After the points `points` are pushed into an empty history of capacity
/// `n`, it holds the newest `n` of them, oldest first; copying it into an
/// output of `m` slots writes the newest `min(len points, n, m)` of them,
/// oldest first.
pub proof fn history_after_pushes<T>(points: Seq<T>, n: nat, m: nat)
    requires
        n > 0,
    ensures
        pushed_history(points, n) == latest(points, n),
        ({
            let w = pushed_history(points, n);
            let count = if w.len() <= m {
                w.len()
            } else {
                m
            };
            &&& count == if points.len() <= n && points.len() <= m {
                points.len()
            } else if n <= m {
                n
            } else {
                m
            }
            &&& w.subrange(w.len() - count, w.len() as int) == points.subrange(
                points.len() - count,
                points.len() as int,
            )
        }),
    decreases points.len(),
{
    if points.len() == 0 {
        assert(latest(points, n) =~= Seq::<T>::empty());
    } else {
        let rest = points.drop_last();
        history_after_pushes(rest, n, m);
        history_window_slides(rest, points.last(), n);
        assert(rest.push(points.last()) =~= points);
    }
    copied_window_holds_newest(points, n, m);
}

/// Time since the start adds up from the intervals of successive emissions
/// when instants do not go backwards and no reset intervenes.
pub proof fn intervals_add_up(started_at: u64, previous: u64, emitted_at: u64)
    requires
        started_at <= previous <= emitted_at,
    ensures
        saturating_difference(emitted_at, started_at) == saturating_difference(
            previous,
            started_at,
        ) + saturating_difference(emitted_at, previous),
{
}

/// Snapshot times never go backwards when the instants samples start at do
/// not: a snapshot started at `later` is stamped no earlier than one started
/// at `earlier`, both measured from the engine's start.
pub proof fn snapshot_times_do_not_decrease(started_at: u64, earlier: u64, later: u64)
    requires
        earlier <= later,
    ensures
        saturating_difference(earlier, started_at) <= saturating_difference(later, started_at),
{
}

/// One point of a utilization history: when it was taken, and the busy
/// ticks out of the total ticks of its interval (no ticks at all when no
/// reading was available).
#[derive(Clone, Copy, Debug, PartialEq, Eq, Structural)]
pub struct HistoryPoint {
    pub monotonic_ns: u64,
    pub busy: u64,
    pub total: u64,
}

/// Busy ticks of an interval: user, system and nice.
pub open spec fn busy_ticks(shares: CpuShares) -> int {
    shares.user + shares.system + shares.nice
}

/// A busy share as a part of a total number of ticks.
#[derive(Clone, Copy, Debug, PartialEq, Eq, Structural)]
pub struct Share {
    pub busy: u64,
    pub total: u64,
}

/// One emitted snapshot of the engine.
#[derive(Debug)]
pub struct EngineSnapshot {
    pub sequence: u64,
    pub monotonic_ns: u64,
    pub interval_ns: u64,
    pub aggregate: CpuShares,
    pub per_core: Vec<PerCoreShares>,
}

/// The per-core utilization a sample reports for the per-core read made
/// (if any), given the counters of the previous one: every logical CPU whose
/// ticks advanced, in CPU order, once two reads of the same number of CPUs
/// exist; nothing otherwise.
pub open spec fn per_core_output(
    read: Option<Result<Vec<CpuTicks>, CpuError>>,
    baseline: Seq<CpuTicks>,
) -> Seq<PerCoreShares> {
    match read {
        Some(Ok(ticks)) => if baseline.len() == ticks@.len() {
            per_core_shares(ticks@, baseline, ticks@.len())
        } else {
            Seq::empty()
        },
        _ => Seq::empty(),
    }
}

/// The sampling engine: aggregate and optional per-core CPU utilization,
/// emission timing, and the bounded histories of aggregate CPU and GPU
/// utilization.
pub struct CpuEngine {
    aggregate: MachCpuProvider,
    per_core: Option<MachPerCoreProvider>,
    emissions: EmissionTimeline,
    history: HistoryBuffer<HistoryPoint, 180>,
    gpu_history: HistoryBuffer<HistoryPoint, 90>,
    sensor_error: Option<SmcError>,
    gpu_error: Option<GpuError>,
}

impl CpuEngine {
    /// The invariant every constructor establishes and every method keeps.
    pub closed spec fn well_formed(self) -> bool {
        &&& self.history.well_formed()
        &&& self.gpu_history.well_formed()
    }

    /// Why the sensors could not be set up, when they could not (the engine
    /// then samples without them).
    pub closed spec fn spec_sensor_error(self) -> Option<SmcError> {
        self.sensor_error
    }

    /// The last GPU failure kept for diagnostics: the setup failure, or the
    /// failure of the last GPU read, until a GPU read succeeds.
    pub closed spec fn spec_gpu_error(self) -> Option<GpuError> {
        self.gpu_error
    }

    /// Whether the engine samples per-core utilization.
    pub closed spec fn spec_per_core(self) -> bool {
        self.per_core is Some
    }

    /// The per-CPU counters of the last successful per-core read (empty
    /// when per-core utilization is not sampled).
    pub closed spec fn spec_per_core_baseline(self) -> Seq<CpuTicks> {
        match self.per_core {
            Some(p) => p.baseline(),
            None => Seq::empty(),
        }
    }

    /// The aggregate counters of the last successful read.
    pub closed spec fn spec_baseline(self) -> Option<CpuTicks> {
        self.aggregate.baseline()
    }

    /// The emission timeline.
    pub closed spec fn spec_emissions(self) -> EmissionTimeline {
        self.emissions
    }

    /// The retained aggregate history, oldest first.
    pub closed spec fn spec_history(self) -> Seq<HistoryPoint> {
        self.history.view()
    }

    /// The retained GPU history, oldest first.
    pub closed spec fn spec_gpu_history(self) -> Seq<HistoryPoint> {
        self.gpu_history.view()
    }

    /// An engine whose baselines come from the first reads of the counters
    /// (the per-core read only when per-core sampling was asked for), started
    /// at `started_at`. A failed counter read fails the engine; a failed
    /// sensor or GPU setup (`sensor_setup`, `gpu_setup`) does not: the engine
    /// then runs without them and keeps the failure for diagnostics.
    pub fn new(
        aggregate_read: Result<CpuTicks, CpuError>,
        per_core_read: Option<Result<Vec<CpuTicks>, CpuError>>,
        sensor_setup: Option<SmcError>,
        gpu_setup: Option<GpuError>,
        started_at: u64,
    ) -> (engine: Result<CpuEngine, EngineError>)
        requires
            per_core_read matches Some(Ok(ticks)) ==> ticks@.len() <= u32::MAX + 1,
        ensures
            aggregate_read matches Err(e) ==> (engine matches Err(EngineError::AggregateBaseline(c))
                && c == e),
            per_core_read matches Some(Err(e)) ==> (aggregate_read is Ok ==> (engine matches Err(
                EngineError::PerCoreBaseline(c),
            ) && c == e)),
            engine matches Ok(eng) ==> {
                &&& eng.well_formed()
                &&& aggregate_read matches Ok(t) && eng.spec_baseline() == Some(t)
                &&& eng.spec_per_core() == per_core_read is Some
                &&& eng.spec_emissions().spec_started_at() == started_at
                &&& eng.spec_emissions().spec_previous_emitted_at() == started_at
                &&& eng.spec_emissions().spec_sequence() == 0
                &&& eng.spec_history() == Seq::<HistoryPoint>::empty()
                &&& eng.spec_gpu_history() == Seq::<HistoryPoint>::empty()
                &&& eng.spec_per_core_baseline() == match per_core_read {
                    Some(Ok(ticks)) => ticks@,
                    _ => Seq::<CpuTicks>::empty(),
                }
                &&& eng.spec_sensor_error() == sensor_setup
                &&& eng.spec_gpu_error() == gpu_setup
            },
            aggregate_read is Ok && !(per_core_read matches Some(Err(_))) ==> engine is Ok,
    {
        let mut aggregate = MachCpuProvider::new();
        match aggregate.sample(aggregate_read) {
            Ok(_) => {},
            Err(e) => return Err(EngineError::AggregateBaseline(e)),
        }
        let per_core = match per_core_read {
            None => None,
            Some(read) => {
                let mut provider = MachPerCoreProvider::new();
                match provider.sample(read) {
                    Ok(_) => Some(provider),
                    Err(e) => return Err(EngineError::PerCoreBaseline(e)),
                }
            },
        };
        Ok(
            CpuEngine {
                aggregate,
                per_core,
                emissions: EmissionTimeline::new(started_at),
                history: HistoryBuffer::new(),
                gpu_history: HistoryBuffer::new(),
                sensor_error: sensor_setup,
                gpu_error: gpu_setup,
            },
        )
    }

    /// The sensor setup failure kept for diagnostics, if the engine runs
    /// without sensors.
    pub fn sensor_error(&self) -> (error: Option<&SmcError>)
        ensures
            match error {
                Some(e) => self.spec_sensor_error() == Some(*e),
                None => self.spec_sensor_error() is None,
            },
    {
        match &self.sensor_error {
            Some(e) => Some(e),
            None => None,
        }
    }

    /// The last GPU failure kept for diagnostics, if any.
    pub fn gpu_error(&self) -> (error: Option<&GpuError>)
        ensures
            match error {
                Some(e) => self.spec_gpu_error() == Some(*e),
                None => self.spec_gpu_error() is None,
            },
    {
        match &self.gpu_error {
            Some(e) => Some(e),
            None => None,
        }
    }

    /// Whether a sample for `request` reads per-core counters: only when
    /// they were asked for and the engine samples them.
    pub fn reads_per_core(&self, request: SampleRequest) -> (reads: bool)
        ensures
            reads == (request.spec_bits() & REQUEST_PER_CORE != 0 && self.spec_per_core()),
    {
        request.contains(SampleRequest::per_core()) && self.per_core.is_some()
    }

    /// Re-establishes the CPU baselines from fresh reads and starts the next
    /// interval at `reset_at`, so that the first interval after a sleep
    /// covers only awake time. The interval restarts even when a read
    /// failed; the aggregate failure is reported before the per-core one.
    pub fn reset_cpu_baselines(
        &mut self,
        reset_at: u64,
        aggregate_read: Result<CpuTicks, CpuError>,
        per_core_read: Option<Result<Vec<CpuTicks>, CpuError>>,
    ) -> (outcome: Result<(), EngineError>)
        requires
            old(self).well_formed(),
            per_core_read is Some == old(self).spec_per_core(),
            per_core_read matches Some(Ok(ticks)) ==> ticks@.len() <= u32::MAX + 1,
        ensures
            final(self).well_formed(),
            final(self).spec_per_core() == old(self).spec_per_core(),
            restarted_at(*old(self), *final(self), reset_at),
            emission_step(*old(self), *final(self), None),
            final(self).spec_baseline() == match aggregate_read {
                Ok(t) => Some(t),
                Err(_) => None,
            },
            final(self).spec_per_core_baseline() == match per_core_read {
                Some(Ok(ticks)) => ticks@,
                Some(Err(_)) => Seq::<CpuTicks>::empty(),
                None => old(self).spec_per_core_baseline(),
            },
            final(self).spec_sensor_error() == old(self).spec_sensor_error(),
            final(self).spec_gpu_error() == old(self).spec_gpu_error(),
            aggregate_read matches Err(e) ==> (outcome matches Err(EngineError::AggregateBaseline(c))
                && c == e),
            per_core_read matches Some(Err(e)) ==> (aggregate_read is Ok ==> (outcome matches Err(
                EngineError::PerCoreBaseline(c),
            ) && c == e)),
            aggregate_read is Ok && !(per_core_read matches Some(Err(_))) ==> outcome is Ok,
    {
        let aggregate = self.aggregate.reset(aggregate_read);
        let per_core = match (&mut self.per_core, per_core_read) {
            (Some(provider), Some(read)) => provider.reset(read),
            _ => Ok(()),
        };
        self.emissions.reset_interval(reset_at);
        if let Err(e) = aggregate {
            return Err(EngineError::AggregateBaseline(e));
        }
        if let Err(e) = per_core {
            return Err(EngineError::PerCoreBaseline(e));
        }
        Ok(())
    }
}

/// The point an emitted snapshot adds to the aggregate history.
pub open spec fn history_point(s: EngineSnapshot) -> HistoryPoint {
    HistoryPoint { monotonic_ns: s.monotonic_ns, busy: busy_ticks(s.aggregate) as u64, total: s.aggregate.total }
}

/// The aggregate history point a sample's outcome adds, if it emitted a
/// snapshot.
pub open spec fn emitted_point(outcome: Result<Option<EngineSnapshot>, EngineError>) -> Option<HistoryPoint> {
    match outcome {
        Ok(Some(s)) => Some(history_point(s)),
        _ => None,
    }
}

/// What one call does to the sequence number and the aggregate history: an
/// emission takes the next sequence number and adds its point (the oldest
/// retained point leaves once the history is full); anything else leaves
/// both as they were.
pub open spec fn emission_step(before: CpuEngine, after: CpuEngine, emitted: Option<HistoryPoint>) -> bool {
    match emitted {
        None => {
            &&& after.spec_emissions().spec_sequence() == before.spec_emissions().spec_sequence()
            &&& after.spec_history() == before.spec_history()
        },
        Some(point) => {
            &&& after.spec_emissions().spec_sequence() == before.spec_emissions().spec_sequence() + 1
            &&& after.spec_history() == latest(before.spec_history().push(point), HISTORY_CAPACITY as nat)
        },
    }
}

/// What a reset at `reset_at` does to the timing and the histories: the
/// next interval starts at `reset_at`; the start, the sequence number and
/// both histories are kept.
pub open spec fn restarted_at(before: CpuEngine, after: CpuEngine, reset_at: u64) -> bool {
    &&& after.spec_emissions().spec_previous_emitted_at() == reset_at
    &&& after.spec_emissions().spec_started_at() == before.spec_emissions().spec_started_at()
    &&& after.spec_emissions().spec_sequence() == before.spec_emissions().spec_sequence()
    &&& after.spec_history() == before.spec_history()
    &&& after.spec_gpu_history() == before.spec_gpu_history()
}

/// What a sample started at `started_at` that emitted `s` does to the timing
/// and the aggregate history: `s` takes the next sequence number, its time
/// since the start and since the previous emission (or reset), the next
/// interval starts at `started_at`, and its point joins the history.
pub open spec fn emits_at(before: CpuEngine, after: CpuEngine, started_at: u64, s: EngineSnapshot) -> bool {
    &&& s.sequence == before.spec_emissions().spec_sequence() + 1
    &&& s.monotonic_ns == saturating_difference(started_at, before.spec_emissions().spec_started_at())
    &&& s.interval_ns == saturating_difference(
        started_at,
        before.spec_emissions().spec_previous_emitted_at(),
    )
    &&& after.spec_emissions().spec_sequence() == s.sequence
    &&& after.spec_emissions().spec_previous_emitted_at() == started_at
    &&& after.spec_emissions().spec_started_at() == before.spec_emissions().spec_started_at()
    &&& after.spec_history() == latest(before.spec_history().push(history_point(s)), HISTORY_CAPACITY as nat)
}

impl CpuEngine {
    /// One sample for `request`, from the reads made at `started_at`: the
    /// aggregate counters, the per-core counters (read exactly when
    /// `reads_per_core(request)`), and, when GPU utilization was requested
    /// and a GPU reader exists, the outcome of the GPU read (a share, a gap,
    /// or a failure). Successful counter reads become the new baselines. No
    /// snapshot is emitted until the aggregate counters have a baseline. An
    /// emitted snapshot takes the next sequence number and adds a point to
    /// the aggregate history, and to the GPU history when GPU utilization
    /// was requested (no ticks for a gap or a failure); a GPU failure is kept
    /// for diagnostics until a GPU read succeeds.
    pub fn sample(
        &mut self,
        request: SampleRequest,
        started_at: u64,
        aggregate_read: Result<CpuTicks, CpuError>,
        per_core_read: Option<Result<Vec<CpuTicks>, CpuError>>,
        gpu: Option<Result<Option<Share>, GpuError>>,
    ) -> (snapshot: Result<Option<EngineSnapshot>, EngineError>)
        requires
            old(self).well_formed(),
            per_core_read is Some == (request.spec_bits() & REQUEST_PER_CORE != 0 && old(
                self,
            ).spec_per_core()),
            per_core_read matches Some(Ok(ticks)) ==> ticks@.len() <= MAX_LOGICAL_CPUS,
            gpu is Some ==> request.spec_bits() & REQUEST_GPU != 0,
            old(self).spec_emissions().spec_sequence() < u64::MAX,
        ensures
            final(self).well_formed(),
            final(self).spec_per_core() == old(self).spec_per_core(),
            per_core_read matches Some(Ok(ticks)) ==> (aggregate_read is Ok ==> final(self).spec_per_core_baseline()
                == ticks@),
            (aggregate_read is Err || !(per_core_read matches Some(Ok(_)))) ==> final(self).spec_per_core_baseline()
                == old(self).spec_per_core_baseline(),
            final(self).spec_sensor_error() == old(self).spec_sensor_error(),
            final(self).spec_gpu_error() == match (snapshot, gpu) {
                (Ok(Some(_)), Some(Ok(Some(_)))) => None,
                (Ok(Some(_)), Some(Err(e))) => Some(e),
                _ => old(self).spec_gpu_error(),
            },
            aggregate_read matches Err(e) ==> (snapshot matches Err(EngineError::AggregateSample(c))
                && c == e && final(self).spec_baseline() == old(self).spec_baseline()),
            per_core_read matches Some(Err(e)) ==> (aggregate_read is Ok ==> (snapshot matches Err(
                EngineError::PerCoreSample(c),
            ) && c == e)),
            aggregate_read matches Ok(t) ==> final(self).spec_baseline() == Some(t),
            emission_step(*old(self), *final(self), emitted_point(snapshot)),
            !(snapshot matches Ok(Some(_))) ==> {
                &&& final(self).spec_emissions() == old(self).spec_emissions()
                &&& final(self).spec_history() == old(self).spec_history()
                &&& final(self).spec_gpu_history() == old(self).spec_gpu_history()
            },
            aggregate_read is Ok && !(per_core_read matches Some(Err(_))) ==> (snapshot is Ok && (
            snapshot matches Ok(None) <==> match old(self).spec_baseline() {
                None => true,
                Some(previous) => interval_shares(aggregate_read->Ok_0, previous) is None,
            })),
            snapshot matches Ok(Some(s)) ==> {
                let current = aggregate_read->Ok_0;
                let previous = old(self).spec_baseline()->0;
                let gpu_point = match gpu {
                    Some(Ok(Some(g))) => HistoryPoint { monotonic_ns: s.monotonic_ns, busy: g.busy, total: g.total },
                    _ => HistoryPoint { monotonic_ns: s.monotonic_ns, busy: 0, total: 0 },
                };
                &&& interval_shares(current, previous) == Some(s.aggregate)
                &&& emits_at(*old(self), *final(self), started_at, s)
                &&& final(self).spec_gpu_history() == if request.spec_bits() & REQUEST_GPU != 0 {
                    latest(old(self).spec_gpu_history().push(gpu_point), GPU_HISTORY_CAPACITY as nat)
                } else {
                    old(self).spec_gpu_history()
                }
                &&& s.per_core@.len() <= MAX_LOGICAL_CPUS
                &&& s.per_core@.len() > 0 ==> request.spec_bits() & REQUEST_PER_CORE != 0 && old(
                    self,
                ).spec_per_core()
                &&& s.per_core@ == per_core_output(per_core_read, old(self).spec_per_core_baseline())
            },
    {
        let ghost expected = per_core_output(per_core_read, old(self).spec_per_core_baseline());
        let usage = match self.aggregate.sample(aggregate_read) {
            Ok(u) => u,
            Err(e) => return Err(EngineError::AggregateSample(e)),
        };
        let mut per_core_ready = false;
        if let Some(read) = per_core_read {
            match &mut self.per_core {
                Some(provider) => match provider.sample(read) {
                    Ok(ready) => {
                        per_core_ready = ready;
                        proof {
                            let n = provider.baseline().len();
                            lemma_per_core_shares_len(provider.baseline(), old(self).per_core->0.baseline(), n);
                        }
                    },
                    Err(e) => return Err(EngineError::PerCoreSample(e)),
                },
                None => {},
            }
        }
        assert(per_core_ready ==> (self.per_core matches Some(p) && p.current_samples() == expected));
        assert(!per_core_ready ==> expected == Seq::<PerCoreShares>::empty());
        let aggregate = match usage {
            Some(a) => a,
            None => return Ok(None),
        };
        let mut per_core: Vec<PerCoreShares> = Vec::new();
        if per_core_ready {
            if let Some(provider) = &self.per_core {
                let samples = provider.samples();
                let mut i: usize = 0;
                while i < samples.len()
                    invariant
                        i <= samples@.len(),
                        per_core@ == samples@.take(i as int),
                    decreases samples@.len() - i,
                {
                    per_core.push(samples[i]);
                    assert(per_core@ =~= samples@.take(i + 1));
                    i += 1;
                }
                assert(samples@.take(samples@.len() as int) =~= samples@);
            }
        }
        assert(per_core@ == expected);
        let timing = self.emissions.record_emission(started_at);
        let busy = aggregate.user + aggregate.system + aggregate.nice;
        self.history.push(
            HistoryPoint { monotonic_ns: timing.monotonic_ns, busy, total: aggregate.total },
        );
        let mut gpu_share = Share { busy: 0, total: 0 };
        match gpu {
            Some(Ok(Some(g))) => {
                gpu_share = g;
                self.gpu_error = None;
            },
            Some(Err(e)) => {
                self.gpu_error = Some(e);
            },
            _ => {},
        }
        if request.contains(SampleRequest::gpu()) {
            self.gpu_history.push(
                HistoryPoint {
                    monotonic_ns: timing.monotonic_ns,
                    busy: gpu_share.busy,
                    total: gpu_share.total,
                },
            );
        }
        Ok(
            Some(
                EngineSnapshot {
                    sequence: timing.sequence,
                    monotonic_ns: timing.monotonic_ns,
                    interval_ns: timing.interval_ns,
                    aggregate,
                    per_core,
                },
            ),
        )
    }

    /// Writes the newest aggregate history points into the front of `output`,
    /// oldest first, and returns how many were written.
    pub fn history(&self, output: &mut [HistoryPoint]) -> (count: usize)
        requires
            self.well_formed(),
        ensures
            count == if self.spec_history().len() <= old(output)@.len() {
                self.spec_history().len()
            } else {
                old(output)@.len()
            },
            final(output)@ == self.spec_history().subrange(
                self.spec_history().len() - count,
                self.spec_history().len() as int,
            ) + old(output)@.subrange(count as int, old(output)@.len() as int),
    {
        self.history.copy_into(output)
    }

    /// Writes the newest GPU history points into the front of `output`,
    /// oldest first, and returns how many were written.
    pub fn gpu_history(&self, output: &mut [HistoryPoint]) -> (count: usize)
        requires
            self.well_formed(),
        ensures
            count == if self.spec_gpu_history().len() <= old(output)@.len() {
                self.spec_gpu_history().len()
            } else {
                old(output)@.len()
            },
            final(output)@ == self.spec_gpu_history().subrange(
                self.spec_gpu_history().len() - count,
                self.spec_gpu_history().len() as int,
            ) + old(output)@.subrange(count as int, old(output)@.len() as int),
    {
        self.gpu_history.copy_into(output)
    }
}

/// The aggregate points that a run of calls emitted, in order, from what
/// each call emitted (`None` for a call that emitted nothing).
pub open spec fn emitted_points(outcomes: Seq<Option<HistoryPoint>>) -> Seq<HistoryPoint>
    decreases outcomes.len(),
{
    if outcomes.len() == 0 {
        Seq::empty()
    } else {
        let earlier = emitted_points(outcomes.drop_last());
        match outcomes.last() {
            Some(point) => earlier.push(point),
            None => earlier,
        }
    }
}

/// Emissions are numbered and remembered in order: when a fresh engine goes
/// through calls (samples and resets) that emitted `outcomes`, its sequence
/// number is the number of snapshots emitted and its aggregate history holds
/// the newest `HISTORY_CAPACITY` emitted points, oldest first. Calls that
/// emitted nothing consume no sequence number and add no point.
pub proof fn emissions_are_numbered_and_kept(
    states: Seq<CpuEngine>,
    outcomes: Seq<Option<HistoryPoint>>,
)
    requires
        states.len() == outcomes.len() + 1,
        states[0].spec_emissions().spec_sequence() == 0,
        states[0].spec_history() == Seq::<HistoryPoint>::empty(),
        forall|i: int|
            0 <= i < outcomes.len() ==> emission_step(#[trigger] states[i], states[i + 1], outcomes[i]),
    ensures
        states.last().spec_emissions().spec_sequence() == emitted_points(outcomes).len(),
        states.last().spec_history() == latest(emitted_points(outcomes), HISTORY_CAPACITY as nat),
    decreases outcomes.len(),
{
    if outcomes.len() == 0 {
        assert(latest(Seq::<HistoryPoint>::empty(), HISTORY_CAPACITY as nat) =~= Seq::<HistoryPoint>::empty());
    } else {
        let k = outcomes.len() - 1;
        let earlier_states = states.drop_last();
        let earlier = outcomes.drop_last();
        assert forall|i: int| 0 <= i < earlier.len() implies emission_step(
            #[trigger] earlier_states[i],
            earlier_states[i + 1],
            earlier[i],
        ) by {
            assert(emission_step(states[i], states[i + 1], outcomes[i]));
        }
        emissions_are_numbered_and_kept(earlier_states, earlier);
        assert(emission_step(states[k], states[k + 1], outcomes[k]));
        assert(earlier_states.last() == states[k]);
        if let Some(point) = outcomes.last() {
            history_window_slides(emitted_points(earlier), point, HISTORY_CAPACITY as nat);
        }
    }
}

/// A reset restarts only the interval: when an engine is reset at
/// `reset_at` and its next sample, started at `started_at`, emits `s`, then
/// `s` takes the sequence number after the last one emitted before the
/// reset, its interval runs from the reset (not from the previous emission),
/// its time still runs from the engine's start, and the history keeps every
/// earlier point.
pub proof fn reset_restarts_only_the_interval(
    before: CpuEngine,
    reset: CpuEngine,
    after: CpuEngine,
    reset_at: u64,
    started_at: u64,
    s: EngineSnapshot,
)
    requires
        restarted_at(before, reset, reset_at),
        emits_at(reset, after, started_at, s),
    ensures
        s.sequence == before.spec_emissions().spec_sequence() + 1,
        s.interval_ns == saturating_difference(started_at, reset_at),
        reset_at <= started_at ==> s.interval_ns == started_at - reset_at,
        s.monotonic_ns == saturating_difference(started_at, before.spec_emissions().spec_started_at()),
        after.spec_history() == latest(before.spec_history().push(history_point(s)), HISTORY_CAPACITY as nat),
{
}

/// A snapshot's per-core entries come only from a per-core read, in CPU
/// order, at most one per logical CPU: their logical CPU numbers strictly
/// increase and stay below the number of CPUs read.
pub proof fn per_core_entries_ascend(
    read: Option<Result<Vec<CpuTicks>, CpuError>>,
    baseline: Seq<CpuTicks>,
)
    requires
        read matches Some(Ok(ticks)) ==> ticks@.len() <= MAX_LOGICAL_CPUS,
    ensures
        per_core_output(read, baseline).len() > 0 ==> (read matches Some(Ok(ticks)) && forall|a: int|
            0 <= a < per_core_output(read, baseline).len() ==> (#[trigger] per_core_output(
                read,
                baseline,
            )[a]).logical_cpu < ticks@.len()),
        forall|a: int, b: int|
            0 <= a < b < per_core_output(read, baseline).len() ==> (#[trigger] per_core_output(
                read,
                baseline,
            )[a]).logical_cpu < (#[trigger] per_core_output(read, baseline)[b]).logical_cpu,
{
    if let Some(Ok(ticks)) = read {
        per_core_cpus_ascend(ticks@, baseline, ticks@.len());
    }
}

/// An emitted snapshot's aggregate history point counts as busy every tick
/// of its interval that was not idle (user, system and nice), out of all the
/// interval's ticks, stamped with the snapshot's time; it is the newest
/// point of the history.
pub proof fn history_points_count_the_non_idle_ticks(
    before: CpuEngine,
    after: CpuEngine,
    started_at: u64,
    s: EngineSnapshot,
    current: CpuTicks,
    previous: CpuTicks,
)
    requires
        emits_at(before, after, started_at, s),
        interval_shares(current, previous) == Some(s.aggregate),
    ensures
        s.aggregate.user + s.aggregate.system + s.aggregate.idle + s.aggregate.nice == s.aggregate.total,
        after.spec_history().last() == (HistoryPoint {
            monotonic_ns: s.monotonic_ns,
            busy: (s.aggregate.total - s.aggregate.idle) as u64,
            total: s.aggregate.total,
        }),
{
    let pushed = before.spec_history().push(history_point(s));
    let kept = latest(pushed, HISTORY_CAPACITY as nat);
    assert(kept.last() == pushed.last());
}

} // verus!
