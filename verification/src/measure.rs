//! Measurement of the sampling engine: option validation, deadline
//! bookkeeping and nearest-rank latency summaries.
use vstd::prelude::*;

verus! {

broadcast use vstd::seq_lib::group_to_multiset_ensures;

/// Version of the measurement summary schema.
pub const SCHEMA_VERSION: u8 = 1;

/// Which engine path a measurement exercises.
#[derive(Clone, Copy, Debug, PartialEq, Eq, Structural)]
pub enum MeasureMode {
    Aggregate,
    PerCore,
}

impl MeasureMode {
    /// Whether this mode samples per-core utilization.
    pub fn samples_per_core(self) -> (per_core: bool)
        ensures
            per_core == (self == MeasureMode::PerCore),
    {
        match self {
            MeasureMode::Aggregate => false,
            MeasureMode::PerCore => true,
        }
    }
}

/// What to measure: the engine path, the sampling interval and the total
/// duration, both in nanoseconds.
#[derive(Clone, Copy, Debug)]
pub struct MeasureOptions {
    pub mode: MeasureMode,
    pub interval_ns: u64,
    pub duration_ns: u64,
}

/// Options a measurement refuses.
#[derive(Debug, PartialEq, Eq, Structural)]
pub enum MeasureError {
    ZeroInterval,
    DurationShorterThanInterval,
}

/// Checks that the interval is positive and the duration covers at least
/// one interval.
pub fn validate_options(options: &MeasureOptions) -> (checked: Result<(), MeasureError>)
    ensures
        options.interval_ns == 0 ==> checked == Err::<(), MeasureError>(MeasureError::ZeroInterval),
        options.interval_ns != 0 && options.duration_ns < options.interval_ns ==> checked == Err::<
            (),
            MeasureError,
        >(MeasureError::DurationShorterThanInterval),
        options.interval_ns != 0 && options.duration_ns >= options.interval_ns ==> checked is Ok,
{
    if options.interval_ns == 0 {
        return Err(MeasureError::ZeroInterval);
    }
    if options.duration_ns < options.interval_ns {
        return Err(MeasureError::DurationShorterThanInterval);
    }
    Ok(())
}

/// The deadline `m` intervals after `deadline`.
pub open spec fn nth_deadline(deadline: u64, interval: u64, m: int) -> int {
    deadline + m * interval
}

/// Moves the deadline past the attempt just made: one interval ahead, then
/// further for every deadline already missed at `now` that still falls
/// before `end`. Returns the new deadline and the number of missed
/// deadlines skipped.
pub fn advance_deadline(deadline: u64, interval: u64, now: u64, end: u64) -> (advanced: (u64, u64))
    requires
        interval > 0,
        deadline + interval <= u64::MAX,
        end + interval <= u64::MAX,
    ensures
        advanced.0 == deadline + (advanced.1 + 1) * interval,
        advanced.0 >= now || advanced.0 > end,
        forall|m: int|
            1 <= m <= advanced.1 ==> #[trigger] nth_deadline(deadline, interval, m) < now
                && nth_deadline(deadline, interval, m) <= end,
{
    let mut next = deadline + interval;
    let mut missed: u64 = 0;
    while next < now && next <= end
        invariant
            interval > 0,
            end + interval <= u64::MAX,
            next == deadline + (missed + 1) * interval,
            next <= u64::MAX,
            forall|m: int|
                1 <= m <= missed ==> #[trigger] nth_deadline(deadline, interval, m) < now
                    && nth_deadline(deadline, interval, m) <= end,
        decreases u64::MAX - next,
    {
        assert((missed + 1) * interval >= missed + 1) by (nonlinear_arith)
            requires
                interval > 0,
        ;
        assert(nth_deadline(deadline, interval, missed + 1) == next);
        missed += 1;
        next += interval;
        proof {
            assert(deadline + (missed + 1) * interval == deadline + missed * interval + interval)
                by (nonlinear_arith);
        }
    }
    (next, missed)
}

/// A measurement makes at most one attempt or missed deadline per interval
/// of its duration: deadlines `started_at + k * interval` for `k` from 1 to
/// `counted` that all fall by `started_at + duration` number at most
/// `duration / interval`.
pub proof fn deadlines_fit_the_duration(started_at: nat, interval: nat, duration: nat, counted: nat)
    requires
        interval > 0,
        started_at + counted * interval <= started_at + duration,
    ensures
        counted <= duration / interval,
{
    vstd::arithmetic::div_mod::lemma_fundamental_div_mod(duration as int, interval as int);
    assert(duration % interval < interval) by {
        vstd::arithmetic::div_mod::lemma_mod_bound(duration as int, interval as int);
    }
    if counted > duration / interval {
        assert(counted * interval >= (duration / interval + 1) * interval) by (nonlinear_arith)
            requires
                counted >= duration / interval + 1,
                interval > 0,
        ;
        assert((duration / interval + 1) * interval == interval * (duration / interval) + interval)
            by (nonlinear_arith);
    }
}

/// Latency distribution of a set of durations: minimum, truncated mean,
/// nearest-rank 50th, 95th and 99th percentiles, and maximum.
#[derive(Clone, Copy, Debug, PartialEq, Eq, Structural)]
pub struct LatencySummary {
    pub min: u64,
    pub mean: u64,
    pub p50: u64,
    pub p95: u64,
    pub p99: u64,
    pub max: u64,
}

/// Whether `s` is in ascending order.
pub open spec fn ascending(s: Seq<u64>) -> bool {
    forall|a: int, b: int| 0 <= a < b < s.len() ==> s[a] <= s[b]
}

/// The sum of the values.
pub open spec fn sum(s: Seq<u64>) -> int
    decreases s.len(),
{
    if s.len() == 0 {
        0
    } else {
        sum(s.drop_last()) + s.last()
    }
}

/// The nearest rank of the `p`-th percentile among `n` values:
/// `ceil(p * n / 100)`.
pub open spec fn nearest_rank(p: nat, n: nat) -> int {
    ((p * n + 99) / 100) as int
}

/// The `p`-th percentile of ascending values by the nearest-rank method.
pub open spec fn spec_percentile(sorted: Seq<u64>, p: nat) -> u64 {
    let rank = nearest_rank(p, sorted.len());
    sorted[if rank > 0 {
        rank - 1
    } else {
        0
    }]
}

/// The summary of ascending values, or `None` when there are none.
pub open spec fn spec_summary(sorted: Seq<u64>) -> Option<LatencySummary> {
    if sorted.len() == 0 {
        None
    } else {
        let mean = sum(sorted) / (sorted.len() as int);
        Some(
            LatencySummary {
                min: sorted[0],
                mean: if mean <= u64::MAX {
                    mean as u64
                } else {
                    u64::MAX
                },
                p50: spec_percentile(sorted, 50),
                p95: spec_percentile(sorted, 95),
                p99: spec_percentile(sorted, 99),
                max: sorted[sorted.len() - 1],
            },
        )
    }
}

/// The `percentile`-th percentile (1 to 100) of ascending values by the
/// nearest-rank method. The rank is computed in parts (whole hundreds of
/// values, then the rest), so it cannot overflow for any length.
pub fn percentile(sorted: &[u64], p: usize) -> (value: u64)
    requires
        sorted@.len() > 0,
        1 <= p <= 100,
    ensures
        value == spec_percentile(sorted@, p as nat),
{
    let n = sorted.len();
    let hundreds = n / 100;
    let rest = n % 100;
    proof {
        assert(hundreds * p <= n) by (nonlinear_arith)
            requires
                hundreds == n / 100,
                p <= 100,
        ;
        assert(rest * p <= 9900) by (nonlinear_arith)
            requires
                rest < 100,
                p <= 100,
        ;
        assert(hundreds * p + (rest * p + 99) / 100 <= n) by (nonlinear_arith)
            requires
                n == 100 * hundreds + rest,
                0 <= rest < 100,
                1 <= p <= 100,
        ;
    }
    let rank = hundreds * p + (rest * p + 99) / 100;
    proof {
        assert(rank == nearest_rank(p as nat, n as nat)) by (nonlinear_arith)
            requires
                n == 100 * hundreds + rest,
                rank == hundreds * p + (rest * p + 99) / 100,
                0 <= rest < 100,
        ;
        assert(rank <= n) by (nonlinear_arith)
            requires
                rank == (p * n + 99) / 100,
                p <= 100,
        ;
    }
    sorted[if rank > 0 {
        rank - 1
    } else {
        0
    }]
}

/// Replacing one value changes the sum by the difference.
proof fn lemma_sum_update(s: Seq<u64>, i: int, v: u64)
    requires
        0 <= i < s.len(),
    ensures
        sum(s.update(i, v)) == sum(s) - s[i] + v,
    decreases s.len(),
{
    let t = s.update(i, v);
    if i < s.len() - 1 {
        assert(t.drop_last() =~= s.drop_last().update(i, v));
        lemma_sum_update(s.drop_last(), i, v);
    } else {
        assert(t.drop_last() =~= s.drop_last());
    }
}

/// Sorts `values` ascending in place.
pub fn sort_ascending(values: &mut [u64])
    ensures
        final(values)@.len() == old(values)@.len(),
        ascending(final(values)@),
        final(values)@.to_multiset() == old(values)@.to_multiset(),
        sum(final(values)@) == sum(old(values)@),
{
    let n = values.len();
    let mut i: usize = 1;
    if n == 0 {
        return;
    }
    while i < n
        invariant
            n == values@.len(),
            n == old(values)@.len(),
            1 <= i <= n,
            forall|a: int, b: int| 0 <= a < b < i ==> values@[a] <= values@[b],
            values@.to_multiset() == old(values)@.to_multiset(),
            sum(values@) == sum(old(values)@),
        decreases n - i,
    {
        let mut j: usize = i;
        while j > 0 && values[j - 1] > values[j]
            invariant
                n == values@.len(),
                n == old(values)@.len(),
                0 <= j <= i < n,
                forall|a: int, b: int|
                    0 <= a < b <= i && a != j && b != j ==> values@[a] <= values@[b],
                forall|b: int| j < b <= i ==> values@[j as int] <= values@[b],
                values@.to_multiset() == old(values)@.to_multiset(),
                sum(values@) == sum(old(values)@),
            decreases j,
        {
            let ghost before = values@;
            let upper = values[j];
            let lower = values[j - 1];
            values[j] = lower;
            values[j - 1] = upper;
            proof {
                broadcast use vstd::seq_lib::to_multiset_update;
                broadcast use vstd::multiset::group_multiset_axioms;

                let mid = before.update(j as int, lower);
                assert(values@ == mid.update(j - 1, upper));
                assert(values@.to_multiset() =~= before.to_multiset());
                lemma_sum_update(before, j as int, lower);
                lemma_sum_update(mid, j - 1, upper);
            }
            j -= 1;
        }
        i += 1;
    }
}

/// Sorts `values` ascending and summarizes them; `None` when empty.
pub fn summarize(values: &mut [u64]) -> (summary: Option<LatencySummary>)
    ensures
        ascending(final(values)@),
        final(values)@.to_multiset() == old(values)@.to_multiset(),
        summary == spec_summary(final(values)@),
        summary is None <==> old(values)@.len() == 0,
        summary matches Some(s) ==> s.mean == if sum(old(values)@) / (old(values)@.len() as int)
            <= u64::MAX {
            (sum(old(values)@) / (old(values)@.len() as int)) as u64
        } else {
            u64::MAX
        },
{
    sort_ascending(values);
    let n = values.len();
    if n == 0 {
        return None;
    }
    let mut total: u128 = 0;
    let mut i: usize = 0;
    while i < n
        invariant
            n == values@.len(),
            i <= n,
            total == sum(values@.subrange(0, i as int)),
            total <= i * 0xffff_ffff_ffff_ffffu128,
        decreases n - i,
    {
        assert(values@.subrange(0, i + 1).drop_last() =~= values@.subrange(0, i as int));
        proof {
            assert((i + 1) * 0xffff_ffff_ffff_ffffu128 == i * 0xffff_ffff_ffff_ffffu128
                + 0xffff_ffff_ffff_ffffu128) by (nonlinear_arith);
            assert(i * 0xffff_ffff_ffff_ffffu128 + 0xffff_ffff_ffff_ffffu128 <= u128::MAX)
                by (nonlinear_arith)
                requires
                    i < n,
                    n <= usize::MAX,
            ;
        }
        total = total + values[i] as u128;
        i += 1;
    }
    assert(values@.subrange(0, n as int) =~= values@);
    let mean_wide = total / (n as u128);
    let mean: u64 = if mean_wide <= u64::MAX as u128 {
        mean_wide as u64
    } else {
        u64::MAX
    };
    Some(
        LatencySummary {
            min: values[0],
            mean,
            p50: percentile(values, 50),
            p95: percentile(values, 95),
            p99: percentile(values, 99),
            max: values[n - 1],
        },
    )
}


/// `n * lo <= sum(s) <= n * hi` when every value lies in `lo..=hi`.
proof fn lemma_sum_bounds(s: Seq<u64>, lo: u64, hi: u64)
    requires
        forall|i: int| 0 <= i < s.len() ==> lo <= #[trigger] s[i] <= hi,
    ensures
        s.len() * lo <= sum(s) <= s.len() * hi,
    decreases s.len(),
{
    if s.len() > 0 {
        lemma_sum_bounds(s.drop_last(), lo, hi);
        assert(s.len() * lo == (s.len() - 1) * lo + lo) by (nonlinear_arith);
        assert(s.len() * hi == (s.len() - 1) * hi + hi) by (nonlinear_arith);
    }
}

/// Nearest ranks grow with the percentile and stay within `1..=n`.
proof fn lemma_nearest_rank_monotone(p: nat, q: nat, n: nat)
    requires
        1 <= p <= q <= 100,
        n > 0,
    ensures
        1 <= nearest_rank(p, n) <= nearest_rank(q, n) <= n,
{
    assert(p * n <= q * n) by (nonlinear_arith)
        requires
            p <= q,
    ;
    assert(q * n <= 100 * n) by (nonlinear_arith)
        requires
            q <= 100,
    ;
    assert(p * n >= 1) by (nonlinear_arith)
        requires
            p >= 1,
            n >= 1,
    ;
    assert((p * n + 99) / 100 <= (q * n + 99) / 100) by (nonlinear_arith)
        requires
            p * n <= q * n,
    ;
    assert((q * n + 99) / 100 <= (100 * n + 99) / 100) by (nonlinear_arith)
        requires
            q * n <= 100 * n,
    ;
}

/// A latency summary is ordered: `min <= p50 <= p95 <= p99 <= max`, and the
/// mean lies between the minimum and the maximum.
pub proof fn summary_is_ordered(sorted: Seq<u64>)
    requires
        ascending(sorted),
        sorted.len() > 0,
    ensures
        spec_summary(sorted) matches Some(s) && s.min <= s.p50 <= s.p95 <= s.p99 <= s.max
            && s.min <= s.mean <= s.max,
{
    let n = sorted.len();
    lemma_nearest_rank_monotone(50, 95, n);
    lemma_nearest_rank_monotone(95, 99, n);
    let r50 = nearest_rank(50, n);
    let r95 = nearest_rank(95, n);
    let r99 = nearest_rank(99, n);
    assert(sorted[0] <= sorted[r50 - 1]);
    assert(sorted[r50 - 1] <= sorted[r95 - 1]);
    assert(sorted[r95 - 1] <= sorted[r99 - 1]);
    assert(sorted[r99 - 1] <= sorted[n - 1]);
    let lo = sorted[0];
    let hi = sorted[n - 1];
    assert forall|i: int| 0 <= i < sorted.len() implies lo <= #[trigger] sorted[i] <= hi by {
        if i > 0 {
            assert(sorted[0] <= sorted[i]);
        }
        if i < n - 1 {
            assert(sorted[i] <= sorted[n - 1]);
        }
    }
    lemma_sum_bounds(sorted, lo, hi);
    let total = sum(sorted);
    assert(lo <= total / (n as int) <= hi) by (nonlinear_arith)
        requires
            n * lo <= total <= n * hi,
            n > 0,
    ;
}

/// The summary depends only on which durations were measured, not on the
/// order they were measured in: two ascending arrangements of the same
/// durations are the same sequence and summarize alike.
pub proof fn summary_ignores_order(a: Seq<u64>, b: Seq<u64>)
    requires
        ascending(a),
        ascending(b),
        a.to_multiset() == b.to_multiset(),
    ensures
        a == b,
        spec_summary(a) == spec_summary(b),
{
    let leq = |x: u64, y: u64| x <= y;
    assert(vstd::relations::sorted_by(a, leq));
    assert(vstd::relations::sorted_by(b, leq));
    assert(vstd::relations::total_ordering(leq));
    vstd::seq_lib::lemma_sorted_unique(a, b, leq);
}

/// Largest number of attempts whose room is reserved up front.
pub const MAX_RESERVED_ATTEMPTS: u64 = 1_000_000;

/// How many attempts to reserve room for: one per interval of the duration,
/// at most `MAX_RESERVED_ATTEMPTS`.
pub fn expected_attempts(options: &MeasureOptions) -> (attempts: usize)
    requires
        options.interval_ns > 0,
    ensures
        attempts == if options.duration_ns / options.interval_ns <= MAX_RESERVED_ATTEMPTS {
            options.duration_ns / options.interval_ns
        } else {
            MAX_RESERVED_ATTEMPTS
        },
{
    let per_interval = options.duration_ns / options.interval_ns;
    if per_interval <= MAX_RESERVED_ATTEMPTS {
        per_interval as usize
    } else {
        MAX_RESERVED_ATTEMPTS as usize
    }
}

/// The result of a measurement run, in nanoseconds.
#[derive(Clone, Copy, Debug)]
pub struct MeasurementSummary {
    pub schema_version: u8,
    pub mode: MeasureMode,
    pub requested_interval_ns: u64,
    pub requested_duration_ns: u64,
    pub elapsed_ns: u64,
    pub attempts: u64,
    pub samples_ready: u64,
    pub missed_deadlines: u64,
    pub attempt_duration_ns: LatencySummary,
    pub snapshot_duration_ns: Option<LatencySummary>,
}

/// Why a measurement produced no summary.
#[derive(Debug, PartialEq, Eq, Structural)]
pub enum MeasurementError {
    /// The run was stopped before its first attempt.
    NoAttempts,
}

/// What a measurement run has observed so far: the duration of every
/// attempt, the snapshot duration of every attempt that produced a
/// snapshot, and the deadlines missed.
pub struct Measurement {
    attempt_durations: Vec<u64>,
    snapshot_durations: Vec<u64>,
    missed_deadlines: u64,
}

impl Measurement {
    /// Attempt durations, in attempt order.
    pub closed spec fn spec_attempts(self) -> Seq<u64> {
        self.attempt_durations@
    }

    /// Snapshot durations of the attempts that produced a snapshot.
    pub closed spec fn spec_snapshots(self) -> Seq<u64> {
        self.snapshot_durations@
    }

    /// Deadlines missed so far.
    pub closed spec fn spec_missed(self) -> u64 {
        self.missed_deadlines
    }

    /// Every snapshot belongs to an attempt.
    pub open spec fn well_formed(self) -> bool {
        self.spec_snapshots().len() <= self.spec_attempts().len()
    }

    /// A run with nothing observed yet, with room for `expected` attempts.
    pub fn new(expected: usize) -> (run: Measurement)
        ensures
            run.well_formed(),
            run.spec_attempts() == Seq::<u64>::empty(),
            run.spec_snapshots() == Seq::<u64>::empty(),
            run.spec_missed() == 0,
    {
        Measurement {
            attempt_durations: Vec::with_capacity(expected),
            snapshot_durations: Vec::with_capacity(expected),
            missed_deadlines: 0,
        }
    }

    /// Records one attempt and, when it produced a snapshot, the snapshot's
    /// own duration.
    pub fn record_attempt(&mut self, attempt_ns: u64, snapshot_ns: Option<u64>)
        requires
            old(self).well_formed(),
        ensures
            final(self).well_formed(),
            final(self).spec_attempts() == old(self).spec_attempts().push(attempt_ns),
            final(self).spec_snapshots() == match snapshot_ns {
                Some(s) => old(self).spec_snapshots().push(s),
                None => old(self).spec_snapshots(),
            },
            final(self).spec_missed() == old(self).spec_missed(),
    {
        self.attempt_durations.push(attempt_ns);
        if let Some(s) = snapshot_ns {
            self.snapshot_durations.push(s);
        }
    }

    /// Counts `missed` more missed deadlines, saturating.
    pub fn add_missed(&mut self, missed: u64)
        requires
            old(self).well_formed(),
        ensures
            final(self).well_formed(),
            final(self).spec_missed() == if old(self).spec_missed() + missed <= u64::MAX {
                (old(self).spec_missed() + missed) as u64
            } else {
                u64::MAX
            },
            final(self).spec_attempts() == old(self).spec_attempts(),
            final(self).spec_snapshots() == old(self).spec_snapshots(),
    {
        self.missed_deadlines = self.missed_deadlines.saturating_add(missed);
    }

    /// The summary of the run, which took `elapsed_ns`: counts, and the
    /// latency distributions of attempts and snapshots. A run without
    /// attempts has no summary.
    pub fn finish(self, options: &MeasureOptions, elapsed_ns: u64) -> (summary: Result<
        MeasurementSummary,
        MeasurementError,
    >)
        requires
            self.well_formed(),
        ensures
            self.spec_attempts().len() == 0 ==> summary == Err::<MeasurementSummary, MeasurementError>(
                MeasurementError::NoAttempts,
            ),
            self.spec_attempts().len() > 0 ==> (summary matches Ok(s) && {
                &&& s.schema_version == SCHEMA_VERSION
                &&& s.mode == options.mode
                &&& s.requested_interval_ns == options.interval_ns
                &&& s.requested_duration_ns == options.duration_ns
                &&& s.elapsed_ns == elapsed_ns
                &&& s.attempts == self.spec_attempts().len()
                &&& s.samples_ready == self.spec_snapshots().len()
                &&& s.missed_deadlines == self.spec_missed()
                &&& exists|sorted: Seq<u64>|
                    ascending(sorted) && sorted.to_multiset() == self.spec_attempts().to_multiset()
                        && Some(s.attempt_duration_ns) == spec_summary(sorted)
                &&& exists|sorted: Seq<u64>|
                    ascending(sorted) && sorted.to_multiset() == self.spec_snapshots().to_multiset()
                        && s.snapshot_duration_ns == spec_summary(sorted)
            }),
    {
        let mut attempts = self.attempt_durations;
        let mut snapshots = self.snapshot_durations;
        if attempts.len() == 0 {
            return Err(MeasurementError::NoAttempts);
        }
        let attempt_count = attempts.len() as u64;
        let ready = snapshots.len() as u64;
        let attempt_summary = summarize(attempts.as_mut_slice());
        let snapshot_summary = summarize(snapshots.as_mut_slice());
        assert(ascending(attempts@) && attempts@.to_multiset() == self.spec_attempts().to_multiset());
        assert(ascending(snapshots@) && snapshots@.to_multiset() == self.spec_snapshots().to_multiset());
        assert(attempt_summary == spec_summary(attempts@));
        assert(snapshot_summary == spec_summary(snapshots@));
        let ghost wa = attempts@;
        assert(wa.len() == self.spec_attempts().len()) by {
            assert(wa.to_multiset().len() == wa.len());
            assert(self.spec_attempts().to_multiset().len() == self.spec_attempts().len());
        }
        let ghost ws = snapshots@;
        match attempt_summary {
            Some(a) => {
                assert(exists|sorted: Seq<u64>|
                    ascending(sorted) && sorted.to_multiset() == self.spec_attempts().to_multiset()
                        && Some(a) == spec_summary(sorted)) by {
                    assert(ascending(wa) && wa.to_multiset() == self.spec_attempts().to_multiset()
                        && Some(a) == spec_summary(wa));
                }
                assert(exists|sorted: Seq<u64>|
                    ascending(sorted) && sorted.to_multiset() == self.spec_snapshots().to_multiset()
                        && snapshot_summary == spec_summary(sorted)) by {
                    assert(ascending(ws) && ws.to_multiset() == self.spec_snapshots().to_multiset()
                        && snapshot_summary == spec_summary(ws));
                }
                Ok(
                MeasurementSummary {
                    schema_version: SCHEMA_VERSION,
                    mode: options.mode,
                    requested_interval_ns: options.interval_ns,
                    requested_duration_ns: options.duration_ns,
                    elapsed_ns,
                    attempts: attempt_count,
                    samples_ready: ready,
                    missed_deadlines: self.missed_deadlines,
                    attempt_duration_ns: a,
                    snapshot_duration_ns: snapshot_summary,
                },
            )
            },
            None => Err(MeasurementError::NoAttempts),
        }
    }
}

/// A measurement run on its schedule: deadlines every `interval_ns` from
/// `started_at` until `started_at + duration_ns`, with what was observed at
/// each. Every deadline counted so far (an attempt or a missed one) lies
/// within the duration.
pub struct MeasuredRun {
    observed: Measurement,
    options: MeasureOptions,
    started_at: u64,
    end: u64,
    next: u64,
}

impl MeasuredRun {
    /// What was observed so far.
    pub closed spec fn spec_observed(self) -> Measurement {
        self.observed
    }

    /// The next deadline.
    pub closed spec fn spec_next(self) -> u64 {
        self.next
    }

    /// When the run ends.
    pub closed spec fn spec_end(self) -> u64 {
        self.end
    }

    /// The options of the run.
    pub closed spec fn spec_options(self) -> MeasureOptions {
        self.options
    }

    /// Deadlines counted so far: attempts made and deadlines missed.
    pub open spec fn counted(self) -> nat {
        self.spec_observed().spec_attempts().len() + self.spec_observed().spec_missed() as nat
    }

    /// The invariant the schedule keeps: the counted deadlines are the first
    /// ones after the start, all within the duration, and the next one
    /// follows them.
    pub closed spec fn well_formed(self) -> bool {
        &&& self.observed.well_formed()
        &&& self.options.interval_ns > 0
        &&& self.options.duration_ns >= self.options.interval_ns
        &&& self.end == self.started_at + self.options.duration_ns
        &&& self.end + self.options.interval_ns <= u64::MAX
        &&& self.started_at + self.counted() * self.options.interval_ns <= self.end
        &&& self.next == self.started_at + (self.counted() + 1) * self.options.interval_ns
    }

    /// A run started at `started_at`, with nothing observed, its first
    /// deadline one interval later; `None` when the end of the run, plus one
    /// interval, would pass the clock's range.
    pub fn start(options: &MeasureOptions, started_at: u64) -> (run: Option<MeasuredRun>)
        requires
            options.interval_ns > 0,
            options.duration_ns >= options.interval_ns,
        ensures
            run is None <==> started_at + options.duration_ns + options.interval_ns > u64::MAX,
            run matches Some(r) ==> {
                &&& r.well_formed()
                &&& r.spec_options() == *options
                &&& r.spec_end() == started_at + options.duration_ns
                &&& r.spec_next() == started_at + options.interval_ns
                &&& r.spec_observed().spec_attempts().len() == 0
                &&& r.spec_observed().spec_snapshots().len() == 0
                &&& r.spec_observed().spec_missed() == 0
            },
    {
        if options.duration_ns > u64::MAX - started_at {
            return None;
        }
        let end = started_at + options.duration_ns;
        if options.interval_ns > u64::MAX - end {
            return None;
        }
        let run = MeasuredRun {
            observed: Measurement::new(expected_attempts(options)),
            options: *options,
            started_at,
            end,
            next: started_at + options.interval_ns,
        };
        assert(run.counted() == 0);
        assert(started_at + (0nat + 1) * options.interval_ns == started_at + options.interval_ns)
            by (nonlinear_arith);
        assert(started_at + 0nat * options.interval_ns == started_at) by (nonlinear_arith);
        Some(run)
    }

    /// The next deadline.
    pub fn next_deadline(&self) -> (deadline: u64)
        ensures
            deadline == self.spec_next(),
    {
        self.next
    }

    /// Whether another attempt is due: its deadline is within the run.
    pub fn attempt_due(&self) -> (due: bool)
        ensures
            due == (self.spec_next() <= self.spec_end()),
    {
        self.next <= self.end
    }

    /// The number of attempts made.
    pub fn attempts(&self) -> (count: usize)
        ensures
            count == self.spec_observed().spec_attempts().len(),
    {
        self.observed.attempt_durations.len()
    }

    /// Records the attempt due now, which took `attempt_ns` and, when it
    /// produced a snapshot, `snapshot_ns` of it; then moves the deadline past
    /// `now` (or past the end), counting as missed every deadline it skips:
    /// those before `now` and within the run.
    pub fn record(&mut self, attempt_ns: u64, snapshot_ns: Option<u64>, now: u64)
        requires
            old(self).well_formed(),
            old(self).spec_next() <= old(self).spec_end(),
        ensures
            final(self).well_formed(),
            final(self).spec_options() == old(self).spec_options(),
            final(self).spec_end() == old(self).spec_end(),
            final(self).spec_observed().spec_attempts() == old(self).spec_observed().spec_attempts().push(
                attempt_ns,
            ),
            final(self).spec_observed().spec_snapshots() == match snapshot_ns {
                Some(d) => old(self).spec_observed().spec_snapshots().push(d),
                None => old(self).spec_observed().spec_snapshots(),
            },
            final(self).spec_next() > final(self).spec_end() || final(self).spec_next() >= now,
            final(self).spec_observed().spec_missed() >= old(self).spec_observed().spec_missed(),
            final(self).spec_next() == old(self).spec_next() + (final(self).spec_observed().spec_missed()
                - old(self).spec_observed().spec_missed() + 1) * old(self).spec_options().interval_ns,
            forall|m: int|
                1 <= m <= final(self).spec_observed().spec_missed() - old(
                    self,
                ).spec_observed().spec_missed() ==> #[trigger] nth_deadline(
                    old(self).spec_next(),
                    old(self).spec_options().interval_ns,
                    m,
                ) < now && nth_deadline(
                    old(self).spec_next(),
                    old(self).spec_options().interval_ns,
                    m,
                ) <= old(self).spec_end(),
    {
        let interval = self.options.interval_ns;
        let previous = self.next;
        self.observed.record_attempt(attempt_ns, snapshot_ns);
        let (next, missed) = advance_deadline(self.next, interval, now, self.end);
        let ghost before = old(self).counted();
        assert(nth_deadline(previous, interval, missed as int) <= self.end) by {
            if missed == 0 {
                assert(nth_deadline(previous, interval, 0) == previous);
            } else {
                assert(1 <= missed as int <= missed);
                assert(nth_deadline(previous, interval, missed as int) <= self.end);
            }
        }
        assert(self.started_at + (before + 1 + missed) * interval <= self.end) by (nonlinear_arith)
            requires
                previous == self.started_at + (before + 1) * interval,
                nth_deadline(previous, interval, missed as int) <= self.end,
                nth_deadline(previous, interval, missed as int) == previous + missed * interval,
        ;
        assert(self.observed.spec_missed() + missed <= u64::MAX) by (nonlinear_arith)
            requires
                self.observed.spec_missed() <= before,
                self.started_at + (before + 1 + missed) * interval <= self.end,
                interval > 0,
                self.end <= u64::MAX,
        ;
        self.observed.add_missed(missed);
        self.next = next;
        assert(next == self.started_at + (before + 1 + missed + 1) * interval) by (nonlinear_arith)
            requires
                next == previous + (missed + 1) * interval,
                previous == self.started_at + (before + 1) * interval,
        ;
    }

    /// The summary of the run, which took `elapsed_ns`. Besides what
    /// `Measurement::finish` states, a summary counts at least one attempt,
    /// no more ready snapshots than attempts, at most one attempt or missed
    /// deadline per interval of the duration, and has snapshot latencies
    /// exactly when a snapshot was ready.
    pub fn finish(self, elapsed_ns: u64) -> (summary: Result<MeasurementSummary, MeasurementError>)
        requires
            self.well_formed(),
        ensures
            self.spec_observed().spec_attempts().len() == 0 ==> summary == Err::<
                MeasurementSummary,
                MeasurementError,
            >(MeasurementError::NoAttempts),
            summary matches Ok(s) ==> {
                &&& s.schema_version == SCHEMA_VERSION
                &&& s.attempts >= 1
                &&& s.samples_ready <= s.attempts
                &&& s.attempts + s.missed_deadlines <= self.spec_options().duration_ns
                    / self.spec_options().interval_ns
                &&& s.snapshot_duration_ns is Some <==> s.samples_ready > 0
                &&& s.attempts == self.spec_observed().spec_attempts().len()
                &&& s.samples_ready == self.spec_observed().spec_snapshots().len()
                &&& s.missed_deadlines == self.spec_observed().spec_missed()
                &&& s.mode == self.spec_options().mode
                &&& s.requested_interval_ns == self.spec_options().interval_ns
                &&& s.requested_duration_ns == self.spec_options().duration_ns
                &&& s.elapsed_ns == elapsed_ns
                &&& exists|sorted: Seq<u64>|
                    ascending(sorted) && sorted.to_multiset()
                        == self.spec_observed().spec_attempts().to_multiset() && Some(
                        s.attempt_duration_ns,
                    ) == spec_summary(sorted)
                &&& exists|sorted: Seq<u64>|
                    ascending(sorted) && sorted.to_multiset()
                        == self.spec_observed().spec_snapshots().to_multiset()
                        && s.snapshot_duration_ns == spec_summary(sorted)
            },
            self.spec_observed().spec_attempts().len() > 0 ==> summary is Ok,
    {
        proof {
            deadlines_fit_the_duration(
                self.started_at as nat,
                self.options.interval_ns as nat,
                self.options.duration_ns as nat,
                self.counted(),
            );
        }
        let options = self.options;
        let summary = self.observed.finish(&options, elapsed_ns);
        proof {
            if let Ok(s) = summary {
                let snaps = self.observed.spec_snapshots();
                let sorted = choose|sorted: Seq<u64>|
                    ascending(sorted) && sorted.to_multiset() == snaps.to_multiset()
                        && s.snapshot_duration_ns == spec_summary(sorted);
                assert(sorted.to_multiset().len() == sorted.len());
                assert(snaps.to_multiset().len() == snaps.len());
            }
        }
        summary
    }
}

} // verus!
