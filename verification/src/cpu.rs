//! CPU tick accounting: counter deltas with wrap-around, utilization shares,
//! and the baseline bookkeeping of the aggregate and per-core providers.
use vstd::prelude::*;

use crate::text::{signed_decimal, text_with_signed};

verus! {

/// A failure of one of the Mach host counter reads.
#[derive(Debug)]
pub enum CpuError {
    HostStatistics { status: i32 },
    HostProcessorInfo { status: i32 },
}

impl CpuError {
    /// The text this error displays.
    pub open spec fn spec_message(&self) -> Seq<char> {
        match self {
            CpuError::HostStatistics { status } => "host_statistics(HOST_CPU_LOAD_INFO) failed with kern_return_t "@
                + signed_decimal(*status as int),
            CpuError::HostProcessorInfo { status } => "host_processor_info(PROCESSOR_CPU_LOAD_INFO) failed with kern_return_t "@
                + signed_decimal(*status as int),
        }
    }

    /// Renders the error, including the native status code.
    pub fn message(&self) -> (text: String)
        ensures
            text@ == self.spec_message(),
    {
        match self {
            CpuError::HostStatistics { status } => text_with_signed(
                "host_statistics(HOST_CPU_LOAD_INFO) failed with kern_return_t ",
                *status as i64,
            ),
            CpuError::HostProcessorInfo { status } => text_with_signed(
                "host_processor_info(PROCESSOR_CPU_LOAD_INFO) failed with kern_return_t ",
                *status as i64,
            ),
        }
    }
}

/// Cumulative user, system, idle and nice ticks of one CPU (or of the host).
/// The counters are 32-bit and wrap around.
#[derive(Clone, Copy, Debug, PartialEq, Eq, Structural)]
pub struct CpuTicks {
    pub user: u32,
    pub system: u32,
    pub idle: u32,
    pub nice: u32,
}

/// Tick counts accumulated between two observations.
#[derive(Clone, Copy, Debug, PartialEq, Eq, Structural)]
pub struct CpuDeltas {
    pub user: u64,
    pub system: u64,
    pub idle: u64,
    pub nice: u64,
}

/// Utilization over an interval as exact shares of `total` ticks: each
/// ratio is its tick count divided by `total`, and `total` is never zero.
#[derive(Clone, Copy, Debug, PartialEq, Eq, Structural)]
pub struct CpuShares {
    pub user: u64,
    pub system: u64,
    pub idle: u64,
    pub nice: u64,
    pub total: u64,
}

/// Ticks elapsed on a 32-bit counter that moved from `previous` to
/// `current`, counting one wrap-around.
pub open spec fn counter_delta(current: u32, previous: u32) -> u64 {
    if current >= previous {
        (current - previous) as u64
    } else {
        (current + 0x1_0000_0000 - previous) as u64
    }
}

fn counter_delta_exec(current: u32, previous: u32) -> (delta: u64)
    ensures
        delta == counter_delta(current, previous),
{
    if current >= previous {
        (current - previous) as u64
    } else {
        (current as u64 + 0x1_0000_0000u64) - previous as u64
    }
}

impl CpuTicks {
    pub open spec fn spec_deltas_since(self, previous: Self) -> CpuDeltas {
        CpuDeltas {
            user: counter_delta(self.user, previous.user),
            system: counter_delta(self.system, previous.system),
            idle: counter_delta(self.idle, previous.idle),
            nice: counter_delta(self.nice, previous.nice),
        }
    }

    /// The ticks accumulated since `previous`, each counter modulo 2^32.
    pub fn deltas_since(self, previous: Self) -> (deltas: CpuDeltas)
        ensures
            deltas == self.spec_deltas_since(previous),
    {
        CpuDeltas {
            user: counter_delta_exec(self.user, previous.user),
            system: counter_delta_exec(self.system, previous.system),
            idle: counter_delta_exec(self.idle, previous.idle),
            nice: counter_delta_exec(self.nice, previous.nice),
        }
    }
}

impl CpuDeltas {
    pub open spec fn spec_total(self) -> int {
        self.user + self.system + self.idle + self.nice
    }

    /// The utilization shares of this interval, or `None` when no tick
    /// advanced.
    pub open spec fn spec_ratios(self) -> Option<CpuShares> {
        if self.spec_total() == 0 {
            None
        } else {
            Some(
                CpuShares {
                    user: self.user,
                    system: self.system,
                    idle: self.idle,
                    nice: self.nice,
                    total: self.spec_total() as u64,
                },
            )
        }
    }

    /// Utilization shares of this interval; `None` when no tick advanced.
    pub fn ratios(self) -> (shares: Option<CpuShares>)
        requires
            self.spec_total() <= u64::MAX,
        ensures
            shares == self.spec_ratios(),
    {
        let total = self.user + self.system + self.idle + self.nice;
        if total == 0 {
            return None;
        }
        Some(CpuShares { user: self.user, system: self.system, idle: self.idle, nice: self.nice, total })
    }
}

/// The interval between two tick observations: each counter delta is below
/// 2^32, so the total always fits in 64 bits.
pub open spec fn interval_shares(current: CpuTicks, previous: CpuTicks) -> Option<CpuShares> {
    current.spec_deltas_since(previous).spec_ratios()
}

fn shares_between(current: CpuTicks, previous: CpuTicks) -> (shares: Option<CpuShares>)
    ensures
        shares == interval_shares(current, previous),
{
    current.deltas_since(previous).ratios()
}

/// Utilization of one logical CPU.
#[derive(Clone, Copy, Debug, PartialEq, Eq, Structural)]
pub struct PerCoreShares {
    pub logical_cpu: u32,
    pub usage: CpuShares,
}

/// The per-core samples for the first `n` logical CPUs: one entry, in CPU
/// order, for every CPU whose ticks advanced.
pub open spec fn per_core_shares(current: Seq<CpuTicks>, previous: Seq<CpuTicks>, n: nat) -> Seq<
    PerCoreShares,
>
    decreases n,
{
    if n == 0 {
        Seq::empty()
    } else {
        let earlier = per_core_shares(current, previous, (n - 1) as nat);
        match interval_shares(current[n - 1], previous[n - 1]) {
            Some(usage) => earlier.push(PerCoreShares { logical_cpu: (n - 1) as u32, usage }),
            None => earlier,
        }
    }
}

/// Replaces `samples` with the utilization of every logical CPU whose
/// ticks advanced between `previous` and `current`, in CPU order.
pub fn build_per_core_samples(
    current: &[CpuTicks],
    previous: &[CpuTicks],
    samples: &mut Vec<PerCoreShares>,
)
    requires
        current@.len() == previous@.len(),
        current@.len() <= u32::MAX + 1,
    ensures
        final(samples)@ == per_core_shares(current@, previous@, current@.len()),
{
    samples.clear();
    let mut index: usize = 0;
    while index < current.len()
        invariant
            current@.len() == previous@.len(),
            current@.len() <= u32::MAX + 1,
            index <= current@.len(),
            samples@ == per_core_shares(current@, previous@, index as nat),
        decreases current@.len() - index,
    {
        if let Some(usage) = shares_between(current[index], previous[index]) {
            samples.push(PerCoreShares { logical_cpu: index as u32, usage });
        }
        index += 1;
    }
}

/// Aggregate host utilization between successive counter reads.
#[derive(Debug, Default)]
pub struct MachCpuProvider {
    previous: Option<CpuTicks>,
}

impl MachCpuProvider {
    /// The counters of the previous read, if any.
    pub closed spec fn baseline(self) -> Option<CpuTicks> {
        self.previous
    }

    /// A provider with no baseline.
    pub fn new() -> (provider: Self)
        ensures
            provider.baseline() is None,
    {
        MachCpuProvider { previous: None }
    }

    /// Takes the outcome of one read of the host counters. A failed read is
    /// passed on and leaves the baseline as it was; otherwise the counters
    /// become the baseline and the result is the utilization since the
    /// previous read (none on the first read).
    pub fn sample(&mut self, read: Result<CpuTicks, CpuError>) -> (usage: Result<
        Option<CpuShares>,
        CpuError,
    >)
        ensures
            match read {
                Err(e) => usage == Err::<Option<CpuShares>, CpuError>(e) && final(self).baseline()
                    == old(self).baseline(),
                Ok(current) => final(self).baseline() == Some(current) && usage == Ok::<
                    Option<CpuShares>,
                    CpuError,
                >(
                    match old(self).baseline() {
                        Some(previous) => interval_shares(current, previous),
                        None => None,
                    },
                ),
            },
    {
        let current = read?;
        let previous = self.previous;
        self.previous = Some(current);
        match previous {
            Some(previous) => Ok(shares_between(current, previous)),
            None => Ok(None),
        }
    }

    /// Discards the baseline and establishes a fresh one from `read`; after a
    /// failed read there is no baseline.
    pub fn reset(&mut self, read: Result<CpuTicks, CpuError>) -> (outcome: Result<(), CpuError>)
        ensures
            match read {
                Err(e) => outcome == Err::<(), CpuError>(e) && final(self).baseline() is None,
                Ok(current) => outcome is Ok && final(self).baseline() == Some(current),
            },
    {
        self.previous = None;
        match self.sample(read) {
            Ok(_) => Ok(()),
            Err(e) => Err(e),
        }
    }
}

/// Per-logical-CPU utilization between successive counter reads.
#[derive(Debug, Default)]
pub struct MachPerCoreProvider {
    previous: Vec<CpuTicks>,
    samples: Vec<PerCoreShares>,
}

impl MachPerCoreProvider {
    /// The per-CPU counters of the previous read (empty before any read).
    pub closed spec fn baseline(self) -> Seq<CpuTicks> {
        self.previous@
    }

    /// The utilization computed by the last read that produced one.
    pub closed spec fn current_samples(self) -> Seq<PerCoreShares> {
        self.samples@
    }

    /// A provider with no baseline and no samples.
    pub fn new() -> (provider: Self)
        ensures
            provider.baseline() == Seq::<CpuTicks>::empty(),
            provider.current_samples() == Seq::<PerCoreShares>::empty(),
    {
        MachPerCoreProvider { previous: Vec::new(), samples: Vec::new() }
    }

    /// Takes the outcome of one read of the per-CPU counters. A failed read
    /// is passed on and changes nothing. Otherwise the counters become the
    /// baseline, and the result is `true` when `samples()` holds utilization
    /// since the previous read; a first read or a change in the number of
    /// CPUs clears the samples and gives `false`.
    pub fn sample(&mut self, read: Result<Vec<CpuTicks>, CpuError>) -> (ready: Result<bool, CpuError>)
        requires
            read matches Ok(current) ==> current@.len() <= u32::MAX + 1,
        ensures
            match read {
                Err(e) => ready == Err::<bool, CpuError>(e) && final(self).baseline()
                    == old(self).baseline() && final(self).current_samples()
                    == old(self).current_samples(),
                Ok(current) => {
                    &&& final(self).baseline() == current@
                    &&& ready == Ok::<bool, CpuError>(old(self).baseline().len() == current@.len())
                    &&& old(self).baseline().len() == current@.len() ==> final(self).current_samples()
                        == per_core_shares(current@, old(self).baseline(), current@.len())
                    &&& old(self).baseline().len() != current@.len() ==> final(self).current_samples()
                        == Seq::<PerCoreShares>::empty()
                },
            },
    {
        let current = read?;
        if self.previous.len() != current.len() {
            self.previous = current;
            self.samples.clear();
            return Ok(false);
        }
        build_per_core_samples(current.as_slice(), self.previous.as_slice(), &mut self.samples);
        self.previous = current;
        Ok(true)
    }

    /// The utilization computed by the last successful read.
    pub fn samples(&self) -> (samples: &[PerCoreShares])
        ensures
            samples@ == self.current_samples(),
    {
        self.samples.as_slice()
    }

    /// Discards the baseline and the samples and establishes a fresh
    /// baseline from `read`; after a failed read there is no baseline.
    pub fn reset(&mut self, read: Result<Vec<CpuTicks>, CpuError>) -> (outcome: Result<(), CpuError>)
        requires
            read matches Ok(current) ==> current@.len() <= u32::MAX + 1,
        ensures
            final(self).current_samples() == Seq::<PerCoreShares>::empty(),
            match read {
                Err(e) => outcome == Err::<(), CpuError>(e) && final(self).baseline() == Seq::<
                    CpuTicks,
                >::empty(),
                Ok(current) => outcome is Ok && final(self).baseline() == current@,
            },
    {
        self.previous.clear();
        self.samples.clear();
        match self.sample(read) {
            Ok(_) => Ok(()),
            Err(e) => Err(e),
        }
    }
}

/// A counter delta is the advance that takes `previous` to `current` on a
/// 32-bit counter: it is below 2^32, and adding it to `previous` modulo 2^32
/// gives `current` back.
pub proof fn counter_delta_recovers_current(current: u32, previous: u32)
    ensures
        counter_delta(current, previous) < 0x1_0000_0000,
        (previous + counter_delta(current, previous)) % 0x1_0000_0000 == current as int,
{
    let d = counter_delta(current, previous) as int;
    if current >= previous {
        vstd::arithmetic::div_mod::lemma_small_mod(current as nat, 0x1_0000_0000);
    } else {
        assert(previous + d == current + 0x1_0000_0000);
        vstd::arithmetic::div_mod::lemma_mod_add_multiples_vanish(current as int, 0x1_0000_0000);
        vstd::arithmetic::div_mod::lemma_small_mod(current as nat, 0x1_0000_0000);
    }
}

/// The shares of an interval partition its ticks: user, system, idle and nice
/// add up to the total, which is positive; there are shares exactly when some
/// counter advanced.
pub proof fn shares_partition_ticks(deltas: CpuDeltas)
    requires
        deltas.spec_total() <= u64::MAX,
    ensures
        deltas.spec_ratios() is Some <==> deltas.spec_total() > 0,
        deltas.spec_ratios() matches Some(s) ==> s.user + s.system + s.idle + s.nice == s.total
            && s.total > 0,
{
}

/// At most one per-core entry per logical CPU.
pub proof fn lemma_per_core_shares_len(current: Seq<CpuTicks>, previous: Seq<CpuTicks>, n: nat)
    ensures
        per_core_shares(current, previous, n).len() <= n,
    decreases n,
{
    if n > 0 {
        lemma_per_core_shares_len(current, previous, (n - 1) as nat);
    }
}

/// Per-core entries come in CPU order, at most one per logical CPU: their
/// logical CPU numbers strictly increase and stay below the number of CPUs.
pub proof fn per_core_cpus_ascend(current: Seq<CpuTicks>, previous: Seq<CpuTicks>, n: nat)
    requires
        n <= u32::MAX + 1,
    ensures
        forall|a: int, b: int|
            0 <= a < b < per_core_shares(current, previous, n).len() ==> (#[trigger] per_core_shares(
                current,
                previous,
                n,
            )[a]).logical_cpu < (#[trigger] per_core_shares(current, previous, n)[b]).logical_cpu,
        forall|a: int|
            0 <= a < per_core_shares(current, previous, n).len() ==> (#[trigger] per_core_shares(
                current,
                previous,
                n,
            )[a]).logical_cpu < n,
    decreases n,
{
    if n > 0 {
        let m = (n - 1) as nat;
        per_core_cpus_ascend(current, previous, m);
        let earlier = per_core_shares(current, previous, m);
        let all = per_core_shares(current, previous, n);
        assert forall|a: int| 0 <= a < all.len() implies (#[trigger] all[a]).logical_cpu < n by {
            if a < earlier.len() {
                assert(all[a] == earlier[a]);
            }
        }
        assert forall|a: int, b: int| 0 <= a < b < all.len() implies (#[trigger] all[a]).logical_cpu
            < (#[trigger] all[b]).logical_cpu by {
            assert(all[a] == earlier[a]);
            if b < earlier.len() {
                assert(all[b] == earlier[b]);
            } else {
                assert(earlier[a].logical_cpu < m);
            }
        }
    }
}

/// Per-core entries are exactly the CPUs whose ticks advanced: each entry
/// carries its CPU's shares of the interval, and a CPU among the first `n`
/// has an entry exactly when its ticks advanced.
pub proof fn per_core_entries_are_the_advanced_cpus(current: Seq<CpuTicks>, previous: Seq<CpuTicks>, n: nat)
    requires
        n <= u32::MAX + 1,
    ensures
        forall|a: int|
            0 <= a < per_core_shares(current, previous, n).len() ==> Some(
                (#[trigger] per_core_shares(current, previous, n)[a]).usage,
            ) == interval_shares(
                current[per_core_shares(current, previous, n)[a].logical_cpu as int],
                previous[per_core_shares(current, previous, n)[a].logical_cpu as int],
            ),
        forall|k: int|
            0 <= k < n ==> (#[trigger] interval_shares(current[k], previous[k]) is Some <==> exists|a: int|
                0 <= a < per_core_shares(current, previous, n).len() && per_core_shares(
                    current,
                    previous,
                    n,
                )[a].logical_cpu == k),
    decreases n,
{
    if n > 0 {
        let m = (n - 1) as nat;
        per_core_entries_are_the_advanced_cpus(current, previous, m);
        per_core_cpus_ascend(current, previous, m);
        let earlier = per_core_shares(current, previous, m);
        let all = per_core_shares(current, previous, n);
        assert forall|a: int| 0 <= a < all.len() implies Some((#[trigger] all[a]).usage) == interval_shares(
            current[all[a].logical_cpu as int],
            previous[all[a].logical_cpu as int],
        ) by {
            if a < earlier.len() {
                assert(all[a] == earlier[a]);
            }
        }
        assert forall|k: int| 0 <= k < n implies (#[trigger] interval_shares(current[k], previous[k]) is Some
            <==> exists|a: int| 0 <= a < all.len() && all[a].logical_cpu == k) by {
            if k < m {
                if interval_shares(current[k], previous[k]) is Some {
                    let a = choose|a: int| 0 <= a < earlier.len() && earlier[a].logical_cpu == k;
                    assert(all[a] == earlier[a]);
                }
                if exists|a: int| 0 <= a < all.len() && all[a].logical_cpu == k {
                    let a = choose|a: int| 0 <= a < all.len() && all[a].logical_cpu == k;
                    if a < earlier.len() {
                        assert(all[a] == earlier[a]);
                    } else {
                        assert(all[a].logical_cpu == m);
                    }
                }
            } else {
                if interval_shares(current[k], previous[k]) is Some {
                    assert(all[earlier.len() as int].logical_cpu == k);
                }
                if exists|a: int| 0 <= a < all.len() && all[a].logical_cpu == k {
                    let a = choose|a: int| 0 <= a < all.len() && all[a].logical_cpu == k;
                    if a < earlier.len() {
                        assert(all[a] == earlier[a]);
                        assert(earlier[a].logical_cpu < m);
                    }
                }
            }
        }
    }
}

} // verus!
