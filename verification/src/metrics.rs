//! Core labels of the IOReport CPU performance-state channels and the order
//! in which cores are listed.
use vstd::prelude::*;
use vstd::string::StringExecFns;

use crate::text::{
    chars_of, compare_text, contains_str, contains_text, decimal, digit_char, ends_with, has_prefix, has_suffix, push_char,
    push_decimal, starts_with,
};

verus! {

/// Whether `c` is an ASCII decimal digit.
pub open spec fn is_digit(c: char) -> bool {
    '0' <= c && c <= '9'
}

/// The maximal run of digits at the end of `s`.
pub open spec fn trailing_digits(s: Seq<char>) -> Seq<char>
    decreases s.len(),
{
    if s.len() > 0 && is_digit(s.last()) {
        trailing_digits(s.drop_last()).push(s.last())
    } else {
        Seq::empty()
    }
}

/// The last maximal run of digits in `s` (empty when `s` has no digit).
pub open spec fn last_digit_run(s: Seq<char>) -> Seq<char>
    decreases s.len(),
{
    if s.len() == 0 {
        Seq::empty()
    } else if is_digit(s.last()) {
        trailing_digits(s)
    } else {
        last_digit_run(s.drop_last())
    }
}

/// The value of a run of decimal digits.
pub open spec fn digits_value(digits: Seq<char>) -> nat
    decreases digits.len(),
{
    if digits.len() == 0 {
        0
    } else {
        digits_value(digits.drop_last()) * 10 + ((digits.last() as nat) - 48) as nat
    }
}

/// Whether every character of `s` is a digit.
pub open spec fn all_digits(s: Seq<char>) -> bool {
    forall|i: int| 0 <= i < s.len() ==> is_digit(#[trigger] s[i])
}

/// `u32::from_str`: an optional `+` followed by at least one digit, with a
/// value that fits in 32 bits.
pub open spec fn parse_u32(s: Seq<char>) -> Option<u32> {
    let body = if s.len() > 0 && s[0] == '+' {
        s.drop_first()
    } else {
        s
    };
    if body.len() > 0 && all_digits(body) && digits_value(body) <= u32::MAX {
        Some(digits_value(body) as u32)
    } else {
        None
    }
}

/// The cluster letter of a CPU channel name: `E` for efficiency cores, `P`
/// for performance cores, `C` otherwise.
pub open spec fn cluster_letter(channel: Seq<char>) -> char {
    if contains_text(channel, "ECPU"@) {
        'E'
    } else if contains_text(channel, "PCPU"@) {
        'P'
    } else {
        'C'
    }
}

/// The label of a CPU channel: its cluster letter followed by the last
/// number in its name, or the name itself when it holds no number that fits
/// in 32 bits.
pub open spec fn spec_core_label(channel: Seq<char>) -> Seq<char> {
    let run = last_digit_run(channel);
    if run.len() > 0 && digits_value(run) <= u32::MAX {
        seq![cluster_letter(channel)] + decimal(digits_value(run))
    } else {
        channel
    }
}

proof fn lemma_skip_non_digits(s: Seq<char>, e: int)
    requires
        0 <= e <= s.len(),
        forall|k: int| e <= k < s.len() ==> !is_digit(#[trigger] s[k]),
    ensures
        last_digit_run(s) == last_digit_run(s.subrange(0, e)),
    decreases s.len() - e,
{
    if e < s.len() {
        assert(s.drop_last() =~= s.subrange(0, s.len() - 1));
        lemma_skip_non_digits(s.drop_last(), e);
        assert(s.drop_last().subrange(0, e) =~= s.subrange(0, e));
    } else {
        assert(s.subrange(0, e) =~= s);
    }
}

proof fn lemma_trailing_digits(s: Seq<char>, start: int)
    requires
        0 <= start <= s.len(),
        forall|k: int| start <= k < s.len() ==> is_digit(#[trigger] s[k]),
        start == 0 || !is_digit(s[start - 1]),
    ensures
        trailing_digits(s) == s.subrange(start, s.len() as int),
    decreases s.len(),
{
    if s.len() > start {
        lemma_trailing_digits(s.drop_last(), start);
        assert(s.drop_last().subrange(start, s.len() - 1).push(s.last()) =~= s.subrange(
            start,
            s.len() as int,
        ));
    } else {
        assert(s.subrange(start, s.len() as int) =~= Seq::<char>::empty());
    }
}

proof fn lemma_digits_value_grows(digits: Seq<char>, k: int)
    requires
        0 <= k <= digits.len(),
        all_digits(digits),
    ensures
        digits_value(digits.subrange(0, k)) <= digits_value(digits),
    decreases digits.len(),
{
    if k < digits.len() {
        assert(all_digits(digits.drop_last()));
        lemma_digits_value_grows(digits.drop_last(), k);
        assert(digits.drop_last().subrange(0, k) =~= digits.subrange(0, k));
    } else {
        assert(digits.subrange(0, k) =~= digits);
    }
}

fn digit(c: char) -> (d: bool)
    ensures
        d == is_digit(c),
{
    '0' <= c && c <= '9'
}

/// The value of the digits `chars[start..end]`, or `None` when it exceeds
/// `u32::MAX`.
fn digits_u32(chars: &[char], start: usize, end: usize) -> (value: Option<u32>)
    requires
        start <= end <= chars@.len(),
        all_digits(chars@.subrange(start as int, end as int)),
    ensures
        value == if digits_value(chars@.subrange(start as int, end as int)) <= u32::MAX {
            Some(digits_value(chars@.subrange(start as int, end as int)) as u32)
        } else {
            None
        },
{
    let ghost run = chars@.subrange(start as int, end as int);
    let mut value: u64 = 0;
    let mut i: usize = start;
    while i < end
        invariant
            start <= i <= end <= chars@.len(),
            run == chars@.subrange(start as int, end as int),
            all_digits(run),
            value == digits_value(run.subrange(0, i - start)),
            value <= u32::MAX,
        decreases end - i,
    {
        assert(run.subrange(0, i + 1 - start).drop_last() =~= run.subrange(0, i - start));
        assert(run[i - start] == chars@[i as int]);
        let d = (chars[i] as u32 - 48) as u64;
        value = value * 10 + d;
        if value > 0xffff_ffffu64 {
            proof {
                lemma_digits_value_grows(run, i + 1 - start);
            }
            return None;
        }
        i += 1;
    }
    assert(run.subrange(0, end - start) =~= run);
    Some(value as u32)
}

/// The label of a CPU performance-state channel, such as `E30` for
/// `ECPU030` or `P12` for `PCPU1 012`.
pub fn core_label_from_channel(channel: &str) -> (label: String)
    ensures
        label@ == spec_core_label(channel@),
{
    let chars = chars_of(channel);
    let letter = if contains_str(channel, "ECPU") {
        'E'
    } else if contains_str(channel, "PCPU") {
        'P'
    } else {
        'C'
    };
    let mut end = chars.len();
    while end > 0 && !digit(chars[end - 1])
        invariant
            end <= chars@.len(),
            forall|k: int| end <= k < chars@.len() ==> !is_digit(#[trigger] chars@[k]),
        decreases end,
    {
        end -= 1;
    }
    let mut start = end;
    while start > 0 && digit(chars[start - 1])
        invariant
            start <= end <= chars@.len(),
            forall|k: int| start <= k < end ==> is_digit(#[trigger] chars@[k]),
        decreases start,
    {
        start -= 1;
    }
    proof {
        lemma_skip_non_digits(chars@, end as int);
        let prefix = chars@.subrange(0, end as int);
        if end > 0 {
            lemma_trailing_digits(prefix, start as int);
            assert(prefix.subrange(start as int, end as int) =~= chars@.subrange(
                start as int,
                end as int,
            ));
        }
        assert(all_digits(chars@.subrange(start as int, end as int)));
    }
    if start == end {
        return String::from_str(channel);
    }
    match digits_u32(chars.as_slice(), start, end) {
        Some(index) => {
            let mut label = String::new();
            push_char(&mut label, letter);
            push_decimal(&mut label, index as u64);
            assert(label@ =~= seq![letter] + decimal(index as nat));
            label
        },
        None => String::from_str(channel),
    }
}

/// The sort key of a core label: cluster rank (`E` before `P` before
/// others), the number after the first character (0 when it is not a
/// `u32`), then the label itself.
pub open spec fn spec_core_sort_key(label: Seq<char>) -> (u8, u32, Seq<char>) {
    let rank: u8 = if label.len() > 0 && label[0] == 'E' {
        0
    } else if label.len() > 0 && label[0] == 'P' {
        1
    } else {
        2
    };
    let rest = if label.len() > 0 {
        label.drop_first()
    } else {
        label
    };
    let index = match parse_u32(rest) {
        Some(n) => n,
        None => 0,
    };
    (rank, index, label)
}

/// `u32::from_str` on the characters `chars[start..]`.
fn parse_u32_from(chars: &[char], start: usize) -> (value: Option<u32>)
    requires
        start <= chars@.len(),
    ensures
        value == parse_u32(chars@.subrange(start as int, chars@.len() as int)),
{
    let ghost s = chars@.subrange(start as int, chars@.len() as int);
    let mut body = start;
    if body < chars.len() && chars[body] == '+' {
        body += 1;
    }
    let ghost b = chars@.subrange(body as int, chars@.len() as int);
    assert(b =~= if s.len() > 0 && s[0] == '+' {
        s.drop_first()
    } else {
        s
    });
    if body == chars.len() {
        return None;
    }
    let mut i = body;
    while i < chars.len()
        invariant
            body <= i <= chars@.len(),
            forall|k: int| body <= k < i ==> is_digit(#[trigger] chars@[k]),
            s == chars@.subrange(start as int, chars@.len() as int),
            b == chars@.subrange(body as int, chars@.len() as int),
            b == if s.len() > 0 && s[0] == '+' {
                s.drop_first()
            } else {
                s
            },
        decreases chars@.len() - i,
    {
        if !digit(chars[i]) {
            assert(b[i - body] == chars@[i as int]);
            return None;
        }
        i += 1;
    }
    assert forall|k: int| 0 <= k < b.len() implies is_digit(#[trigger] b[k]) by {
        assert(b[k] == chars@[body + k]);
    }
    digits_u32(chars, body, chars.len())
}

/// The order in which cores are listed.
pub fn core_sort_key(label: &str) -> (key: (u8, u32, String))
    ensures
        key.0 == spec_core_sort_key(label@).0,
        key.1 == spec_core_sort_key(label@).1,
        key.2@ == label@,
{
    let chars = chars_of(label);
    let rank: u8 = if chars.len() > 0 && chars[0] == 'E' {
        0
    } else if chars.len() > 0 && chars[0] == 'P' {
        1
    } else {
        2
    };
    let rest_start: usize = if chars.len() > 0 {
        1
    } else {
        0
    };
    assert(chars@.subrange(rest_start as int, chars@.len() as int) =~= if chars@.len() > 0 {
        chars@.drop_first()
    } else {
        chars@
    });
    let index = match parse_u32_from(chars.as_slice(), rest_start) {
        Some(n) => n,
        None => 0,
    };
    (rank, index, String::from_str(label))
}

/// What an IOReport channel contributes to a sample: the residencies of one
/// efficiency or performance core, or the energy of the GPU, the CPU or the
/// neural engine.
#[derive(Clone, Copy, Debug, PartialEq, Eq, Structural)]
pub enum ChannelRole {
    EfficiencyCore,
    PerformanceCore,
    GpuEnergy,
    CpuEnergy,
    AneEnergy,
    Ignored,
}

/// Whether a channel belongs to the per-core CPU performance states.
pub open spec fn is_core_states(group: Seq<char>, subgroup: Seq<char>) -> bool {
    group == "CPU Stats"@ && subgroup == "CPU Core Performance States"@
}

/// The role of the channel `channel` of `group` and `subgroup`: core
/// channels are told apart by `ECPU` or `PCPU` in their name; in the energy
/// model, `GPU Energy` is the GPU, a name ending in `CPU Energy` a CPU
/// cluster, and a name starting with `ANE` the neural engine.
pub open spec fn spec_channel_role(group: Seq<char>, subgroup: Seq<char>, channel: Seq<char>) -> ChannelRole {
    if is_core_states(group, subgroup) && contains_text(channel, "ECPU"@) {
        ChannelRole::EfficiencyCore
    } else if is_core_states(group, subgroup) && contains_text(channel, "PCPU"@) {
        ChannelRole::PerformanceCore
    } else if group == "Energy Model"@ && channel == "GPU Energy"@ {
        ChannelRole::GpuEnergy
    } else if group == "Energy Model"@ && has_suffix(channel, "CPU Energy"@) {
        ChannelRole::CpuEnergy
    } else if group == "Energy Model"@ && has_prefix(channel, "ANE"@) {
        ChannelRole::AneEnergy
    } else {
        ChannelRole::Ignored
    }
}

/// The role of one sampled IOReport channel.
pub fn channel_role(group: &str, subgroup: &str, channel: &str) -> (role: ChannelRole)
    ensures
        role == spec_channel_role(group@, subgroup@, channel@),
{
    let core_states = compare_text(group, "CPU Stats").1 && compare_text(
        subgroup,
        "CPU Core Performance States",
    ).1;
    if core_states && contains_str(channel, "ECPU") {
        return ChannelRole::EfficiencyCore;
    }
    if core_states && contains_str(channel, "PCPU") {
        return ChannelRole::PerformanceCore;
    }
    if compare_text(group, "Energy Model").1 {
        if compare_text(channel, "GPU Energy").1 {
            return ChannelRole::GpuEnergy;
        }
        if ends_with(channel, "CPU Energy") {
            return ChannelRole::CpuEnergy;
        }
        if starts_with(channel, "ANE") {
            return ChannelRole::AneEnergy;
        }
    }
    ChannelRole::Ignored
}

/// Whether a residency state is one in which the core does no work.
pub open spec fn is_inactive_state(name: Seq<char>) -> bool {
    name == "IDLE"@ || name == "DOWN"@ || name == "OFF"@
}

/// The index of the first active state at or after `i`.
pub open spec fn first_active_from(names: Seq<Seq<char>>, i: nat) -> Option<nat>
    decreases names.len() - i,
{
    if i >= names.len() {
        None
    } else if !is_inactive_state(names[i as int]) {
        Some(i)
    } else {
        first_active_from(names, i + 1)
    }
}

/// Where the active states of a core's residencies begin, when they can be
/// matched with `freq_count` frequencies: there must be frequencies, more
/// states than frequencies, an active state, and room for one state per
/// frequency from the first active one on.
pub open spec fn spec_active_offset(names: Seq<Seq<char>>, freq_count: nat) -> Option<nat> {
    if freq_count == 0 || names.len() <= freq_count {
        None
    } else {
        match first_active_from(names, 0) {
            None => None,
            Some(offset) => if names.len() < offset + freq_count {
                None
            } else {
                Some(offset)
            },
        }
    }
}

/// The first active state of a core's residency states (named in state
/// order) for a core with `freq_count` frequencies, or `None` when the
/// residencies cannot be matched with the frequencies.
pub fn active_offset(names: &[String], freq_count: usize) -> (offset: Option<usize>)
    ensures
        offset matches Some(o) ==> spec_active_offset(name_views(names@), freq_count as nat) == Some(
            o as nat,
        ),
        offset is None ==> spec_active_offset(name_views(names@), freq_count as nat) is None,
{
    let ghost views = name_views(names@);
    assert(views.len() == names@.len());
    if freq_count == 0 || names.len() <= freq_count {
        return None;
    }
    let mut i: usize = 0;
    while i < names.len()
        invariant
            views == name_views(names@),
            views.len() == names@.len(),
            0 < freq_count < names@.len(),
            i <= names@.len(),
            first_active_from(views, 0) == first_active_from(views, i as nat),
        decreases names@.len() - i,
    {
        let name = names[i].as_str();
        let inactive = compare_text(name, "IDLE").1 || compare_text(name, "DOWN").1 || compare_text(
            name,
            "OFF",
        ).1;
        assert(views[i as int] == names@[i as int]@);
        if !inactive {
            assert(first_active_from(views, i as nat) == Some(i as nat));
            assert(views.len() == names@.len());
            if names.len() - i < freq_count {
                return None;
            }
            return Some(i);
        }
        i += 1;
    }
    None
}

/// Type code `flt ` of single-precision SMC values.
pub const FLOAT_TYPE: u32 = 1718383648;

/// Which temperature average a sensor feeds.
#[derive(Clone, Copy, Debug, PartialEq, Eq, Structural)]
pub enum TemperatureGroup {
    Cpu,
    Gpu,
}

/// What probing one SMC key at start-up found: its name, its size and type
/// when its metadata could be read, and whether its value could be read.
#[derive(Debug)]
pub struct KeyProbe {
    pub name: String,
    pub info: Option<(u32, u32)>,
    pub readable: bool,
}

/// The temperature group of an SMC key: a readable four-byte float whose
/// name starts with `Tp` or `Te` (CPU) or `Tg` (GPU).
pub open spec fn spec_smc_group(probe: KeyProbe) -> Option<TemperatureGroup> {
    if !(probe.info matches Some((size, kind)) && size == 4 && kind == FLOAT_TYPE) || !probe.readable {
        None
    } else if has_prefix(probe.name@, "Tp"@) || has_prefix(probe.name@, "Te"@) {
        Some(TemperatureGroup::Cpu)
    } else if has_prefix(probe.name@, "Tg"@) {
        Some(TemperatureGroup::Gpu)
    } else {
        None
    }
}

/// The temperature group of a probed SMC key, if it is a temperature
/// sensor.
pub fn smc_group(probe: &KeyProbe) -> (group: Option<TemperatureGroup>)
    ensures
        group == spec_smc_group(*probe),
{
    let float_sized = match probe.info {
        Some((size, kind)) => size == 4 && kind == FLOAT_TYPE,
        None => false,
    };
    if !float_sized || !probe.readable {
        return None;
    }
    if starts_with(probe.name.as_str(), "Tp") || starts_with(probe.name.as_str(), "Te") {
        Some(TemperatureGroup::Cpu)
    } else if starts_with(probe.name.as_str(), "Tg") {
        Some(TemperatureGroup::Gpu)
    } else {
        None
    }
}

/// The temperature group of an HID sensor: the `pACC`/`eACC MTR Temp
/// Sensor` sensors are CPU, the `GPU MTR Temp Sensor` sensors are GPU.
pub open spec fn spec_hid_group(name: Seq<char>) -> Option<TemperatureGroup> {
    if has_prefix(name, "pACC MTR Temp Sensor"@) || has_prefix(name, "eACC MTR Temp Sensor"@) {
        Some(TemperatureGroup::Cpu)
    } else if has_prefix(name, "GPU MTR Temp Sensor"@) {
        Some(TemperatureGroup::Gpu)
    } else {
        None
    }
}

/// The temperature group of the HID sensor called `name`.
pub fn hid_group(name: &str) -> (group: Option<TemperatureGroup>)
    ensures
        group == spec_hid_group(name@),
{
    if starts_with(name, "pACC MTR Temp Sensor") || starts_with(name, "eACC MTR Temp Sensor") {
        Some(TemperatureGroup::Cpu)
    } else if starts_with(name, "GPU MTR Temp Sensor") {
        Some(TemperatureGroup::Gpu)
    } else {
        None
    }
}

/// The names of the probes in `group`, in probe order.
pub open spec fn group_names(probes: Seq<KeyProbe>, group: TemperatureGroup) -> Seq<Seq<char>>
    decreases probes.len(),
{
    if probes.len() == 0 {
        Seq::empty()
    } else if spec_smc_group(probes.last()) == Some(group) {
        group_names(probes.drop_last(), group).push(probes.last().name@)
    } else {
        group_names(probes.drop_last(), group)
    }
}

/// The views of a sequence of names.
pub open spec fn name_views(names: Seq<String>) -> Seq<Seq<char>> {
    names.map_values(|n: String| n@)
}

/// The SMC temperature keys the sampler averages, chosen once at start-up.
#[derive(Debug)]
pub struct Sampler {
    smc_cpu_keys: Vec<String>,
    smc_gpu_keys: Vec<String>,
}

impl Sampler {
    /// The CPU temperature keys, in probe order.
    pub closed spec fn spec_cpu_keys(self) -> Seq<Seq<char>> {
        name_views(self.smc_cpu_keys@)
    }

    /// The GPU temperature keys, in probe order.
    pub closed spec fn spec_gpu_keys(self) -> Seq<Seq<char>> {
        name_views(self.smc_gpu_keys@)
    }

    /// The sampler whose temperature keys are the probed keys that are CPU
    /// or GPU temperature sensors.
    pub fn new(probes: &[KeyProbe]) -> (sampler: Sampler)
        ensures
            sampler.spec_cpu_keys() == group_names(probes@, TemperatureGroup::Cpu),
            sampler.spec_gpu_keys() == group_names(probes@, TemperatureGroup::Gpu),
    {
        let mut cpu: Vec<String> = Vec::new();
        let mut gpu: Vec<String> = Vec::new();
        let mut i: usize = 0;
        while i < probes.len()
            invariant
                i <= probes@.len(),
                name_views(cpu@) == group_names(probes@.take(i as int), TemperatureGroup::Cpu),
                name_views(gpu@) == group_names(probes@.take(i as int), TemperatureGroup::Gpu),
            decreases probes@.len() - i,
        {
            let probe = &probes[i];
            assert(probes@.take(i + 1).drop_last() =~= probes@.take(i as int));
            match smc_group(probe) {
                Some(TemperatureGroup::Cpu) => {
                    cpu.push(probe.name.clone());
                    assert(name_views(cpu@) =~= group_names(probes@.take(i + 1), TemperatureGroup::Cpu));
                    assert(name_views(gpu@) =~= group_names(probes@.take(i + 1), TemperatureGroup::Gpu));
                },
                Some(TemperatureGroup::Gpu) => {
                    gpu.push(probe.name.clone());
                    assert(name_views(cpu@) =~= group_names(probes@.take(i + 1), TemperatureGroup::Cpu));
                    assert(name_views(gpu@) =~= group_names(probes@.take(i + 1), TemperatureGroup::Gpu));
                },
                None => {
                    assert(name_views(cpu@) =~= group_names(probes@.take(i + 1), TemperatureGroup::Cpu));
                    assert(name_views(gpu@) =~= group_names(probes@.take(i + 1), TemperatureGroup::Gpu));
                },
            }
            i += 1;
        }
        assert(probes@.take(probes@.len() as int) =~= probes@);
        Sampler { smc_cpu_keys: cpu, smc_gpu_keys: gpu }
    }

    /// Whether temperatures come from the SMC keys (when any CPU key was
    /// found) rather than from the HID sensors.
    pub fn uses_smc_temperatures(&self) -> (smc: bool)
        ensures
            smc == (self.spec_cpu_keys().len() > 0),
    {
        self.smc_cpu_keys.len() > 0
    }

    /// The CPU temperature keys.
    pub fn cpu_keys(&self) -> (keys: &[String])
        ensures
            name_views(keys@) == self.spec_cpu_keys(),
    {
        self.smc_cpu_keys.as_slice()
    }

    /// The GPU temperature keys.
    pub fn gpu_keys(&self) -> (keys: &[String])
        ensures
            name_views(keys@) == self.spec_gpu_keys(),
    {
        self.smc_gpu_keys.as_slice()
    }
}

/// `10^k`.
pub open spec fn ten_pow(k: nat) -> nat
    decreases k,
{
    if k == 0 {
        1
    } else {
        10 * ten_pow((k - 1) as nat)
    }
}

/// The value of a run of decimal digits read from the front: each digit
/// weighted by ten to the number of digits after it.
pub open spec fn positional_value(digits: Seq<char>) -> int
    decreases digits.len(),
{
    if digits.len() == 0 {
        0
    } else {
        ((digits[0] as int) - 48) * ten_pow((digits.len() - 1) as nat) + positional_value(digits.drop_first())
    }
}

/// Reading digits from the back (`digits_value`) and from the front
/// (`positional_value`) gives the same number.
proof fn lemma_positional_value(digits: Seq<char>)
    requires
        all_digits(digits),
    ensures
        positional_value(digits) == digits_value(digits),
    decreases digits.len(),
{
    if digits.len() > 0 {
        let n = digits.len();
        let init = digits.drop_last();
        let rest = digits.drop_first();
        assert(is_digit(digits[n - 1]));
        assert(('0' as int) == 48);
        assert((digits[n - 1] as int) >= 48);
        assert(is_digit(digits[0]));
        assert((digits[0] as int) >= 48);
        assert(all_digits(init)) by {
            assert forall|i: int| 0 <= i < init.len() implies is_digit(#[trigger] init[i]) by {
                assert(init[i] == digits[i]);
            }
        }
        assert(all_digits(rest)) by {
            assert forall|i: int| 0 <= i < rest.len() implies is_digit(#[trigger] rest[i]) by {
                assert(rest[i] == digits[i + 1]);
            }
        }
        lemma_positional_value(init);
        if n > 1 {
            assert(all_digits(rest.drop_last())) by {
                assert forall|i: int| 0 <= i < rest.drop_last().len() implies is_digit(#[trigger] rest.drop_last()[i]) by {
                    assert(rest.drop_last()[i] == digits[i + 1]);
                }
            }
            lemma_positional_value(rest);
            lemma_positional_value(rest.drop_last());
            assert(rest.drop_last() =~= init.drop_first());
            assert(rest.last() == digits.last());
            assert(init[0] == digits[0]);
            let d0 = (digits[0] as int) - 48;
            assert(ten_pow((n - 1) as nat) == 10 * ten_pow((n - 2) as nat));
            assert(d0 * ten_pow((n - 1) as nat) == (d0 * ten_pow((n - 2) as nat)) * 10) by (nonlinear_arith)
                requires
                    ten_pow((n - 1) as nat) == 10 * ten_pow((n - 2) as nat),
            ;
            assert(positional_value(init) == d0 * ten_pow((n - 2) as nat) + positional_value(init.drop_first()));
            let last = ((digits.last() as nat) - 48) as nat;
            let inner = positional_value(rest.drop_last());
            assert(digits_value(digits) == digits_value(init) * 10 + last);
            assert(digits_value(rest) == digits_value(rest.drop_last()) * 10 + last);
            assert(positional_value(digits) == d0 * ten_pow((n - 1) as nat) + positional_value(rest));
            assert((d0 * ten_pow((n - 2) as nat) + inner) * 10 + last == (d0 * ten_pow((n - 2) as nat)) * 10 + (
            inner * 10 + last)) by (nonlinear_arith);
            assert(digits_value(init) == positional_value(init));
            assert(digits_value(rest.drop_last()) == inner);
            assert(positional_value(rest) == digits_value(rest));
            assert(positional_value(digits) == digits_value(digits));
        } else {
            assert(rest.len() == 0);
            assert(init.len() == 0);
            assert(digits.last() == digits[0]);
            assert(digits_value(digits) == digits_value(init) * 10 + ((digits.last() as nat) - 48) as nat);
            assert(positional_value(digits) == ((digits[0] as int) - 48) * ten_pow(0) + positional_value(rest));
            assert(ten_pow(0) == 1);
            assert(((digits[0] as int) - 48) * ten_pow(0) == (digits[0] as int) - 48) by (nonlinear_arith)
                requires
                    ten_pow(0) == 1,
            ;
            assert(positional_value(rest) == 0);
            assert(digits_value(init) == 0);
            assert(((digits[0] as nat) - 48) as nat == (digits[0] as int) - 48);
            assert(digits_value(digits) == ((digits[0] as nat) - 48) as nat);
            assert(positional_value(digits) == (digits[0] as int) - 48);
        }
    }
}

/// The trailing digits of a name are digits.
proof fn lemma_trailing_run_digits(s: Seq<char>)
    ensures
        all_digits(trailing_digits(s)),
    decreases s.len(),
{
    if s.len() > 0 && is_digit(s.last()) {
        lemma_trailing_run_digits(s.drop_last());
        let t = trailing_digits(s);
        assert forall|i: int| 0 <= i < t.len() implies is_digit(#[trigger] t[i]) by {
            if i < t.len() - 1 {
                assert(t[i] == trailing_digits(s.drop_last())[i]);
            }
        }
    }
}

/// The last run of digits of a name is made of digits.
proof fn lemma_last_run_digits(s: Seq<char>)
    ensures
        all_digits(last_digit_run(s)),
    decreases s.len(),
{
    if s.len() > 0 {
        if is_digit(s.last()) {
            lemma_trailing_run_digits(s);
        } else {
            lemma_last_run_digits(s.drop_last());
        }
    }
}

/// The digit character for `d` is a digit with code `48 + d`.
proof fn lemma_digit_char(d: nat)
    requires
        d < 10,
    ensures
        digit_char(d) as int == 48 + d,
        is_digit(digit_char(d)),
{
    assert(('0' as u8) == 48);
}

/// The decimal text of `n` is a non-empty run of digits that reads back as
/// `n`.
proof fn lemma_decimal_reads_back(n: nat)
    ensures
        decimal(n).len() > 0,
        all_digits(decimal(n)),
        digits_value(decimal(n)) == n,
    decreases n,
{
    lemma_digit_char(n % 10);
    if n < 10 {
        assert(n % 10 == n);
        let d = decimal(n);
        assert(d == seq![digit_char(n)]);
        assert(d.drop_last() =~= Seq::<char>::empty());
        assert(d.last() == digit_char(n));
        assert(digits_value(d) == digits_value(d.drop_last()) * 10 + ((d.last() as nat) - 48) as nat);
    } else {
        lemma_decimal_reads_back(n / 10);
        let d = decimal(n);
        assert(d == decimal(n / 10).push(digit_char(n % 10)));
        assert(d.drop_last() =~= decimal(n / 10));
        assert forall|i: int| 0 <= i < d.len() implies is_digit(#[trigger] d[i]) by {
            if i < d.len() - 1 {
                assert(d[i] == decimal(n / 10)[i]);
            }
        }
        assert(d.last() == digit_char(n % 10));
        assert(digits_value(d) == digits_value(d.drop_last()) * 10 + ((d.last() as nat) - 48) as nat);
        assert((n / 10) * 10 + n % 10 == n);
    }
}

/// A core label keeps the channel's number: when the last run of digits in
/// the channel name is a number `n` that fits in 32 bits, the label is the
/// cluster letter (`E` for an `ECPU` channel, else `P` for a `PCPU` one,
/// else `C`) followed by digits that read back as `n` (from the front as from
/// the back), so the label's sort key carries `n` itself.
pub proof fn core_labels_keep_the_channel_number(channel: Seq<char>)
    requires
        last_digit_run(channel).len() > 0,
        digits_value(last_digit_run(channel)) <= u32::MAX,
    ensures
        spec_core_label(channel).len() > 1,
        spec_core_label(channel)[0] == cluster_letter(channel),
        contains_text(channel, "ECPU"@) ==> spec_core_label(channel)[0] == 'E',
        !contains_text(channel, "ECPU"@) && contains_text(channel, "PCPU"@) ==> spec_core_label(channel)[0]
            == 'P',
        !contains_text(channel, "ECPU"@) && !contains_text(channel, "PCPU"@) ==> spec_core_label(channel)[0]
            == 'C',
        all_digits(spec_core_label(channel).drop_first()),
        positional_value(spec_core_label(channel).drop_first()) == positional_value(last_digit_run(channel)),
        parse_u32(spec_core_label(channel).drop_first()) == Some(
            digits_value(last_digit_run(channel)) as u32,
        ),
        spec_core_sort_key(spec_core_label(channel)).1 == digits_value(last_digit_run(channel)),
{
    let run = last_digit_run(channel);
    let n = digits_value(run);
    let label = spec_core_label(channel);
    lemma_decimal_reads_back(n);
    assert(label.drop_first() =~= decimal(n));
    lemma_positional_value(decimal(n));
    lemma_last_run_digits(channel);
    lemma_positional_value(run);
    let rest = label.drop_first();
    if rest.len() > 0 && rest[0] == '+' {
        assert(is_digit(rest[0]));
    }
}

} // verus!
