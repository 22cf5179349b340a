//! Text of the menu-bar popover that does not depend on floating-point
//! readings: core clusters, the core summary, memory in GiB and the error
//! line.
use vstd::prelude::*;
use vstd::string::StringExecFns;

use crate::text::{chars_of, decimal, digit_char, push_char, push_decimal, push_str};

verus! {

/// The cluster a CPU core belongs to, told by its label.
#[derive(Clone, Copy, Debug, PartialEq, Eq, Structural)]
pub enum CoreCluster {
    Efficiency,
    Performance,
    Unknown,
}

/// Efficiency for a label starting with `E`, performance for one starting
/// with `P`.
pub open spec fn spec_core_cluster(label: Seq<char>) -> CoreCluster {
    if label.len() > 0 && label[0] == 'E' {
        CoreCluster::Efficiency
    } else if label.len() > 0 && label[0] == 'P' {
        CoreCluster::Performance
    } else {
        CoreCluster::Unknown
    }
}

/// The cluster of the core labelled `label`.
pub fn core_cluster_from_label(label: &str) -> (cluster: CoreCluster)
    ensures
        cluster == spec_core_cluster(label@),
{
    let chars = chars_of(label);
    if chars.len() > 0 && chars[0] == 'E' {
        CoreCluster::Efficiency
    } else if chars.len() > 0 && chars[0] == 'P' {
        CoreCluster::Performance
    } else {
        CoreCluster::Unknown
    }
}

/// How many of `labels` belong to `cluster`.
pub open spec fn cluster_count(labels: Seq<String>, cluster: CoreCluster) -> nat
    decreases labels.len(),
{
    if labels.len() == 0 {
        0
    } else {
        cluster_count(labels.drop_last(), cluster) + if spec_core_cluster(labels.last()@)
            == cluster {
            1nat
        } else {
            0nat
        }
    }
}

proof fn lemma_cluster_count_bound(labels: Seq<String>, cluster: CoreCluster)
    ensures
        cluster_count(labels, cluster) <= labels.len(),
    decreases labels.len(),
{
    if labels.len() > 0 {
        lemma_cluster_count_bound(labels.drop_last(), cluster);
    }
}

/// The core summary: `--` without cores, `E<e> P<p>` when some core has a
/// known cluster, otherwise `<n> cores`.
pub open spec fn spec_core_summary(labels: Option<Seq<String>>) -> Seq<char> {
    match labels {
        None => "--"@,
        Some(l) => if l.len() == 0 {
            "--"@
        } else {
            let e = cluster_count(l, CoreCluster::Efficiency);
            let p = cluster_count(l, CoreCluster::Performance);
            if e > 0 || p > 0 {
                "E"@ + decimal(e) + " P"@ + decimal(p)
            } else {
                decimal(l.len()) + " cores"@
            }
        },
    }
}

/// Summarizes the cores, given by their labels, for the popover.
pub fn format_core_summary(labels: Option<&[String]>) -> (summary: String)
    ensures
        summary@ == spec_core_summary(
            match labels {
                Some(l) => Some(l@),
                None => None,
            },
        ),
{
    let cores = match labels {
        None => return String::from_str("--"),
        Some(l) => l,
    };
    if cores.len() == 0 {
        return String::from_str("--");
    }
    let mut e_count: u64 = 0;
    let mut p_count: u64 = 0;
    let mut i: usize = 0;
    while i < cores.len()
        invariant
            i <= cores@.len(),
            e_count == cluster_count(cores@.take(i as int), CoreCluster::Efficiency),
            p_count == cluster_count(cores@.take(i as int), CoreCluster::Performance),
        decreases cores@.len() - i,
    {
        proof {
            assert(cores@.take(i + 1).drop_last() =~= cores@.take(i as int));
            lemma_cluster_count_bound(cores@.take(i as int), CoreCluster::Efficiency);
            lemma_cluster_count_bound(cores@.take(i as int), CoreCluster::Performance);
        }
        match core_cluster_from_label(cores[i].as_str()) {
            CoreCluster::Efficiency => e_count = e_count + 1,
            CoreCluster::Performance => p_count = p_count + 1,
            CoreCluster::Unknown => {},
        }
        i += 1;
    }
    assert(cores@.take(cores@.len() as int) =~= cores@);
    if e_count > 0 || p_count > 0 {
        let mut text = String::from_str("E");
        push_decimal(&mut text, e_count);
        push_char(&mut text, ' ');
        push_char(&mut text, 'P');
        push_decimal(&mut text, p_count);
        proof {
            reveal_strlit("E");
            assert(" P"@ =~= seq![' ', 'P']) by {
                reveal_strlit(" P");
            }
        }
        text
    } else {
        let mut text = String::new();
        push_decimal(&mut text, cores.len() as u64);
        let tail = " cores";
        proof {
            reveal_strlit(" cores");
        }
        let suffix = chars_of(tail);
        let mut k: usize = 0;
        let ghost base = text@;
        while k < suffix.len()
            invariant
                suffix@ == " cores"@,
                k <= suffix@.len(),
                text@ == base + suffix@.take(k as int),
            decreases suffix@.len() - k,
        {
            push_char(&mut text, suffix[k]);
            assert(suffix@.take(k + 1) =~= suffix@.take(k as int).push(suffix@[k as int]));
            k += 1;
        }
        assert(suffix@.take(suffix@.len() as int) =~= suffix@);
        text
    }
}

/// The popover's error line: `Error: <message>` when sampling last failed.
pub fn error_line(last_error: Option<&str>) -> (line: Option<String>)
    ensures
        match last_error {
            None => line is None,
            Some(e) => line matches Some(l) && l@ == "Error: "@ + e@,
        },
{
    match last_error {
        None => None,
        Some(e) => {
            let mut line = String::from_str("Error: ");
            let chars = chars_of(e);
            let ghost base = line@;
            let mut k: usize = 0;
            while k < chars.len()
                invariant
                    chars@ == e@,
                    k <= chars@.len(),
                    line@ == base + chars@.take(k as int),
                decreases chars@.len() - k,
            {
                push_char(&mut line, chars[k]);
                assert(chars@.take(k + 1) =~= chars@.take(k as int).push(chars@[k as int]));
                k += 1;
            }
            assert(chars@.take(chars@.len() as int) =~= chars@);
            Some(line)
        },
    }
}

/// Number of binary digits of `n` (zero has none).
pub open spec fn bit_len(n: nat) -> nat
    decreases n,
{
    if n == 0 {
        0
    } else {
        1 + bit_len(n / 2)
    }
}

/// 2 to the power `e`.
pub open spec fn pow_two(e: nat) -> nat
    decreases e,
{
    if e == 0 {
        1
    } else {
        2 * pow_two((e - 1) as nat)
    }
}

/// `n` as a double: rounded to 53 significant bits, ties to even.
pub open spec fn as_double(n: nat) -> nat {
    if bit_len(n) <= 53 {
        n
    } else {
        let p = pow_two((bit_len(n) - 53) as nat);
        let q = n / p;
        let r = n % p;
        if r > p / 2 || (r == p / 2 && q % 2 == 1) {
            (q + 1) * p
        } else {
            q * p
        }
    }
}

/// `x` bytes in GiB rounded to tenths, ties to even.
pub open spec fn gib_tenths(x: nat) -> nat {
    let q = (x * 10) / 1073741824;
    let r = (x * 10) % 1073741824;
    if r > 536870912 || (r == 536870912 && q % 2 == 1) {
        q + 1
    } else {
        q
    }
}

/// A number of tenths with one decimal place.
pub open spec fn tenths_text(t: nat) -> Seq<char> {
    decimal(t / 10) + seq!['.', digit_char(t % 10)]
}

/// `bytes` in GiB with one decimal place, as a double shows it.
pub open spec fn gib_text(bytes: u64) -> Seq<char> {
    tenths_text(gib_tenths(as_double(bytes as nat)))
}

/// The popover's memory line: used and total GiB, or `--` when either is
/// unknown or the total is zero.
pub open spec fn spec_format_mem(usage: Option<u64>, total: Option<u64>) -> Seq<char> {
    match (usage, total) {
        (Some(u), Some(t)) => if t > 0 {
            gib_text(u) + "/"@ + gib_text(t) + "GB"@
        } else {
            "--"@
        },
        _ => "--"@,
    }
}

proof fn lemma_bit_len_bound(n: nat, k: nat)
    requires
        n < pow_two(k),
    ensures
        bit_len(n) <= k,
    decreases k,
{
    if n > 0 {
        assert(k > 0);
        lemma_bit_len_bound(n / 2, (k - 1) as nat);
    }
}

proof fn lemma_pow_two_grows(a: nat, b: nat)
    requires
        a <= b,
    ensures
        pow_two(a) <= pow_two(b),
    decreases b,
{
    if a < b {
        lemma_pow_two_grows(a, (b - 1) as nat);
    }
}

fn bit_length(n: u64) -> (b: u64)
    ensures
        b == bit_len(n as nat),
        b <= 64,
{
    proof {
        reveal_with_fuel(pow_two, 65);
        lemma_bit_len_bound(n as nat, 64);
    }
    let mut m = n;
    let mut b: u64 = 0;
    while m > 0
        invariant
            b + bit_len(m as nat) == bit_len(n as nat),
            bit_len(n as nat) <= 64,
        decreases m,
    {
        m = m / 2;
        b = b + 1;
    }
    b
}

fn double_of(n: u64) -> (d: u128)
    ensures
        d == as_double(n as nat),
        d <= 0x800_0000_0000_0000_0000,
{
    let bits = bit_length(n);
    if bits <= 53 {
        return n as u128;
    }
    let shift = bits - 53;
    let mut p: u128 = 1;
    let mut k: u64 = 0;
    while k < shift
        invariant
            k <= shift <= 11,
            p == pow_two(k as nat),
        decreases shift - k,
    {
        proof {
            lemma_pow_two_grows(k as nat, 10);
            reveal_with_fuel(pow_two, 11);
        }
        p = p * 2;
        k = k + 1;
    }
    proof {
        lemma_pow_two_grows(shift as nat, 11);
        reveal_with_fuel(pow_two, 12);
    }
    let q = n as u128 / p;
    let r = n as u128 % p;
    let half = p / 2;
    assert(q <= n) by (nonlinear_arith)
        requires
            q == n as u128 / p,
            p >= 1,
    ;
    let rounded = if r > half || (r == half && q % 2 == 1) {
        q + 1
    } else {
        q
    };
    assert(rounded * p <= 0x800_0000_0000_0000_0000) by (nonlinear_arith)
        requires
            rounded <= 0x1_0000_0000_0000_0000,
            p <= 2048,
    ;
    rounded * p
}

fn push_gib(text: &mut String, bytes: u64)
    ensures
        final(text)@ == old(text)@ + gib_text(bytes),
{
    let x = double_of(bytes);
    let scaled = x * 10;
    let q = scaled / 1073741824;
    let r = scaled % 1073741824;
    let tenths = if r > 536870912 || (r == 536870912 && q % 2 == 1) {
        q + 1
    } else {
        q
    };
    assert(tenths / 10 < 0x1_0000_0000_0000_0000) by (nonlinear_arith)
        requires
            scaled <= 0x5000_0000_0000_0000_0000,
            q == scaled / 1073741824,
            tenths <= q + 1,
    ;
    push_decimal(text, (tenths / 10) as u64);
    push_char(text, '.');
    let digit = (tenths % 10) as u8;
    push_char(text, (48u8 + digit) as char);
    assert(text@ =~= old(text)@ + gib_text(bytes));
}

/// The popover's memory line, `<used>/<total>GB` in GiB with one decimal
/// place, or `--` when either amount is unknown or the total is zero.
pub fn format_mem(usage: Option<u64>, total: Option<u64>) -> (text: String)
    ensures
        text@ == spec_format_mem(usage, total),
{
    match (usage, total) {
        (Some(u), Some(t)) => {
            if t > 0 {
                let mut text = String::new();
                push_gib(&mut text, u);
                push_str(&mut text, "/");
                push_gib(&mut text, t);
                push_str(&mut text, "GB");
                text
            } else {
                String::from_str("--")
            }
        },
        _ => String::from_str("--"),
    }
}

} // verus!
