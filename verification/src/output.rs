//! Line formatters for sample output: which header each format prints and
//! when the CSV header is due.
use vstd::prelude::*;
use vstd::string::StringExecFns;

verus! {

/// The CSV header line naming every sample column.
pub open spec fn csv_header() -> Seq<char> {
    "timestamp,cpu_power_w,gpu_power_w,ane_power_w,combined_power_w,sys_power_w,cpu_energy,gpu_energy,ane_energy,e_busy_ratio,p_busy_ratio,e_freq_ghz,p_freq_ghz,cpu_temp_c,gpu_temp_c,ram_total_bytes,ram_usage_bytes,swap_total_bytes,swap_usage_bytes,battery_percent"@
}

/// Human-readable one-line output; it has no header.
#[derive(Clone, Copy, Debug, Default, PartialEq, Eq, Structural)]
pub struct HumanFormatter;

impl HumanFormatter {
    pub fn new() -> (formatter: Self)
        ensures
            formatter == HumanFormatter,
    {
        HumanFormatter
    }

    /// No header line.
    pub fn format_header(&self) -> (header: Option<String>)
        ensures
            header is None,
    {
        None
    }
}

/// CSV output, whose header is printed once, before the first sample.
#[derive(Clone, Copy, Debug, Default, PartialEq, Eq, Structural)]
pub struct CsvFormatter {
    header_printed: bool,
}

impl CsvFormatter {
    /// Whether the header line has been printed.
    pub closed spec fn spec_header_printed(self) -> bool {
        self.header_printed
    }

    /// A formatter that has not printed its header yet.
    pub fn new() -> (formatter: Self)
        ensures
            !formatter.spec_header_printed(),
    {
        CsvFormatter { header_printed: false }
    }

    /// The CSV header line.
    pub fn format_header(&self) -> (header: Option<String>)
        ensures
            header matches Some(h) && h@ == csv_header(),
    {
        proof {
            reveal_strlit(
                "timestamp,cpu_power_w,gpu_power_w,ane_power_w,combined_power_w,sys_power_w,cpu_energy,gpu_energy,ane_energy,e_busy_ratio,p_busy_ratio,e_freq_ghz,p_freq_ghz,cpu_temp_c,gpu_temp_c,ram_total_bytes,ram_usage_bytes,swap_total_bytes,swap_usage_bytes,battery_percent",
            );
        }
        Some(
            String::from_str(
                "timestamp,cpu_power_w,gpu_power_w,ane_power_w,combined_power_w,sys_power_w,cpu_energy,gpu_energy,ane_energy,e_busy_ratio,p_busy_ratio,e_freq_ghz,p_freq_ghz,cpu_temp_c,gpu_temp_c,ram_total_bytes,ram_usage_bytes,swap_total_bytes,swap_usage_bytes,battery_percent",
            ),
        )
    }

    /// Records that the header is printed now.
    pub fn mark_header_printed(&mut self)
        ensures
            final(self).spec_header_printed(),
    {
        self.header_printed = true;
    }

    /// Before a sample is printed: whether the header must be printed first.
    /// The header is due only before the first sample, so after this call it
    /// counts as printed.
    pub fn header_due(&mut self) -> (due: bool)
        ensures
            due == !old(self).spec_header_printed(),
            final(self).spec_header_printed(),
    {
        let due = !self.header_printed;
        self.header_printed = true;
        due
    }
}

/// JSON output, one object per line; it has no header.
#[derive(Clone, Copy, Debug, Default, PartialEq, Eq, Structural)]
pub struct JsonFormatter;

impl JsonFormatter {
    pub fn new() -> (formatter: Self)
        ensures
            formatter == JsonFormatter,
    {
        JsonFormatter
    }

    /// No header line.
    pub fn format_header(&self) -> (header: Option<String>)
        ensures
            header is None,
    {
        None
    }
}

} // verus!
