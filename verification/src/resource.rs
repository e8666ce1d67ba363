//! The state of the machine at decision time.
use vstd::prelude::*;
use vstd::string::*;

use crate::binary64::F64;
use crate::now_unix_ms;
use crate::text::push_decimal;

verus! {

/// A snapshot of the machine, in units that no hardware dictates.
///
/// What cannot be measured is `None`: the cost models then take it for neutral.
#[derive(Debug, Clone, Copy, PartialEq, Eq, Structural)]
pub struct ResourceState {
    /// CPU utilisation, from 0 to 1.
    pub cpu_util: Option<F64>,
    /// GPU utilisation, from 0 to 1.
    pub gpu_util: Option<F64>,
    pub gpu_memory_used: Option<u64>,
    pub nvme_queue_depth: Option<u32>,
    /// Latency of one 4 KiB read, in microseconds.
    pub nvme_latency_us: Option<F64>,
    /// PCIe bandwidth that the GPU has, in bytes per second.
    pub pcie_bandwidth: Option<F64>,
    /// CPU utilisation of the remote node, from 0 to 1; `None` without one.
    pub remote_cpu_util: Option<F64>,
    pub captured_at_unix_ms: u64,
}

/// The readings of a state that are no whole numbers, as texts; what has no reading stays unused.
pub struct ReadingTexts {
    pub cpu_util: String,
    pub gpu_util: String,
    pub nvme_latency_us: String,
    pub pcie_bandwidth: String,
    pub remote_cpu_util: String,
}

/// A reading in a snapshot, whose text is `text`.
pub open spec fn reading(known: bool, text: Seq<char>) -> Seq<char> {
    if known {
        "Some("@ + text + ")"@
    } else {
        "None"@
    }
}

/// Appends a field's name and its reading.
fn append_reading(s: &mut String, name: &str, known: bool, text: &str)
    ensures
        final(s)@ == old(s)@ + name@ + reading(known, text@),
{
    let ghost before = s@;
    s.append(name);
    if known {
        s.append("Some(");
        s.append(text);
        s.append(")");
    } else {
        s.append("None");
    }
    assert(s@ =~= before + name@ + reading(known, text@));
}

/// Appends a field's name and its whole number.
fn append_whole(s: &mut String, name: &str, n: Option<u64>)
    ensures
        final(s)@ == old(s)@ + name@ + reading(
            n is Some,
            crate::text::decimal(n->0 as nat),
        ),
{
    match n {
        Some(n) => {
            let mut text = String::new();
            push_decimal(&mut text, n);
            assert(text@ =~= crate::text::decimal(n as nat));
            append_reading(s, name, true, text.as_str());
        },
        None => {
            append_reading(s, name, false, "");
        },
    }
}

impl ResourceState {
    /// The state as the event log shows it.
    pub open spec fn snapshot_text(self, texts: ReadingTexts) -> Seq<char> {
        "ResourceState {"@
            + " cpu_util: "@ + reading(self.cpu_util is Some, texts.cpu_util@)
            + ", gpu_util: "@ + reading(self.gpu_util is Some, texts.gpu_util@)
            + ", gpu_memory_used: "@ + reading(
            self.gpu_memory_used is Some,
            crate::text::decimal(self.gpu_memory_used->0 as nat),
        ) + ", nvme_queue_depth: "@ + reading(
            self.nvme_queue_depth is Some,
            crate::text::decimal(self.nvme_queue_depth->0 as nat),
        ) + ", nvme_latency_us: "@ + reading(
            self.nvme_latency_us is Some,
            texts.nvme_latency_us@,
        ) + ", pcie_bandwidth: "@ + reading(self.pcie_bandwidth is Some, texts.pcie_bandwidth@)
            + ", remote_cpu_util: "@ + reading(self.remote_cpu_util is Some, texts.remote_cpu_util@)
            + ", captured_at_unix_ms: "@ + crate::text::decimal(self.captured_at_unix_ms as nat)
            + " }"@
    }

    /// The state as the event log shows it; `texts` are the readings that are no whole numbers.
    pub fn snapshot(&self, texts: &ReadingTexts) -> (s: String)
        ensures
            s@ == self.snapshot_text(*texts),
    {
        let mut s = "ResourceState {".to_owned();
        append_reading(&mut s, " cpu_util: ", self.cpu_util.is_some(), texts.cpu_util.as_str());
        append_reading(&mut s, ", gpu_util: ", self.gpu_util.is_some(), texts.gpu_util.as_str());
        append_whole(&mut s, ", gpu_memory_used: ", self.gpu_memory_used);
        let depth = match self.nvme_queue_depth {
            Some(q) => Some(q as u64),
            None => None,
        };
        append_whole(&mut s, ", nvme_queue_depth: ", depth);
        append_reading(
            &mut s,
            ", nvme_latency_us: ",
            self.nvme_latency_us.is_some(),
            texts.nvme_latency_us.as_str(),
        );
        append_reading(
            &mut s,
            ", pcie_bandwidth: ",
            self.pcie_bandwidth.is_some(),
            texts.pcie_bandwidth.as_str(),
        );
        append_reading(
            &mut s,
            ", remote_cpu_util: ",
            self.remote_cpu_util.is_some(),
            texts.remote_cpu_util.as_str(),
        );
        s.append(", captured_at_unix_ms: ");
        push_decimal(&mut s, self.captured_at_unix_ms);
        s.append(" }");
        s
    }

    /// No reading at all, captured at `ms`.
    pub open spec fn blank(ms: u64) -> ResourceState {
        ResourceState {
            cpu_util: None,
            gpu_util: None,
            gpu_memory_used: None,
            nvme_queue_depth: None,
            nvme_latency_us: None,
            pcie_bandwidth: None,
            remote_cpu_util: None,
            captured_at_unix_ms: ms,
        }
    }

    /// A snapshot without readings, captured now.
    pub fn now() -> (s: Self)
        ensures
            s == ResourceState::blank(s.captured_at_unix_ms),
    {
        ResourceState::captured(now_unix_ms())
    }

    /// A snapshot without readings, captured at `ms`.
    pub fn captured(ms: u64) -> (s: Self)
        ensures
            s == ResourceState::blank(ms),
    {
        ResourceState { captured_at_unix_ms: ms, ..ResourceState::default() }
    }
}

impl Default for ResourceState {
    fn default() -> (s: Self)
        ensures
            s == ResourceState::blank(0),
    {
        ResourceState {
            cpu_util: None,
            gpu_util: None,
            gpu_memory_used: None,
            nvme_queue_depth: None,
            nvme_latency_us: None,
            pcie_bandwidth: None,
            remote_cpu_util: None,
            captured_at_unix_ms: 0,
        }
    }
}

} // verus!
