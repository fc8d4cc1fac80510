//! The snapshot data model: one process's normalized state, the raw
//! process-table records the scan consumes, and one cycle's complete
//! result.

use vstd::prelude::*;
use crate::usage::CpuUsage;

verus! {

/// One process's normalized state at sample time, as stored in a
/// snapshot.
#[derive(Debug, PartialEq, Clone)]
pub struct PidStatus {
    /// Parent pid.
    pub ppid: i32,
    /// Effective uid.
    pub euid: i32,
    /// The complete command line, one element per argument; a one-element
    /// placeholder when unreadable.
    pub cmd_long: Vec<String>,
    /// Command run by this process.
    pub name: String,
    /// The filename of the executable.
    pub cmd_short: String,
    /// Pid of the process tracing this process (0 if not being traced).
    pub tracerpid: i32,
    /// Number of file descriptor slots currently allocated.
    pub fdsize: u32,
    /// Current state of the process (single-character lifecycle code).
    pub state: String,
    /// Peak virtual memory size in kB; `None` means unknown.
    pub vmpeak: Option<u64>,
    /// Virtual memory size in kB; `None` means unknown.
    pub vmsize: Option<u64>,
    /// Resident set size in pages.
    pub rss_pages: i64,
    /// Resident set size in bytes.
    pub rss_bytes: i64,
    /// Soft limit in bytes on the rss of the process.
    pub rsslim_bytes: u64,
    /// CPU number last executed on, if known.
    pub processor_last_executed: Option<i32>,
    /// Time scheduled in user mode, in clock ticks.
    pub utime: u64,
    /// Time scheduled in kernel mode, in clock ticks.
    pub stime: u64,
    /// User-mode CPU utilization since the previous sample.
    pub user_cpu_usage: CpuUsage,
    /// Kernel-mode CPU utilization since the previous sample.
    pub sys_cpu_usage: CpuUsage,
}

/// The mathematical value of a `PidStatus`: strings as character
/// sequences, everything else as itself.
pub struct PidStatusV {
    pub ppid: i32,
    pub euid: i32,
    pub cmd_long: Seq<Seq<char>>,
    pub name: Seq<char>,
    pub cmd_short: Seq<char>,
    pub tracerpid: i32,
    pub fdsize: u32,
    pub state: Seq<char>,
    pub vmpeak: Option<u64>,
    pub vmsize: Option<u64>,
    pub rss_pages: i64,
    pub rss_bytes: i64,
    pub rsslim_bytes: u64,
    pub processor_last_executed: Option<i32>,
    pub utime: u64,
    pub stime: u64,
    pub user_cpu_usage: CpuUsage,
    pub sys_cpu_usage: CpuUsage,
}

impl View for PidStatus {
    type V = PidStatusV;

    open spec fn view(&self) -> PidStatusV {
        PidStatusV {
            ppid: self.ppid,
            euid: self.euid,
            cmd_long: self.cmd_long.deep_view(),
            name: self.name@,
            cmd_short: self.cmd_short@,
            tracerpid: self.tracerpid,
            fdsize: self.fdsize,
            state: self.state@,
            vmpeak: self.vmpeak,
            vmsize: self.vmsize,
            rss_pages: self.rss_pages,
            rss_bytes: self.rss_bytes,
            rsslim_bytes: self.rsslim_bytes,
            processor_last_executed: self.processor_last_executed,
            utime: self.utime,
            stime: self.stime,
            user_cpu_usage: self.user_cpu_usage,
            sys_cpu_usage: self.sys_cpu_usage,
        }
    }
}

impl DeepView for PidStatus {
    type V = PidStatusV;

    open spec fn deep_view(&self) -> PidStatusV {
        self.view()
    }
}

/// One cycle's complete result: host-wide metadata and the map from pid
/// to `PidStatus`. This is the value that is encoded to disk and decoded
/// back by readers.
///
/// The map is kept as a vector of `(pid, status)` pairs with pairwise
/// distinct keys; the scan inserts each pid at most once per cycle.
#[derive(Debug, PartialEq, Clone)]
pub struct EncoDecode {
    /// Host identifier, stable for the collector's lifetime.
    pub hostname: String,
    /// Mapping from pid to its status, as `(pid, status)` pairs.
    pub pid_map_list: Vec<(i32, PidStatus)>,
    /// The epoch time in seconds at which the stats were recorded.
    pub time_epoch: u64,
    /// The configured delay in seconds between cycles.
    pub delay: u64,
    /// The cumulative host CPU time in ticks at capture time.
    pub total_cpu_time: u64,
}

/// The mathematical value of an `EncoDecode`.
pub struct EncoDecodeV {
    pub hostname: Seq<char>,
    pub pid_map_list: Seq<(i32, PidStatusV)>,
    pub time_epoch: u64,
    pub delay: u64,
    pub total_cpu_time: u64,
}

impl View for EncoDecode {
    type V = EncoDecodeV;

    open spec fn view(&self) -> EncoDecodeV {
        EncoDecodeV {
            hostname: self.hostname@,
            pid_map_list: self.pid_map_list.deep_view(),
            time_epoch: self.time_epoch,
            delay: self.delay,
            total_cpu_time: self.total_cpu_time,
        }
    }
}

/// Keys of a process map are pairwise distinct.
pub open spec fn unique_keys(m: Seq<(i32, PidStatusV)>) -> bool {
    forall|i: int, j: int|
        0 <= i < j < m.len() ==> (#[trigger] m[i]).0 != (#[trigger] m[j]).0
}

} // verus!
