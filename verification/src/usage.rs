//! Incremental CPU-usage estimation: compares a process's tick counters
//! against the previous cycle's sample and normalizes by the host-wide
//! aggregate tick counter.

use vstd::prelude::*;
use crate::snapshot::{PidStatus, PidStatusV};

verus! {

/// Selects which raw tick counter the estimator diffs: time scheduled in
/// user mode or in kernel mode.
#[derive(Debug, PartialEq, Eq, Clone, Copy, Structural)]
pub enum UsageKind {
    User,
    System,
}

/// Bound on the fields of a `CpuUsage` ratio. The numerator is at most
/// `100 * (2^64 - 1)` in magnitude and the denominator at most `2^64 - 1`,
/// both below `2^71`.
pub const USAGE_BOUND: i128 = 0x800000000000000000;

/// A CPU-utilization percentage, kept exactly as the ratio `num / den`.
///
/// `num` is `100 * (current ticks - previous ticks)` and `den` is
/// `current total ticks - previous total ticks`. When no previous sample
/// exists for the process the ratio is exactly zero (`0 / 1`). A `den`
/// that is zero or negative is kept as-is rather than trapped: a reader
/// that divides `num` by `den` in IEEE-754 arithmetic reproduces the
/// infinity or NaN that a raw floating-point formulation would produce.
#[derive(Debug, PartialEq, Eq, Clone, Copy, Structural)]
pub struct CpuUsage {
    pub num: i128,
    pub den: i128,
}

/// The exactly-zero percentage, reported when a process has no previous
/// sample to diff against.
pub open spec fn zero_usage() -> CpuUsage {
    CpuUsage { num: 0, den: 1 }
}

/// Field bounds that every estimator result satisfies; the snapshot
/// encoding relies on them.
pub open spec fn usage_wf(u: CpuUsage) -> bool {
    &&& -USAGE_BOUND <= u.num <= USAGE_BOUND
    &&& -USAGE_BOUND <= u.den <= USAGE_BOUND
}

/// Looks a pid up in a previous-cycle process map, first match wins.
pub open spec fn seq_find(m: Seq<(i32, PidStatusV)>, pid: i32) -> Option<PidStatusV>
    decreases m.len(),
{
    if m.len() == 0 {
        None
    } else if m[0].0 == pid {
        Some(m[0].1)
    } else {
        seq_find(m.drop_first(), pid)
    }
}

/// The previous-cycle map as a mathematical value; `None` on the first
/// cycle, before any map was retained.
pub open spec fn prev_view(p: Option<Vec<(i32, PidStatus)>>) -> Option<Seq<(i32, PidStatusV)>> {
    match p {
        Some(v) => Some(v.deep_view()),
        None => None,
    }
}

/// What the estimator returns: `100 * (current - previous) / (total now -
/// total before)` as an exact ratio, and exactly zero when there is no
/// previous map or the pid is new in it.
pub open spec fn spec_usage(
    type_of: UsageKind,
    pid: i32,
    previous: Option<Seq<(i32, PidStatusV)>>,
    current_type_time: u64,
    current_cpu_time: u64,
    previous_cpu_time: u64,
) -> CpuUsage {
    match previous {
        None => zero_usage(),
        Some(m) => match seq_find(m, pid) {
            None => zero_usage(),
            Some(p) => {
                let prev_ticks: u64 = if type_of == UsageKind::User {
                    p.utime
                } else {
                    p.stime
                };
                CpuUsage {
                    num: (100 * (current_type_time - prev_ticks)) as i128,
                    den: (current_cpu_time - previous_cpu_time) as i128,
                }
            },
        },
    }
}

/// Linear search of a previous-cycle map for a pid.
fn find_entry(m: &Vec<(i32, PidStatus)>, pid: i32) -> (r: Option<usize>)
    ensures
        match r {
            Some(i) => i < m.len() && m@[i as int].0 == pid && seq_find(m.deep_view(), pid)
                == Some(m@[i as int].1@),
            None => seq_find(m.deep_view(), pid) is None,
        },
{
    let ghost dv = m.deep_view();
    proof {
        assert(dv.skip(0) =~= dv);
    }
    let mut i: usize = 0;
    while i < m.len()
        invariant
            i <= m.len(),
            dv == m.deep_view(),
            dv.len() == m@.len(),
            seq_find(dv, pid) == seq_find(dv.skip(i as int), pid),
            forall|j: int| 0 <= j < i ==> (#[trigger] m@[j]).0 != pid,
        decreases m.len() - i,
    {
        assert(dv[i as int] == (m@[i as int].0, m@[i as int].1@));
        if m[i].0 == pid {
            assert(seq_find(dv.skip(i as int), pid) == Some(dv[i as int].1));
            return Some(i);
        }
        assert(dv.skip(i as int).drop_first() =~= dv.skip(i as int + 1));
        i = i + 1;
    }
    assert(dv.skip(i as int).len() == 0);
    None
}

/// Calculates the user-mode or kernel-mode CPU utilization of one process
/// since the previous sample, as the exact ratio
/// `100 * (current_type_time - previous ticks) / (current_cpu_time -
/// previous_cpu_time)`. Returns exactly zero when `previous` is `None`
/// (first cycle) or when `pid` has no entry in the previous map (new
/// process).
pub fn get_cpu_usage(
    type_of: UsageKind,
    pid: i32,
    previous: &Option<Vec<(i32, PidStatus)>>,
    current_type_time: u64,
    current_cpu_time: u64,
    previous_cpu_time: u64,
) -> (r: CpuUsage)
    ensures
        r == spec_usage(
            type_of,
            pid,
            prev_view(*previous),
            current_type_time,
            current_cpu_time,
            previous_cpu_time,
        ),
        previous is None ==> r == zero_usage(),
        (previous matches Some(m) && seq_find(m.deep_view(), pid) is None) ==> r == zero_usage(),
        usage_wf(r),
{
    match previous {
        None => CpuUsage { num: 0, den: 1 },
        Some(m) => match find_entry(m, pid) {
            None => CpuUsage { num: 0, den: 1 },
            Some(i) => {
                let prev_ticks: u64 = match type_of {
                    UsageKind::User => m[i].1.utime,
                    UsageKind::System => m[i].1.stime,
                };
                CpuUsage {
                    num: 100i128 * (current_type_time as i128 - prev_ticks as i128),
                    den: current_cpu_time as i128 - previous_cpu_time as i128,
                }
            },
        },
    }
}

} // verus!
