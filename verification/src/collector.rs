//! One sampling cycle: normalize the raw process records the scan
//! produced, filter them through the inclusion invariant, derive CPU
//! usage against the previous cycle, and assemble the snapshot. The
//! surrounding loop — reading the process table, writing the file,
//! sleeping — stays outside the library; this module owns every
//! decision the loop makes.

use vstd::prelude::*;
use crate::snapshot::{PidStatus, PidStatusV, EncoDecode, unique_keys};
use crate::usage::{UsageKind, get_cpu_usage, spec_usage, prev_view};
use crate::procstat::parse_proc_stat_line;
use crate::codec::{status_encodable, snapshot_encodable};

verus! {

/// What the scan reads of one process's `stat` record.
pub struct ProcStat {
    /// The filename of the executable.
    pub comm: String,
    /// Resident set size in pages.
    pub rss: i64,
    /// Resident set size in bytes.
    pub rss_bytes: i64,
    /// Soft rss limit in bytes.
    pub rsslim: u64,
    /// CPU number last executed on, if known.
    pub processor: Option<i32>,
    /// Time scheduled in user mode, in clock ticks.
    pub utime: u64,
    /// Time scheduled in kernel mode, in clock ticks.
    pub stime: u64,
}

/// The mathematical value of a `ProcStat`.
pub struct ProcStatV {
    pub comm: Seq<char>,
    pub rss: i64,
    pub rss_bytes: i64,
    pub rsslim: u64,
    pub processor: Option<i32>,
    pub utime: u64,
    pub stime: u64,
}

impl View for ProcStat {
    type V = ProcStatV;

    open spec fn view(&self) -> ProcStatV {
        ProcStatV {
            comm: self.comm@,
            rss: self.rss,
            rss_bytes: self.rss_bytes,
            rsslim: self.rsslim,
            processor: self.processor,
            utime: self.utime,
            stime: self.stime,
        }
    }
}

/// What the scan reads of one process's `status` record.
pub struct ProcStatusRead {
    /// Command run by this process.
    pub name: String,
    /// Process id; negative only in the sentinel.
    pub pid: i32,
    /// Parent pid.
    pub ppid: i32,
    /// Pid of the tracing process, 0 if untraced.
    pub tracerpid: i32,
    /// Effective uid.
    pub euid: i32,
    /// Allocated file descriptor slots.
    pub fdsize: u32,
    /// Process state code.
    pub state: String,
    /// Peak virtual memory size in kB, if known.
    pub vmpeak: Option<u64>,
    /// Virtual memory size in kB, if known.
    pub vmsize: Option<u64>,
}

/// The mathematical value of a `ProcStatusRead`.
pub struct ProcStatusReadV {
    pub name: Seq<char>,
    pub pid: i32,
    pub ppid: i32,
    pub tracerpid: i32,
    pub euid: i32,
    pub fdsize: u32,
    pub state: Seq<char>,
    pub vmpeak: Option<u64>,
    pub vmsize: Option<u64>,
}

impl View for ProcStatusRead {
    type V = ProcStatusReadV;

    open spec fn view(&self) -> ProcStatusReadV {
        ProcStatusReadV {
            name: self.name@,
            pid: self.pid,
            ppid: self.ppid,
            tracerpid: self.tracerpid,
            euid: self.euid,
            fdsize: self.fdsize,
            state: self.state@,
            vmpeak: self.vmpeak,
            vmsize: self.vmsize,
        }
    }
}

/// One raw process record, as the process-table reader hands it over:
/// the `stat` fields, the `status` fields if that read succeeded, and
/// the command line if that read succeeded.
pub struct ProcRecord {
    pub stat: ProcStat,
    pub status: Option<ProcStatusRead>,
    pub cmdline: Option<Vec<String>>,
}

/// The mathematical value of a `ProcRecord`.
pub struct ProcRecordV {
    pub stat: ProcStatV,
    pub status: Option<ProcStatusReadV>,
    pub cmdline: Option<Seq<Seq<char>>>,
}

impl View for ProcRecord {
    type V = ProcRecordV;

    open spec fn view(&self) -> ProcRecordV {
        ProcRecordV {
            stat: self.stat@,
            status: match self.status {
                Some(st) => Some(st@),
                None => None,
            },
            cmdline: match self.cmdline {
                Some(c) => Some(c.deep_view()),
                None => None,
            },
        }
    }
}

impl DeepView for ProcRecord {
    type V = ProcRecordV;

    open spec fn deep_view(&self) -> ProcRecordV {
        self.view()
    }
}

/// The sentinel status substituted when a process's status read fails:
/// recognizably invalid values that the inclusion invariant rejects.
pub open spec fn sentinel_status() -> ProcStatusReadV {
    ProcStatusReadV {
        name: "Dummy because unwrap failed"@,
        pid: -1i32,
        ppid: -1i32,
        tracerpid: -1i32,
        euid: -1i32,
        fdsize: u32::MAX,
        state: "Dummy because unwrap failed"@,
        vmpeak: Some(u64::MAX),
        vmsize: Some(u64::MAX),
    }
}

/// Builds the sentinel status record used when a process's status read
/// fails; its negative pid makes the inclusion invariant discard the
/// record instead of failing the cycle.
pub fn dummy_pid_status() -> (r: ProcStatusRead)
    ensures
        r@ == sentinel_status(),
{
    let ds: String = "Dummy because unwrap failed".to_owned();
    let ds2: String = "Dummy because unwrap failed".to_owned();
    ProcStatusRead {
        name: ds,
        pid: -1,
        ppid: -1,
        tracerpid: -1,
        euid: -1,
        fdsize: u32::MAX,
        state: ds2,
        vmpeak: Some(u64::MAX),
        vmsize: Some(u64::MAX),
    }
}

/// The status a record is judged by: what was read, or the sentinel.
pub open spec fn rec_status(r: ProcRecordV) -> ProcStatusReadV {
    match r.status {
        Some(st) => st,
        None => sentinel_status(),
    }
}

/// The inclusion invariant: a record enters the snapshot only if its
/// memory peak is known, its resident set is non-empty, and its pid is
/// non-negative. This deliberately drops kernel threads,
/// already-exited processes, and sentinel records.
pub open spec fn included(r: ProcRecordV) -> bool {
    &&& rec_status(r).vmpeak is Some
    &&& r.stat.rss != 0
    &&& rec_status(r).pid >= 0
}

/// Sentinel filtering: a record whose status read failed carries the
/// sentinel's negative pid, and the collector excludes it.
pub proof fn lemma_sentinel_filtered(r: ProcRecordV)
    requires
        r.status is None,
    ensures
        rec_status(r).pid == -1,
        !included(r),
{
}

/// The command line stored for a record: what was read, or the
/// one-element placeholder.
pub open spec fn rec_cmdline(r: ProcRecordV) -> Seq<Seq<char>> {
    match r.cmdline {
        Some(c) => c,
        None => seq!["No cmd_long found"@],
    }
}

/// The `PidStatus` derived from one included record, with CPU usage
/// diffed against the previous cycle.
pub open spec fn spec_record_status(
    r: ProcRecordV,
    previous: Option<Seq<(i32, PidStatusV)>>,
    total: u64,
    prev_total: u64,
) -> PidStatusV {
    let st = rec_status(r);
    PidStatusV {
        ppid: st.ppid,
        euid: st.euid,
        cmd_long: rec_cmdline(r),
        name: st.name,
        cmd_short: r.stat.comm,
        tracerpid: st.tracerpid,
        fdsize: st.fdsize,
        state: st.state,
        vmpeak: st.vmpeak,
        vmsize: st.vmsize,
        rss_pages: r.stat.rss,
        rss_bytes: r.stat.rss_bytes,
        rsslim_bytes: r.stat.rsslim,
        processor_last_executed: r.stat.processor,
        utime: r.stat.utime,
        stime: r.stat.stime,
        user_cpu_usage: spec_usage(UsageKind::User, st.pid, previous, r.stat.utime, total, prev_total),
        sys_cpu_usage: spec_usage(
            UsageKind::System,
            st.pid,
            previous,
            r.stat.stime,
            total,
            prev_total,
        ),
    }
}

/// Keyed insertion into the cycle's map: replaces the entry with the
/// same key if one exists, appends otherwise.
pub open spec fn seq_upsert(
    m: Seq<(i32, PidStatusV)>,
    k: i32,
    v: PidStatusV,
) -> Seq<(i32, PidStatusV)> {
    if exists|j: int| 0 <= j < m.len() && (#[trigger] m[j]).0 == k {
        m.update(choose|j: int| 0 <= j < m.len() && (#[trigger] m[j]).0 == k, (k, v))
    } else {
        m.push((k, v))
    }
}

/// The process map one cycle derives: each included record, normalized
/// and keyed by pid, in scan order.
pub open spec fn build_map(
    procs: Seq<ProcRecordV>,
    previous: Option<Seq<(i32, PidStatusV)>>,
    total: u64,
    prev_total: u64,
) -> Seq<(i32, PidStatusV)>
    decreases procs.len(),
{
    if procs.len() == 0 {
        Seq::empty()
    } else {
        let m0 = build_map(procs.drop_last(), previous, total, prev_total);
        let r = procs.last();
        if included(r) {
            seq_upsert(m0, rec_status(r).pid, spec_record_status(r, previous, total, prev_total))
        } else {
            m0
        }
    }
}

/// The inclusion invariant, as it holds of a whole map: every entry
/// has a non-negative pid, a known memory peak, and a non-zero
/// resident set.
pub open spec fn map_invariant(m: Seq<(i32, PidStatusV)>) -> bool {
    forall|i: int|
        0 <= i < m.len() ==> (#[trigger] m[i]).0 >= 0 && m[i].1.vmpeak is Some && m[i].1.rss_pages
            != 0
}

/// Every map the scan derives satisfies the inclusion invariant, has
/// pairwise distinct pids, and stays within the estimator's usage
/// bounds.
pub proof fn lemma_build_map_props(
    procs: Seq<ProcRecordV>,
    previous: Option<Seq<(i32, PidStatusV)>>,
    total: u64,
    prev_total: u64,
)
    ensures
        unique_keys(build_map(procs, previous, total, prev_total)),
        map_invariant(build_map(procs, previous, total, prev_total)),
        forall|i: int|
            0 <= i < build_map(procs, previous, total, prev_total).len() ==> status_encodable(
                (#[trigger] build_map(procs, previous, total, prev_total)[i]).1,
            ),
    decreases procs.len(),
{
    if procs.len() > 0 {
        lemma_build_map_props(procs.drop_last(), previous, total, prev_total);
        let m0 = build_map(procs.drop_last(), previous, total, prev_total);
        let r = procs.last();
        if included(r) {
            let k = rec_status(r).pid;
            let v = spec_record_status(r, previous, total, prev_total);
            assert(status_encodable(v));
            if exists|j: int| 0 <= j < m0.len() && (#[trigger] m0[j]).0 == k {
                let j0 = choose|j: int| 0 <= j < m0.len() && (#[trigger] m0[j]).0 == k;
                let m1 = m0.update(j0, (k, v));
                assert forall|a: int, b: int| 0 <= a < b < m1.len() implies (#[trigger] m1[a]).0
                    != (#[trigger] m1[b]).0 by {
                    assert(m0[a].0 != m0[b].0);
                }
            }
        }
    }
}

/// The cross-cycle state the collector retains: the previous cycle's
/// process map (absent before the first successful cycle) and the
/// previous aggregate CPU time.
pub struct ScanState {
    pub previous_stats: Option<Vec<(i32, PidStatus)>>,
    pub previous_cpu_time: u64,
}

impl ScanState {
    /// The state before any cycle has run: no previous map, zero
    /// previous aggregate CPU time.
    pub fn new() -> (r: ScanState)
        ensures
            r.previous_stats is None,
            r.previous_cpu_time == 0,
    {
        ScanState { previous_stats: None, previous_cpu_time: 0 }
    }
}

fn clone_string_vec(v: &Vec<String>) -> (r: Vec<String>)
    ensures
        r.deep_view() == v.deep_view(),
{
    let ghost dv = v.deep_view();
    let mut out: Vec<String> = Vec::new();
    proof {
        assert(out.deep_view() =~= dv.take(0));
    }
    let mut i: usize = 0;
    while i < v.len()
        invariant
            i <= v@.len(),
            dv == v.deep_view(),
            dv.len() == v@.len(),
            out.deep_view() == dv.take(i as int),
        decreases v@.len() - i,
    {
        proof {
            assert(dv[i as int] == v@[i as int]@);
        }
        let s = v[i].clone();
        proof {
            assert(s@ == dv[i as int]);
        }
        let ghost predeep = out.deep_view();
        let ghost preview = out@;
        out.push(s);
        proof {
            assert(out@ == preview.push(s));
            assert(predeep.len() == preview.len());
            assert forall|k: int| 0 <= k < out@.len() implies out.deep_view()[k] == dv.take(
                i as int + 1,
            )[k] by {
                assert(out.deep_view()[k] == out@[k].deep_view());
                if k < i {
                    assert(out@[k] == preview[k]);
                    assert(predeep[k] == preview[k].deep_view());
                    assert(predeep[k] == dv[k]);
                } else {
                    assert(out@[k] == s);
                }
            }
            assert(out.deep_view() =~= dv.take(i as int + 1));
        }
        i = i + 1;
    }
    proof {
        assert(dv.take(v@.len() as int) =~= dv);
    }
    out
}

fn clone_status_read(s: &ProcStatusRead) -> (r: ProcStatusRead)
    ensures
        r@ == s@,
{
    ProcStatusRead {
        name: s.name.clone(),
        pid: s.pid,
        ppid: s.ppid,
        tracerpid: s.tracerpid,
        euid: s.euid,
        fdsize: s.fdsize,
        state: s.state.clone(),
        vmpeak: s.vmpeak,
        vmsize: s.vmsize,
    }
}

fn clone_pid_status(p: &PidStatus) -> (r: PidStatus)
    ensures
        r@ == p@,
{
    PidStatus {
        ppid: p.ppid,
        euid: p.euid,
        cmd_long: clone_string_vec(&p.cmd_long),
        name: p.name.clone(),
        cmd_short: p.cmd_short.clone(),
        tracerpid: p.tracerpid,
        fdsize: p.fdsize,
        state: p.state.clone(),
        vmpeak: p.vmpeak,
        vmsize: p.vmsize,
        rss_pages: p.rss_pages,
        rss_bytes: p.rss_bytes,
        rsslim_bytes: p.rsslim_bytes,
        processor_last_executed: p.processor_last_executed,
        utime: p.utime,
        stime: p.stime,
        user_cpu_usage: p.user_cpu_usage,
        sys_cpu_usage: p.sys_cpu_usage,
    }
}

fn clone_map(m: &Vec<(i32, PidStatus)>) -> (r: Vec<(i32, PidStatus)>)
    ensures
        r.deep_view() == m.deep_view(),
{
    let ghost dv = m.deep_view();
    let mut out: Vec<(i32, PidStatus)> = Vec::new();
    proof {
        assert(out.deep_view() =~= dv.take(0));
    }
    let mut i: usize = 0;
    while i < m.len()
        invariant
            i <= m@.len(),
            dv == m.deep_view(),
            dv.len() == m@.len(),
            out.deep_view() == dv.take(i as int),
        decreases m@.len() - i,
    {
        proof {
            assert(dv[i as int] == (m@[i as int].0, m@[i as int].1@));
        }
        let st = clone_pid_status(&m[i].1);
        let key = m[i].0;
        proof {
            assert((key, st).deep_view() == dv[i as int]);
        }
        let ghost predeep = out.deep_view();
        let ghost preview = out@;
        let ghost elem = (key, st);
        out.push((key, st));
        proof {
            assert(out@ == preview.push(elem));
            assert(predeep.len() == preview.len());
            assert forall|k: int| 0 <= k < out@.len() implies out.deep_view()[k] == dv.take(
                i as int + 1,
            )[k] by {
                assert(out.deep_view()[k] == out@[k].deep_view());
                if k < i {
                    assert(out@[k] == preview[k]);
                    assert(predeep[k] == preview[k].deep_view());
                    assert(predeep[k] == dv[k]);
                } else {
                    assert(out@[k] == elem);
                }
            }
            assert(out.deep_view() =~= dv.take(i as int + 1));
        }
        i = i + 1;
    }
    proof {
        assert(dv.take(m@.len() as int) =~= dv);
    }
    out
}

fn find_key(m: &Vec<(i32, PidStatus)>, key: i32) -> (r: Option<usize>)
    ensures
        match r {
            Some(i) => i < m@.len() && m.deep_view()[i as int].0 == key,
            None => forall|j: int| 0 <= j < m.deep_view().len() ==> (#[trigger] m.deep_view()[j]).0 != key,
        },
{
    let ghost dv = m.deep_view();
    let mut i: usize = 0;
    while i < m.len()
        invariant
            i <= m@.len(),
            dv == m.deep_view(),
            dv.len() == m@.len(),
            forall|j: int| 0 <= j < i ==> (#[trigger] dv[j]).0 != key,
        decreases m@.len() - i,
    {
        proof {
            assert(dv[i as int] == (m@[i as int].0, m@[i as int].1@));
        }
        if m[i].0 == key {
            return Some(i);
        }
        i = i + 1;
    }
    None
}

/// Inserts one derived record into the cycle's map, keyed by pid:
/// replaces the entry of an existing key, appends a new one.
fn map_upsert(map: &mut Vec<(i32, PidStatus)>, key: i32, val: PidStatus)
    requires
        unique_keys(old(map).deep_view()),
    ensures
        final(map).deep_view() == seq_upsert(old(map).deep_view(), key, val@),
        unique_keys(final(map).deep_view()),
{
    let ghost dv = map.deep_view();
    let ghost vv = val@;
    match find_key(map, key) {
        Some(i) => {
            let elem = vstd::std_specs::vec::vec_index_mut(map, i);
            *elem = (key, val);
            proof {
                assert(exists|j: int| 0 <= j < dv.len() && (#[trigger] dv[j]).0 == key);
                let j0 = choose|j: int| 0 <= j < dv.len() && (#[trigger] dv[j]).0 == key;
                if j0 != i {
                    assert(dv[j0].0 != dv[i as int].0);
                }
                assert(j0 == i);
                assert(map.deep_view() =~= dv.update(i as int, (key, vv)));
                assert forall|a: int, b: int|
                    0 <= a < b < map.deep_view().len() implies (#[trigger] map.deep_view()[a]).0
                    != (#[trigger] map.deep_view()[b]).0 by {
                    assert(dv[a].0 != dv[b].0);
                }
            }
        },
        None => {
            map.push((key, val));
            proof {
                assert(!(exists|j: int| 0 <= j < dv.len() && (#[trigger] dv[j]).0 == key));
                assert(map.deep_view() =~= dv.push((key, vv)));
                assert forall|a: int, b: int|
                    0 <= a < b < map.deep_view().len() implies (#[trigger] map.deep_view()[a]).0
                    != (#[trigger] map.deep_view()[b]).0 by {
                    if b < dv.len() {
                        assert(dv[a].0 != dv[b].0);
                    } else {
                        assert(dv[a].0 != key);
                    }
                }
            }
        },
    }
}

/// Runs one sampling cycle's derivation: parses the aggregate-CPU-time
/// line, normalizes and filters every raw process record, derives CPU
/// usage against the retained previous cycle, assembles the snapshot,
/// and advances the retained state.
///
/// When the aggregate-CPU-time line is absent or unparsable, the cycle
/// produces no snapshot and leaves the retained state untouched, so
/// the next successful cycle still diffs against the last good sample.
pub fn scan_cycle(
    state: &mut ScanState,
    host: &String,
    delay: u64,
    time_epoch: u64,
    stat_line: Option<&String>,
    procs: &Vec<ProcRecord>,
) -> (r: Option<EncoDecode>)
    ensures
        ({
            let lt = match stat_line {
                Some(l) => crate::procstat::line_total(l@),
                None => None,
            };
            match lt {
                None => r is None && *final(state) == *old(state),
                Some(total) => {
                    let m = build_map(
                        procs.deep_view(),
                        prev_view(old(state).previous_stats),
                        total,
                        old(state).previous_cpu_time,
                    );
                    &&& r matches Some(snap)
                    &&& snap@.hostname == host@
                    &&& snap@.pid_map_list == m
                    &&& snap@.time_epoch == time_epoch
                    &&& snap@.delay == delay
                    &&& snap@.total_cpu_time == total
                    &&& prev_view(final(state).previous_stats) == Some(m)
                    &&& final(state).previous_cpu_time == total
                    &&& unique_keys(m)
                    &&& map_invariant(m)
                    &&& snapshot_encodable(snap@)
                },
            }
        }),
{
    let total: u64 = match stat_line {
        None => {
            return None;
        },
        Some(line) => match parse_proc_stat_line(line.as_str()) {
            Ok(t) => t,
            Err(_) => {
                return None;
            },
        },
    };
    let ghost prevv = prev_view(state.previous_stats);
    let ghost pdv = procs.deep_view();
    let prev_total = state.previous_cpu_time;
    let mut map: Vec<(i32, PidStatus)> = Vec::new();
    proof {
        assert(map.deep_view() =~= Seq::<(i32, PidStatusV)>::empty());
        assert(pdv.take(0) =~= Seq::<ProcRecordV>::empty());
    }
    let mut i: usize = 0;
    while i < procs.len()
        invariant
            i <= procs@.len(),
            pdv == procs.deep_view(),
            pdv.len() == procs@.len(),
            *state == *old(state),
            prevv == prev_view(state.previous_stats),
            prev_total == state.previous_cpu_time,
            map.deep_view() == build_map(pdv.take(i as int), prevv, total, prev_total),
            unique_keys(map.deep_view()),
        decreases procs@.len() - i,
    {
        let prc = &procs[i];
        proof {
            assert(pdv[i as int] == procs@[i as int]@);
        }
        let status: ProcStatusRead = match &prc.status {
            Some(st) => clone_status_read(st),
            None => dummy_pid_status(),
        };
        proof {
            assert(status@ == rec_status(pdv[i as int]));
            assert(pdv.take(i as int + 1).drop_last() =~= pdv.take(i as int));
            assert(pdv.take(i as int + 1).last() == pdv[i as int]);
        }
        let keep = status.vmpeak.is_some() && prc.stat.rss != 0 && status.pid >= 0;
        if keep {
            let cmd_long: Vec<String> = match &prc.cmdline {
                Some(c) => clone_string_vec(c),
                None => {
                    let mut v0: Vec<String> = Vec::new();
                    v0.push("No cmd_long found".to_owned());
                    proof {
                        assert(v0.deep_view() =~= seq!["No cmd_long found"@]);
                    }
                    v0
                },
            };
            let pid = status.pid;
            let user = get_cpu_usage(
                UsageKind::User,
                pid,
                &state.previous_stats,
                prc.stat.utime,
                total,
                prev_total,
            );
            let sys = get_cpu_usage(
                UsageKind::System,
                pid,
                &state.previous_stats,
                prc.stat.stime,
                total,
                prev_total,
            );
            let s = PidStatus {
                ppid: status.ppid,
                euid: status.euid,
                cmd_long,
                name: status.name,
                cmd_short: prc.stat.comm.clone(),
                tracerpid: status.tracerpid,
                fdsize: status.fdsize,
                state: status.state,
                vmpeak: status.vmpeak,
                vmsize: status.vmsize,
                rss_pages: prc.stat.rss,
                rss_bytes: prc.stat.rss_bytes,
                rsslim_bytes: prc.stat.rsslim,
                processor_last_executed: prc.stat.processor,
                utime: prc.stat.utime,
                stime: prc.stat.stime,
                user_cpu_usage: user,
                sys_cpu_usage: sys,
            };
            proof {
                assert(included(pdv[i as int]));
                assert(s@ == spec_record_status(pdv[i as int], prevv, total, prev_total));
            }
            map_upsert(&mut map, pid, s);
        } else {
            proof {
                assert(!included(pdv[i as int]));
            }
        }
        i = i + 1;
    }
    proof {
        assert(pdv.take(pdv.len() as int) =~= pdv);
        lemma_build_map_props(pdv, prevv, total, prev_total);
    }
    let ghost m = map.deep_view();
    let map_copy = clone_map(&map);
    state.previous_stats = Some(map_copy);
    state.previous_cpu_time = total;
    let snap = EncoDecode {
        hostname: host.clone(),
        pid_map_list: map,
        time_epoch,
        delay,
        total_cpu_time: total,
    };
    proof {
        assert forall|j: int| 0 <= j < snap@.pid_map_list.len() implies status_encodable(
            (#[trigger] snap@.pid_map_list[j]).1,
        ) by {
            assert(snap@.pid_map_list[j] == m[j]);
        }
    }
    Some(snap)
}

} // verus!
