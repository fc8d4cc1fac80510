use procshot_server::check_sudo;
use procshot_server::Config;
use procshot_server::codec::DecodeError;
use procshot_server::collector::{dummy_pid_status, scan_cycle, ProcRecord, ProcStat, ProcStatusRead, ScanState};
use procshot_server::procstat::{parse_proc_stat_line, parse_u64, ParseStatError};
use procshot_server::snapshot::{EncoDecode, PidStatus};
use procshot_server::usage::{get_cpu_usage, CpuUsage, UsageKind};

fn sample_status(utime: u64, stime: u64) -> PidStatus {
    PidStatus {
        ppid: 1,
        euid: 0,
        cmd_long: vec!["/bin/sample".to_string(), "--flag".to_string()],
        name: "sample".to_string(),
        cmd_short: "sample".to_string(),
        tracerpid: 0,
        fdsize: 64,
        state: "S (sleeping)".to_string(),
        vmpeak: Some(1024),
        vmsize: Some(512),
        rss_pages: 25,
        rss_bytes: 102400,
        rsslim_bytes: u64::MAX,
        processor_last_executed: Some(2),
        utime,
        stime,
        user_cpu_usage: CpuUsage { num: 0, den: 1 },
        sys_cpu_usage: CpuUsage { num: 0, den: 1 },
    }
}

fn sample_record(pid: i32, utime: u64, stime: u64) -> ProcRecord {
    ProcRecord {
        stat: ProcStat {
            comm: "sample".to_string(),
            rss: 25,
            rss_bytes: 102400,
            rsslim: u64::MAX,
            processor: Some(2),
            utime,
            stime,
        },
        status: Some(ProcStatusRead {
            name: "sample".to_string(),
            pid,
            ppid: 1,
            tracerpid: 0,
            euid: 0,
            fdsize: 64,
            state: "S (sleeping)".to_string(),
            vmpeak: Some(1024),
            vmsize: Some(512),
        }),
        cmdline: Some(vec!["/bin/sample".to_string()]),
    }
}

#[test]
fn test_check_sudo_privileged() {
    match check_sudo(0) {
        Ok(()) => (),
        Err(e) => panic!("Test failed, {:?}", e),
    }
}

#[test]
#[should_panic]
fn test_check_sudo_non_privileged() {
    match check_sudo(10) {
        Ok(()) => (),
        Err(e) => panic!("Test failed, {:?}", e),
    }
}

#[test]
fn test_usage_first_cycle_is_zero() {
    let previous: Option<Vec<(i32, PidStatus)>> = None;
    let u = get_cpu_usage(UsageKind::User, 42, &previous, 12345, 999, 555);
    assert_eq!(u, CpuUsage { num: 0, den: 1 });
    assert_eq!(u.num as f64 / u.den as f64, 0.0);
    let s = get_cpu_usage(UsageKind::System, 42, &previous, 12345, 0, 777);
    assert_eq!(s, CpuUsage { num: 0, den: 1 });
}

#[test]
fn test_usage_new_process_is_zero() {
    let previous = Some(vec![(7, sample_status(100, 50))]);
    let u = get_cpu_usage(UsageKind::User, 8, &previous, 150, 10500, 10000);
    assert_eq!(u, CpuUsage { num: 0, den: 1 });
}

#[test]
fn test_usage_example_ten_percent() {
    let previous = Some(vec![(7, sample_status(100, 50))]);
    let u = get_cpu_usage(UsageKind::User, 7, &previous, 150, 10500, 10000);
    assert_eq!(u.num, 5000);
    assert_eq!(u.den, 500);
    assert_eq!(u.num as f64 / u.den as f64, 10.0);
}

#[test]
fn test_usage_system_uses_stime() {
    let previous = Some(vec![(7, sample_status(100, 50))]);
    let s = get_cpu_usage(UsageKind::System, 7, &previous, 80, 10500, 10000);
    assert_eq!(s.num, 100 * (80 - 50));
    assert_eq!(s.den, 500);
}

#[test]
fn test_usage_nonpositive_denominator_kept() {
    let previous = Some(vec![(7, sample_status(100, 50))]);
    let u = get_cpu_usage(UsageKind::User, 7, &previous, 150, 10000, 10000);
    assert_eq!(u.num, 5000);
    assert_eq!(u.den, 0);
    assert!((u.num as f64 / u.den as f64).is_infinite());
}

#[test]
fn test_proc_stat_parse_example() {
    let r = parse_proc_stat_line("cpu  100 200 300 50 10 0 0 0 0 0");
    assert_eq!(r, Ok(660));
}

#[test]
fn test_proc_stat_parse_no_label() {
    assert_eq!(parse_proc_stat_line("intr 5 4 3"), Err(ParseStatError::NoCpuLabel));
    assert_eq!(parse_proc_stat_line(""), Err(ParseStatError::NoCpuLabel));
}

#[test]
fn test_proc_stat_parse_not_numeric() {
    assert_eq!(parse_proc_stat_line("cpu  100 2x0"), Err(ParseStatError::NotNumeric));
}

#[test]
fn test_proc_stat_parse_overflow() {
    assert_eq!(
        parse_proc_stat_line("cpu 99999999999999999999999"),
        Err(ParseStatError::TooLarge)
    );
    assert_eq!(
        parse_proc_stat_line("cpu 18446744073709551615 1"),
        Err(ParseStatError::TooLarge)
    );
    assert_eq!(parse_proc_stat_line("cpu 18446744073709551615"), Ok(u64::MAX));
}

#[test]
fn test_proc_stat_parse_per_core_label() {
    // a per-core line also carries the `cpu` prefix; the digit after it
    // is simply the first field
    assert_eq!(parse_proc_stat_line("cpu0 5"), Ok(5));
}

#[test]
fn test_proc_stat_parse_empty_fields() {
    assert_eq!(parse_proc_stat_line("cpu"), Ok(0));
    assert_eq!(parse_proc_stat_line("cpu   "), Ok(0));
}

#[test]
fn test_parse_u64() {
    assert_eq!(parse_u64("30"), Some(30));
    assert_eq!(parse_u64("0"), Some(0));
    assert_eq!(parse_u64(""), None);
    assert_eq!(parse_u64("1x"), None);
    assert_eq!(parse_u64("18446744073709551616"), None);
}

#[test]
fn test_round_trip_one_record() {
    let snap = EncoDecode {
        hostname: "host-α".to_string(),
        pid_map_list: vec![(7, sample_status(100, 50))],
        time_epoch: 1_700_000_000,
        delay: 60,
        total_cpu_time: 10_000,
    };
    let bytes = snap.encode_checked().expect("sample snapshot is encodable");
    let back = EncoDecode::decode(&bytes).expect("canonical bytes decode");
    assert_eq!(back, snap);
}

#[test]
fn test_round_trip_empty_map() {
    let snap = EncoDecode {
        hostname: String::new(),
        pid_map_list: Vec::new(),
        time_epoch: 0,
        delay: 1,
        total_cpu_time: u64::MAX,
    };
    let bytes = snap.encode_checked().expect("empty snapshot is encodable");
    let back = EncoDecode::decode(&bytes).expect("canonical bytes decode");
    assert_eq!(back, snap);
}

#[test]
fn test_decode_rejects_corrupt_input() {
    assert_eq!(EncoDecode::decode(&Vec::new()), Err(DecodeError::Malformed));
    let snap = EncoDecode {
        hostname: "h".to_string(),
        pid_map_list: Vec::new(),
        time_epoch: 5,
        delay: 60,
        total_cpu_time: 9,
    };
    let bytes = snap.encode_checked().unwrap();
    let truncated: Vec<u8> = bytes[..bytes.len() - 1].to_vec();
    assert_eq!(EncoDecode::decode(&truncated), Err(DecodeError::Malformed));
    let mut trailing = bytes.clone();
    trailing.push(0);
    assert_eq!(EncoDecode::decode(&trailing), Err(DecodeError::Malformed));
    assert!(EncoDecode::decode(&bytes).is_ok());
}

#[test]
fn test_encode_checked_rejects_out_of_bounds_usage() {
    let mut st = sample_status(0, 0);
    st.user_cpu_usage = CpuUsage { num: i128::MAX, den: 1 };
    let snap = EncoDecode {
        hostname: "h".to_string(),
        pid_map_list: vec![(1, st)],
        time_epoch: 0,
        delay: 60,
        total_cpu_time: 0,
    };
    assert!(snap.encode_checked().is_none());
}

#[test]
fn test_dummy_pid_status_sentinel() {
    let d = dummy_pid_status();
    assert_eq!(d.pid, -1);
    assert_eq!(d.ppid, -1);
    assert_eq!(d.tracerpid, -1);
    assert_eq!(d.euid, -1);
    assert_eq!(d.fdsize, u32::MAX);
    assert_eq!(d.vmpeak, Some(u64::MAX));
    assert_eq!(d.vmsize, Some(u64::MAX));
    assert_eq!(d.name, "Dummy because unwrap failed");
    assert_eq!(d.state, "Dummy because unwrap failed");
}

#[test]
fn test_sentinel_record_is_filtered() {
    let mut state = ScanState::new();
    let host = "h".to_string();
    let line = "cpu 100 200".to_string();
    let mut broken = sample_record(3, 10, 10);
    broken.status = None;
    let procs = vec![broken, sample_record(5, 10, 10)];
    let snap = scan_cycle(&mut state, &host, 60, 1000, Some(&line), &procs)
        .expect("parsable line yields a snapshot");
    assert_eq!(snap.pid_map_list.len(), 1);
    assert_eq!(snap.pid_map_list[0].0, 5);
}

#[test]
fn test_inclusion_invariant_filters() {
    let mut state = ScanState::new();
    let host = "h".to_string();
    let line = "cpu 100".to_string();
    let mut no_peak = sample_record(2, 1, 1);
    if let Some(st) = no_peak.status.as_mut() {
        st.vmpeak = None;
    }
    let mut zero_rss = sample_record(3, 1, 1);
    zero_rss.stat.rss = 0;
    let mut neg_pid = sample_record(-4, 1, 1);
    neg_pid.stat.rss = 9;
    let procs = vec![no_peak, zero_rss, neg_pid, sample_record(6, 1, 1)];
    let snap = scan_cycle(&mut state, &host, 60, 1000, Some(&line), &procs).unwrap();
    assert_eq!(snap.pid_map_list.len(), 1);
    assert_eq!(snap.pid_map_list[0].0, 6);
    assert!(snap.pid_map_list[0].1.vmpeak.is_some());
    assert_ne!(snap.pid_map_list[0].1.rss_pages, 0);
}

#[test]
fn test_scan_cycle_two_cycles() {
    let mut state = ScanState::new();
    let host = "box".to_string();
    let line1 = "cpu 10000".to_string();
    let procs1 = vec![sample_record(7, 100, 50)];
    let snap1 = scan_cycle(&mut state, &host, 60, 111, Some(&line1), &procs1).unwrap();
    assert_eq!(snap1.hostname, "box");
    assert_eq!(snap1.time_epoch, 111);
    assert_eq!(snap1.delay, 60);
    assert_eq!(snap1.total_cpu_time, 10000);
    assert_eq!(snap1.pid_map_list.len(), 1);
    // first cycle: no previous map, usage exactly zero
    assert_eq!(snap1.pid_map_list[0].1.user_cpu_usage, CpuUsage { num: 0, den: 1 });
    assert_eq!(state.previous_cpu_time, 10000);

    let line2 = "cpu 10500".to_string();
    let procs2 = vec![sample_record(7, 150, 80)];
    let snap2 = scan_cycle(&mut state, &host, 60, 222, Some(&line2), &procs2).unwrap();
    let entry = &snap2.pid_map_list[0];
    assert_eq!(entry.0, 7);
    assert_eq!(entry.1.user_cpu_usage, CpuUsage { num: 5000, den: 500 });
    assert_eq!(entry.1.sys_cpu_usage, CpuUsage { num: 3000, den: 500 });
    assert_eq!(entry.1.utime, 150);
    assert_eq!(entry.1.cmd_long, vec!["/bin/sample".to_string()]);
}

#[test]
fn test_cycle_isolation_on_reader_failure() {
    let mut state = ScanState::new();
    let host = "h".to_string();
    let line1 = "cpu 5000".to_string();
    let procs1 = vec![sample_record(9, 10, 20)];
    scan_cycle(&mut state, &host, 60, 1, Some(&line1), &procs1).unwrap();
    let stats_before = state.previous_stats.clone();
    let time_before = state.previous_cpu_time;

    // the reader failed: no line at all
    let procs2 = vec![sample_record(9, 99, 99)];
    assert!(scan_cycle(&mut state, &host, 60, 2, None, &procs2).is_none());
    assert_eq!(state.previous_stats, stats_before);
    assert_eq!(state.previous_cpu_time, time_before);

    // the reader handed back an unparsable line
    let bad = "cpu 1x".to_string();
    assert!(scan_cycle(&mut state, &host, 60, 3, Some(&bad), &procs2).is_none());
    assert_eq!(state.previous_stats, stats_before);
    assert_eq!(state.previous_cpu_time, time_before);
}

#[test]
fn test_missing_cmdline_placeholder() {
    let mut state = ScanState::new();
    let host = "h".to_string();
    let line = "cpu 100".to_string();
    let mut rec = sample_record(4, 1, 1);
    rec.cmdline = None;
    let procs = vec![rec];
    let snap = scan_cycle(&mut state, &host, 60, 1, Some(&line), &procs).unwrap();
    assert_eq!(snap.pid_map_list[0].1.cmd_long, vec!["No cmd_long found".to_string()]);
}

#[test]
fn test_duplicate_pid_last_wins() {
    let mut state = ScanState::new();
    let host = "h".to_string();
    let line = "cpu 100".to_string();
    let procs = vec![sample_record(5, 1, 1), sample_record(5, 42, 43)];
    let snap = scan_cycle(&mut state, &host, 60, 1, Some(&line), &procs).unwrap();
    assert_eq!(snap.pid_map_list.len(), 1);
    assert_eq!(snap.pid_map_list[0].1.utime, 42);
}

#[test]
fn test_config_new_defaults() {
    let c = Config::new("myhost".to_string(), None, false, None, None);
    assert_eq!(c.hostname, "myhost");
    assert_eq!(c.delay, 60);
    assert!(!c.server);
    assert_eq!(c.client_time_from, "");
    assert_eq!(c.client_sort_by, "m");
}

#[test]
fn test_config_new_values() {
    let delay = "30".to_string();
    let tf = "2015-09-05 23:56:04".to_string();
    let ob = "c".to_string();
    let c = Config::new("srv".to_string(), Some(&delay), true, Some(&tf), Some(&ob));
    assert_eq!(c.delay, 30);
    assert!(c.server);
    assert_eq!(c.client_time_from, "2015-09-05 23:56:04");
    assert_eq!(c.client_sort_by, "c");

    let bad = "abc".to_string();
    let c2 = Config::new("srv".to_string(), Some(&bad), false, None, None);
    assert_eq!(c2.delay, 60);
}
