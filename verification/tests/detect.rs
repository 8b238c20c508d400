use std::collections::HashMap;

use stayawake::config::{Config, DEFAULT_CONFIG};
use stayawake::detect::audio::{AudioDetector, Outputs, SessionInput, SessionRead};
use stayawake::detect::dl::{
    established_per_pid, is_busy, DlDetector, DlRead, IoReading, TcpFetch,
};
use stayawake::detect::hint::{
    classify, is_hint_name, note_bytes, note_of, read_note, HintDetector, HintFile, TICKS,
};
use stayawake::detect::net::{sample, NetDetector, NetRow};
use stayawake::detect::proc::ProcDetector;
use stayawake::detect::{
    filetime_u64, wide_to_string, CpuReading, CpuTracker, ProcessTable, ProcessTimes, RateMeter,
};
use stayawake::double::{Double, Number};

const SEC: u64 = 1_000_000_000;
const MS: u64 = 1_000_000;

fn num(x: f64) -> Number {
    Number::from_bits(x.to_bits())
}

fn double(x: f64) -> Double {
    match num(x) {
        Number::Signed { negative: false, size } => size,
        other => panic!("{:?}", other),
    }
}

fn value(d: Double) -> f64 {
    match d {
        Double::Finite { mantissa, exponent } => mantissa as f64 * 2f64.powi(exponent as i32),
        Double::Infinite => f64::INFINITY,
    }
}

fn cfg() -> Config {
    Config::from_text(DEFAULT_CONFIG)
}

fn wide(s: &str) -> Vec<u16> {
    s.encode_utf16().collect()
}

fn table(rows: &[(u32, &str)]) -> ProcessTable {
    let listing: Vec<(u32, Vec<u16>)> = rows
        .iter()
        .map(|(pid, name)| {
            let mut w = wide(name);
            w.resize(260, 0);
            (*pid, w)
        })
        .collect();
    ProcessTable::snapshot(&listing)
}

fn names(v: &[&str]) -> Vec<String> {
    v.iter().map(|s| s.to_string()).collect()
}

// ── processes ──

#[test]
fn the_table_finds_processes() {
    let t = table(&[(4, "System"), (100, "IDMan.exe"), (7, "node.exe"), (100, "again.exe")]);
    assert_eq!(t.count(), 4);
    assert_eq!(t.name_of(100), Some("IDMan.exe"));
    assert_eq!(t.name_of(5), None);
    assert!(t.alive(7) && !t.alive(8));
    let list = names(&["idman.EXE", "NODE.exe"]);
    assert_eq!(
        t.matching(&list),
        vec![(100, "IDMan.exe".to_string()), (7, "node.exe".to_string())]
    );
    assert!(t.matching(&names(&[])).is_empty());
}

#[test]
fn wide_strings_end_at_the_first_zero() {
    assert_eq!(wide_to_string(&[]), "");
    assert_eq!(wide_to_string(&[0, 65]), "");
    assert_eq!(wide_to_string(&[65, 66, 0, 67]), "AB");
    assert_eq!(wide_to_string(&wide("网易云音乐.exe")), "网易云音乐.exe");
    assert_eq!(wide_to_string(&wide("a😀b")), "a😀b");
    assert_eq!(wide_to_string(&[0xD83D, 65]), "\u{FFFD}A");
    assert_eq!(wide_to_string(&[65, 0xDE00]), "A\u{FFFD}");
    assert_eq!(wide_to_string(&[0xD83D]), "\u{FFFD}");
    assert_eq!(wide_to_string(&[0xFFFF, 0xE000]), "\u{FFFF}\u{E000}");
}

#[test]
fn file_times_have_two_halves() {
    assert_eq!(filetime_u64(0, 5), 5);
    assert_eq!(filetime_u64(1, 0), 0x1_0000_0000);
    assert_eq!(filetime_u64(u32::MAX, u32::MAX), u64::MAX);
}

// ── rates ──

#[test]
fn rate_meter_first_call_has_no_baseline() {
    let mut m = RateMeter::new();
    assert_eq!(m.update(1000, 77), None);
}

#[test]
fn rate_meter_computes_per_second_rate() {
    let t0 = 5 * SEC;
    let mut m = RateMeter::new();
    m.update(0, t0);
    let r = value(m.update(2048, t0 + 2 * SEC).unwrap());
    assert!((r - 1024.0).abs() < 0.001, "得到 {}", r);
}

#[test]
fn rate_meter_rejects_tiny_window() {
    let t0 = 5 * SEC;
    let mut m = RateMeter::new();
    m.update(0, t0);
    assert_eq!(m.update(1_000_000, t0 + 15 * MS), None);
}

#[test]
fn rate_meter_window_is_longer_than_fifty_milliseconds() {
    let mut m = RateMeter::new();
    m.update(0, 0);
    assert_eq!(m.update(1, 50 * MS), None);
    assert_eq!(m.update(2, 50 * MS + 50 * MS + 1), Some(double(1.0 / 0.050000001)));
    assert_eq!(m.update(3, 0), None);
}

#[test]
fn rate_meter_survives_counter_reset() {
    let t0 = 5 * SEC;
    let mut m = RateMeter::new();
    m.update(10_000, t0);
    let r = m.update(5, t0 + SEC).unwrap();
    assert_eq!(r, double(0.0));
}

#[test]
fn separate_meters_do_not_share_baseline() {
    let t0 = 5 * SEC;
    let mut probe = RateMeter::new();
    let mut tick = RateMeter::new();
    probe.update(0, t0);
    tick.update(0, t0);

    probe.update(1024, t0 + 2 * SEC);
    let r = value(tick.update(1024, t0 + 2015 * MS).expect("tick 应拿到完整窗口"));
    assert!(r > 400.0 && r < 600.0, "得到 {}", r);
}

// ── CPU ──

fn reading(pid: u32, create: u64, ticks: u64, at: u64) -> CpuReading {
    CpuReading {
        pid,
        times: Some(ProcessTimes { create, kernel: ticks / 2, user: ticks - ticks / 2 }),
        at,
    }
}

#[test]
fn cpu_tracker_first_sighting_returns_none() {
    let mut t = CpuTracker::new();
    assert_eq!(t.cpu_percent(reading(42, 1, 0, 0)), None, "首次见到某 pid 无法算差值");
}

#[test]
fn cpu_tracker_rejects_back_to_back_samples() {
    let mut t = CpuTracker::new();
    t.cpu_percent(reading(42, 1, 0, 0));
    assert_eq!(
        t.cpu_percent(reading(42, 1, 156_000, 5 * MS)),
        None,
        "窗口远小于 MIN_CPU_WINDOW"
    );
}

#[test]
fn cpu_tracker_reports_after_min_window() {
    let mut t = CpuTracker::new();
    t.cpu_percent(reading(42, 1, 0, 0));
    let pct = t.cpu_percent(reading(42, 1, 1_000_000, 400 * MS)).expect("窗口足够, 应能算出");
    assert_eq!(pct, double(0.1 / 0.4 * 100.0));
    let pct = t.cpu_percent(reading(42, 1, 500_000, 700 * MS)).unwrap();
    assert_eq!(pct, double(0.0));
}

#[test]
fn cpu_tracker_ignores_unknown_pid() {
    let mut t = CpuTracker::new();
    assert_eq!(t.cpu_percent(CpuReading { pid: 0, times: None, at: 9 }), None);
    assert!(t.cache.is_empty());
}

#[test]
fn cpu_tracker_detects_pid_reuse() {
    let mut t = CpuTracker::new();
    t.cpu_percent(reading(42, 1, 0, 0));
    assert_eq!(
        t.cpu_percent(reading(42, 1 ^ 0xDEAD_BEEF, 90_000_000, 10 * SEC)),
        None,
        "创建时间不同应判为 PID 复用"
    );
}

/// A process that was not looked at for an hour is measured over that hour.
#[test]
fn cpu_tracker_measures_over_the_gap() {
    let mut t = CpuTracker::new();
    t.cpu_percent(reading(42, 1, 0, 0));
    let unreadable = CpuReading { pid: 42, times: None, at: 3599 * SEC };
    assert_eq!(t.cpu_percent(unreadable), None);
    let hour = 3600 * 10_000_000;
    assert_eq!(t.cpu_percent(reading(42, 1, hour, 3600 * SEC)), Some(double(100.0)));
}

#[test]
fn cpu_tracker_forgets_ended_processes() {
    let mut t = CpuTracker::new();
    t.cpu_percent(reading(1, 1, 0, 0));
    t.cpu_percent(reading(2, 1, 0, 0));
    t.end_tick(&table(&[(2, "b"), (3, "c")]));
    assert_eq!(t.cache.len(), 1);
    assert_eq!(t.cpu_percent(reading(1, 1, 50_000_000, 10 * SEC)), None);
    assert_eq!(t.cpu_percent(reading(2, 1, 50_000_000, 10 * SEC)), Some(double(50.0)));
}

// ── processes that use the processor ──

fn proc_cfg(threshold: f64) -> Config {
    let mut c = cfg();
    c.proc_cpu_percent_1core = num(threshold);
    c
}

#[test]
fn empty_whitelist_yields_nothing() {
    let mut d = ProcDetector::new();
    let mut c = proc_cfg(5.0);
    c.proc_busy_when_cpu.clear();
    assert!(d.tick(&c, &table(&[(1, "cargo.exe")]), &vec![reading(1, 1, 0, 0)]).is_empty());
}

#[test]
fn disabled_yields_nothing() {
    let mut d = ProcDetector::new();
    let mut c = proc_cfg(5.0);
    c.proc_enabled = false;
    assert!(d.tick(&c, &table(&[(1, "cargo.exe")]), &vec![reading(1, 1, 0, 0)]).is_empty());
    assert_eq!(d.status_lines(&c), vec!["  (disabled)"]);
}

#[test]
fn first_tick_never_reports() {
    let mut d = ProcDetector::new();
    let mut c = proc_cfg(0.1);
    c.proc_busy_when_cpu = names(&["stayawake.exe", "test.exe"]);
    let t = table(&[(1, "stayawake.exe"), (2, "test.exe")]);
    let out = d.tick(
        &c,
        &t,
        &vec![reading(1, 1, 990_000_000, 99 * SEC), reading(2, 1, 990_000_000, 99 * SEC)],
    );
    assert!(out.is_empty(), "首轮无差值可算, 得到 {:?}", out);
}

#[test]
fn does_not_participate_in_fast_probe() {
    let mut d = ProcDetector::new();
    assert!(!d.probe(&proc_cfg(5.0)));
}

#[test]
fn processes_of_one_name_count_together() {
    let mut d = ProcDetector::new();
    let c = proc_cfg(5.0);
    let t = table(&[(1, "rustc.exe"), (2, "CARGO.exe"), (3, "rustc.exe"), (4, "idle.exe")]);
    let first = vec![reading(1, 1, 0, 0), reading(2, 1, 0, 0), reading(3, 1, 0, 0)];
    assert!(d.tick(&c, &t, &first).is_empty());
    assert_eq!(
        d.status_lines(&c)[1],
        "    CARGO.exe                cpu=    0.0%/core"
    );
    let second = vec![
        reading(1, 1, 300_000, SEC),
        reading(2, 1, 499_990, SEC),
        reading(3, 1, 200_000, SEC),
    ];
    let out = d.tick(&c, &t, &second);
    assert_eq!(out.len(), 1);
    assert_eq!((out[0].kind, out[0].detail.as_str()), ("proc", "rustc.exe 5%"));
    assert_eq!(
        d.status_lines(&c),
        vec![
            "  threshold=5.0%/core  watching=11 name(s)",
            "    CARGO.exe                cpu=    5.0%/core",
            "    rustc.exe                cpu=    5.0%/core",
        ]
    );
    assert_eq!(d.last[0].1, double(0.049999 * 100.0));
}

#[test]
fn nothing_watched_is_said() {
    let mut d = ProcDetector::new();
    let c = proc_cfg(5.0);
    d.tick(&c, &table(&[(4, "System")]), &vec![]);
    assert_eq!(d.status_lines(&c)[1], "    (no watched process running)");
}

// ── network ──

fn net_cfg(threshold: u64, consec: u32) -> Config {
    let mut c = cfg();
    c.net_threshold_kbps = threshold;
    c.net_min_consecutive_tick = consec;
    c
}

fn card(bytes: u64) -> Vec<NetRow> {
    vec![NetRow {
        flags: 1,
        oper_status: 1,
        kind: 6,
        in_octets: bytes,
        out_octets: 0,
        alias: wide("以太网"),
    }]
}

#[test]
fn disabled_resets_state_and_baselines() {
    let mut d = NetDetector::new();
    let c0 = net_cfg(1, 1);
    d.tick(&c0, &card(0), 0);
    d.tick(&c0, &card(1 << 30), SEC);
    d.probe(&c0, &card(1 << 30), SEC);
    assert_eq!(d.consec, 1);

    let mut off = c0.clone();
    off.net_enabled = false;
    assert!(d.tick(&off, &card(1 << 30), 2 * SEC).is_empty());
    assert_eq!(d.consec, 0);
    assert_eq!(d.kbps, double(0.0));
    assert!(d.meter.prev.is_none(), "tick 基线未清");
    assert!(d.probe_meter.prev.is_none(), "probe 基线未清");
    assert_eq!(d.status_lines(&off), vec!["  (disabled)"]);
}

#[test]
fn first_tick_only_builds_baseline() {
    let mut d = NetDetector::new();
    assert!(d.tick(&net_cfg(1, 1), &card(1 << 40), SEC).is_empty());
}

#[test]
fn probe_and_tick_have_independent_baselines() {
    let mut d = NetDetector::new();
    let c = net_cfg(1, 1);
    d.probe(&c, &card(0), 0);
    assert!(d.probe_meter.prev.is_some(), "probe 应建立自己的基线");
    assert!(d.meter.prev.is_none(), "probe 不该碰 tick 的基线");

    d.tick(&c, &card(0), MS);
    assert!(d.meter.prev.is_some());
}

#[test]
fn absurd_threshold_never_fires() {
    let mut d = NetDetector::new();
    let c = net_cfg(u64::MAX, 1);
    for i in 0..3 {
        assert!(d.tick(&c, &card(i << 50), i * 60 * MS).is_empty());
    }
    assert_eq!(d.consec, 0);
}

#[test]
fn sample_excludes_filter_interfaces() {
    let row = |flags, oper_status, kind, bytes, alias: &str| NetRow {
        flags,
        oper_status,
        kind,
        in_octets: bytes,
        out_octets: 1,
        alias: wide(alias),
    };
    let rows = vec![
        row(0b101, 1, 6, 100, "Realtek"),
        row(0b010, 1, 6, 100, "Realtek-WFP"),
        row(0b111, 1, 6, 100, "Realtek-QoS"),
        row(0b001, 2, 6, 500, "down"),
        row(0b000, 1, 24, 900, "Loopback"),
        row(0b100, 1, 71, 7, "Wi-Fi"),
    ];
    let (total, ifaces) = sample(&rows);
    let mut seen: Vec<&String> = ifaces.iter().map(|(n, _)| n).collect();
    let before = seen.len();
    seen.sort();
    seen.dedup();
    assert_eq!(before, seen.len(), "网卡别名重复, 过滤层未排除: {:?}", ifaces);
    let sum: u64 = ifaces.iter().map(|(_, b)| *b).sum();
    assert_eq!(total, sum);
    assert_eq!(
        ifaces,
        vec![("Realtek".to_string(), 101), ("Wi-Fi".to_string(), 8)]
    );
}

#[test]
fn traffic_counts_after_enough_rounds_in_a_row() {
    let mut d = NetDetector::new();
    let c = net_cfg(1024, 2);
    let mb = 1u64 << 20;
    assert!(d.tick(&c, &card(0), 0).is_empty());
    assert!(d.tick(&c, &card(10 * mb), SEC).is_empty());
    let out = d.tick(&c, &card(20 * mb), 2 * SEC);
    assert_eq!((out[0].kind, out[0].detail.as_str()), ("net", "10.0MB/s"));
    // a quick look just before a round does not shorten its window
    assert!(!d.probe(&c, &card(30 * mb), 3 * SEC - MS));
    assert_eq!(d.tick(&c, &card(30 * mb), 3 * SEC).len(), 1);
    assert!(d.probe(&c, &card(40 * mb), 4 * SEC));
    assert!(d.tick(&c, &card(30 * mb), 4 * SEC).is_empty());
    assert_eq!(d.consec, 0);
    assert_eq!(
        d.status_lines(&c),
        vec![
            "  rate=0.0 KB/s (0.00 MB/s)  probe=10229.8 KB/s  threshold=1024 KB/s  consec=0/2",
            "    以太网                                total=31457280 B",
        ]
    );
}

#[test]
fn slow_traffic_is_told_in_kilobytes() {
    let mut d = NetDetector::new();
    let c = net_cfg(100, 1);
    d.tick(&c, &card(0), 0);
    let out = d.tick(&c, &card(500 * 1024), SEC);
    assert_eq!(out[0].detail, "500KB/s");
}

// ── downloads ──

#[test]
fn high_throughput_is_busy() {
    let r = DlRead { kbps: double(500.0), conns: 0, io_unreadable: 0 };
    assert!(is_busy(&r, &cfg()));
}

#[test]
fn many_connections_with_heartbeat_only_is_idle() {
    let r = DlRead { kbps: double(0.09), conns: 50, io_unreadable: 0 };
    assert!(!is_busy(&r, &cfg()), "心跳流量不该算忙");
}

#[test]
fn many_connections_with_zero_io_is_idle() {
    let r = DlRead { kbps: double(0.0), conns: 50, io_unreadable: 0 };
    assert!(!is_busy(&r, &cfg()));
}

#[test]
fn slow_but_real_download_is_busy() {
    let r = DlRead { kbps: double(20.0), conns: 8, io_unreadable: 0 };
    assert!(is_busy(&r, &cfg()), "20KB/s + 8 连接应算忙");
}

#[test]
fn low_conns_needs_main_threshold() {
    let c = cfg();
    assert!(!is_busy(&DlRead { kbps: double(30.0), conns: 1, io_unreadable: 0 }, &c));
    assert!(is_busy(&DlRead { kbps: double(60.0), conns: 1, io_unreadable: 0 }, &c));
}

#[test]
fn unreadable_io_falls_back_to_conns() {
    let c = cfg();
    assert!(is_busy(&DlRead { kbps: double(0.0), conns: 8, io_unreadable: 1 }, &c));
    assert!(!is_busy(&DlRead { kbps: double(0.0), conns: 1, io_unreadable: 1 }, &c));
}

#[test]
fn heartbeat_floor_separates_idle_from_download() {
    let c = cfg();
    assert!(!is_busy(&DlRead { kbps: double(0.09), conns: 20, io_unreadable: 0 }, &c));
    assert!(!is_busy(&DlRead { kbps: double(1.0), conns: 20, io_unreadable: 0 }, &c));
    assert!(is_busy(&DlRead { kbps: double(10.0), conns: 20, io_unreadable: 0 }, &c));
}

fn v4(rows: &[(u32, u32)]) -> Vec<u32> {
    let mut words = vec![rows.len() as u32];
    for (state, pid) in rows {
        words.extend_from_slice(&[*state, 1, 2, 3, 4, *pid]);
    }
    words
}

fn v6(rows: &[(u32, u32)]) -> Vec<u32> {
    let mut words = vec![rows.len() as u32];
    for (state, pid) in rows {
        words.extend_from_slice(&[0, 0, 0, 1, 0, 80, 0, 0, 0, 2, 0, 443, *state, *pid]);
    }
    words
}

#[test]
fn established_per_pid_works_on_real_system() {
    let map = established_per_pid(
        &Some(v4(&[(5, 10), (2, 10), (5, 11), (5, 10)])),
        &Some(v6(&[(5, 10), (11, 12)])),
    );
    for (&pid, &n) in &map {
        assert!(pid != 0 || n > 0);
        assert!(n < 100_000, "pid {} 有 {} 条连接?", pid, n);
    }
    assert_eq!(map.get(&10), Some(&3));
    assert_eq!(map.get(&11), Some(&1));
    assert_eq!(map.get(&12), None);
    assert!(established_per_pid(&None, &None).is_empty());
}

#[test]
fn a_table_that_claims_more_rows_than_it_has_is_cut() {
    let mut words = v4(&[(5, 10), (5, 11)]);
    words[0] = 1000;
    let map = established_per_pid(&Some(words), &Some(vec![]));
    assert_eq!(map.len(), 2);
    let map = established_per_pid(&Some(vec![u32::MAX]), &Some(vec![3, 5, 5]));
    assert!(map.is_empty());
}

#[test]
fn a_table_is_asked_for_again_while_it_grows() {
    let f = TcpFetch::Size.after(122, 401);
    assert_eq!(f, TcpFetch::Rows { words: 101, tries_left: 3 });
    assert_eq!(f.after(0, 0), TcpFetch::Done);
    assert_eq!(f.after(87, 0), TcpFetch::Failed);
    let f = f.after(122, 800);
    assert_eq!(f, TcpFetch::Rows { words: 200, tries_left: 2 });
    let f = f.after(122, 1200).after(122, 1600);
    assert_eq!(f, TcpFetch::Failed);
    assert_eq!(TcpFetch::Size.after(0, 400), TcpFetch::Failed);
    assert_eq!(TcpFetch::Size.after(122, 0), TcpFetch::Failed);
}

#[test]
fn downloads_are_measured_process_by_process() {
    let mut d = DlDetector::new();
    let c = cfg();
    let t = table(&[(1, "aria2c.exe"), (2, "IDMan.exe"), (3, "idman.exe"), (4, "x.exe")]);
    let mut conns = HashMap::new();
    conns.insert(2, 3);
    conns.insert(3, 5);
    conns.insert(4, 99);
    let io = |pid, bytes: u64, at| IoReading { pid, bytes: Some((bytes / 2, bytes - bytes / 2)), at };
    let first = vec![io(1, 0, 0), io(2, 0, 0), io(3, 0, 0)];
    assert!(d.tick(&c, &t, &conns, &first).is_empty());
    let second = vec![io(1, 1024, SEC), io(2, 10 * 1024, SEC), io(3, 60 * 1024, SEC)];
    let out = d.tick(&c, &t, &conns, &second);
    assert_eq!(out.len(), 1);
    assert_eq!((out[0].kind, out[0].detail.as_str()), ("dl", "idman.exe io=60KB/s tcp=5"));
    assert_eq!(
        d.status_lines(&c),
        vec![
            "  busy if io>=50KB/s, or (tcp>=4 and io>=5KB/s)  watching=[IDMan.exe, idmBroker.exe, aria2c.exe]",
            "    IDMan.exe                io=     10.0 KB/s  established_tcp=3",
            "    aria2c.exe               io=      1.0 KB/s  established_tcp=0",
            "    idman.exe                io=     60.0 KB/s  established_tcp=5",
        ]
    );
    // an unreadable process is told apart from one that moves nothing
    let third = vec![IoReading { pid: 2, bytes: None, at: 2 * SEC }];
    let out = d.tick(&c, &table(&[(2, "IDMan.exe")]), &HashMap::from([(2, 4)]), &third);
    assert_eq!(out[0].detail, "IDMan.exe io=0KB/s tcp=4");
    assert!(d.status_lines(&c)[1].ends_with("established_tcp=4  [1 proc io unreadable]"));
    assert_eq!(d.meters.len(), 1);
    assert!(d.tick(&c, &table(&[]), &conns, &vec![]).is_empty());
    assert!(d.meters.is_empty());
    assert_eq!(d.status_lines(&c)[1], "    (no downloader running)");
    assert!(!d.probe(&c));
}

// ── hints ──

#[test]
fn fresh_within_ttl() {
    let now = 133_000_000_000_000_000;
    let (age, fresh, future) = classify(now, now - 10 * TICKS, 60);
    assert_eq!(age, 10);
    assert!(fresh);
    assert!(!future);
}

#[test]
fn stale_beyond_ttl() {
    let now = 133_000_000_000_000_000;
    let (age, fresh, future) = classify(now, now - 300 * TICKS, 60);
    assert_eq!(age, 300);
    assert!(!fresh, "超过 TTL 必须过期 —— 写方崩溃不该把机器永久卡醒");
    assert!(!future);
}

#[test]
fn exactly_at_ttl_is_still_fresh() {
    let now = 133_000_000_000_000_000;
    let (_, fresh, _) = classify(now, now - 60 * TICKS, 60);
    assert!(fresh);
    assert!(!classify(now, now - 60 * TICKS - 1, 60).1);
}

#[test]
fn future_mtime_is_stale_not_fresh() {
    let now = 133_000_000_000_000_000;
    let (_, fresh, future) = classify(now, now + 8 * 3600 * TICKS, 60);
    assert!(!fresh, "未来 mtime 必须视为过期");
    assert!(future, "要标记出来以便 --status 里看得见");
}

#[test]
fn note_reads_first_line_only() {
    assert_eq!(read_note(&Some(b"first line\nsecond line\n".to_vec())), "first line");
}

#[test]
fn note_truncates_long_content() {
    assert!(read_note(&Some("x".repeat(500).into_bytes())).len() <= 60);
    assert_eq!(read_note(&Some("x".repeat(500).into_bytes())), "x".repeat(60));
}

/// A note takes no more than 60 bytes, and is not cut inside a character.
#[test]
fn notes_are_cut_at_a_character() {
    let long = format!("a{}", "中".repeat(20));
    assert_eq!(long.len(), 61);
    assert_eq!(read_note(&Some(long.into_bytes())), format!("a{}", "中".repeat(19)));
    assert_eq!(read_note(&Some("中".repeat(20).into_bytes())), "中".repeat(20));
    assert_eq!(read_note(&Some(vec![0xFF; 60])), "\u{FFFD}".repeat(20));
    assert_eq!(read_note(&Some(format!("{}x", " ".repeat(60)).into_bytes())), "");
    assert_eq!(note_of(&"😀".repeat(16)), "😀".repeat(15));
}

#[test]
fn note_of_missing_file_is_empty() {
    assert_eq!(read_note(&None), "");
}

#[test]
fn notes_are_trimmed_and_repaired() {
    assert_eq!(read_note(&Some("  编译中 \r\n".as_bytes().to_vec())), "编译中");
    assert_eq!(read_note(&Some(vec![b'a', 0xFF, b'b'])), "a\u{FFFD}b");
    assert_eq!(note_bytes(b"ab\rcd"), b"ab");
    assert_eq!(note_bytes(b""), b"");
    assert_eq!(note_of("\t x \u{3000}"), "x");
    assert_eq!(note_bytes("y".repeat(99).as_bytes()).len(), 99);
}

#[test]
fn hint_names_have_the_extension() {
    assert!(is_hint_name("a.hint"));
    assert!(is_hint_name("a.b.hint"));
    assert!(is_hint_name("..hint"));
    assert!(!is_hint_name(".hint"));
    assert!(!is_hint_name("a.HINT"));
    assert!(!is_hint_name("ahint"));
    assert!(!is_hint_name("a.hint.tmp"));
}

#[test]
fn fresh_hints_are_reasons() {
    let now = 133_000_000_000_000_000;
    let file = |name: &str, modified, content: &str| HintFile {
        name: name.to_string(),
        modified,
        content: Some(content.as_bytes().to_vec()),
    };
    let mut d = HintDetector::new();
    let mut c = cfg();
    let listing = Some(vec![
        file("task.hint", Some(now - 5 * TICKS), "building\nmore"),
        file("bare.hint", Some(now), ""),
        file("old.hint", Some(now - 400 * TICKS), "gone"),
        file("later.hint", Some(now + TICKS), "odd"),
        file("notes.txt", Some(now), "no"),
        file("unknown.hint", None, "no"),
    ]);
    let out = d.tick(&c, &listing, now);
    let told: Vec<&str> = out.iter().map(|r| r.detail.as_str()).collect();
    assert_eq!(told, vec!["task.hint(building)", "bare.hint"]);
    assert!(d.probe(&c, &listing, now));
    assert!(!d.probe(&c, &listing, now + 100 * TICKS));
    d.tick(&c, &listing, now);
    assert_eq!(
        d.status_lines(&c, "C:\\hints"),
        vec![
            "  dir=C:\\hints  ttl=60s",
            "    task.hint                    age=   5s fresh  building",
            "    bare.hint                    age=   0s fresh  ",
            "    old.hint                     age= 400s STALE  gone",
            "    later.hint                   age=   0s FUTURE odd",
        ]
    );
    assert!(d.tick(&c, &None, now).is_empty());
    assert_eq!(d.status_lines(&c, "C:\\hints")[1], "    (no hint files)");
    c.hint_enabled = false;
    assert!(d.tick(&c, &listing, now).is_empty());
    assert_eq!(d.status_lines(&c, "C:\\hints"), vec!["  (disabled)"]);
}

// ── sound ──

fn outputs<T>(readings: Vec<T>) -> Outputs<T> {
    Outputs { available: true, count: Some(readings.len() as u32), readings }
}

fn session(pid: u32, active: bool, peak: Option<f64>) -> SessionInput {
    SessionInput {
        system_sounds: 1,
        pid: Some(pid),
        state: Some(active as i32),
        peak: peak.map(num),
    }
}

/// Without a way to ask the system, the detector says so and finds nothing.
#[test]
fn works_without_com_init() {
    let mut d = AudioDetector::new();
    let c = cfg();
    let nothing = Outputs { available: false, count: None, readings: vec![] };
    let _ = d.probe(&c, &nothing, 0);
    let nothing = Outputs { available: false, count: None, readings: vec![] };
    let _ = d.tick(&c, &table(&[]), &nothing, 0);
    assert!(!d.status_lines(&c).is_empty());
    assert_eq!(d.status_lines(&c), vec!["  (enumerator unavailable)"]);
}

#[test]
fn disabled_yields_nothing_and_clears_state() {
    let mut d = AudioDetector::new();
    let mut c = cfg();
    d.tick(&c, &table(&[]), &outputs(vec![vec![session(7, true, Some(0.5))]]), 0);
    assert!(!d.last_loud.is_empty());
    c.audio_enabled = false;
    assert!(!d.probe(&c, &outputs(vec![Some(num(1.0))]), 0));
    assert!(d
        .tick(&c, &table(&[]), &outputs(vec![vec![session(7, true, Some(0.5))]]), 0)
        .is_empty());
    assert!(d.last.is_empty());
    assert!(d.last_loud.is_empty());
}

#[test]
fn enumerates_real_endpoints() {
    let mut d = AudioDetector::new();
    let c = cfg();
    let t = table(&[(1, "wallpaper64.exe"), (2, "player.exe")]);
    let _ = d.tick(
        &c,
        &t,
        &outputs(vec![vec![session(1, true, Some(0.5))], vec![session(2, true, Some(0.5))]]),
        0,
    );
    assert!(d.endpoints > 0, "应能枚举到输出端点");
    for r in &d.last {
        if r.ignored {
            assert!(
                c.audio_ignore.iter().any(|w| w.eq_ignore_ascii_case(&r.name)),
                "{} 被标记 ignored 但不在名单里",
                r.name
            );
        }
    }
    assert!(d.last[0].ignored && !d.last[1].ignored);
}

#[test]
fn ignored_process_never_produces_reason() {
    let mut d = AudioDetector::new();
    let mut c = cfg();
    c.audio_ignore = vec!["ignored.exe".into()];
    d.last = vec![SessionRead {
        endpoint: 0,
        pid: 1234,
        name: "ignored.exe".into(),
        active: true,
        peak: Some(num(0.9)),
        quiet_for: Some(0),
        ignored: true,
    }];
    let lines = d.status_lines(&c);
    assert!(lines.iter().any(|l| l.contains("[ignored]")));
    let out = d.tick(
        &c,
        &table(&[(1234, "Ignored.EXE")]),
        &outputs(vec![vec![session(1234, true, Some(0.9))]]),
        0,
    );
    assert!(out.is_empty());
}

#[test]
fn peak_hold_window_semantics() {
    let hold = cfg().audio_hold_secs as f64;
    assert!(hold >= 5.0, "hold 太短会让抖动回来");

    let just_loud = 0.0_f64;
    assert!(just_loud < hold);
    assert!(hold + 1.0 >= hold);

    let mut d = AudioDetector::new();
    let c = cfg();
    let t = table(&[(9, "music.exe")]);
    let silent = || outputs(vec![vec![session(9, true, Some(0.0))]]);
    assert!(d.tick(&c, &t, &silent(), 0).is_empty());
    assert_eq!(d.tick(&c, &t, &outputs(vec![vec![session(9, true, Some(0.25))]]), SEC).len(), 1);
    assert_eq!(d.tick(&c, &t, &silent(), 20 * SEC).len(), 1);
    assert!(d.tick(&c, &t, &silent(), 21 * SEC).is_empty());
}

#[test]
fn sessions_are_told_apart() {
    let mut d = AudioDetector::new();
    let c = cfg();
    let t = table(&[(1, "网易云.exe"), (2, "player.exe"), (3, "paused.exe")]);
    let mut system = session(1, true, Some(1.0));
    system.system_sounds = 0;
    let mut lost = session(1, true, Some(1.0));
    lost.pid = None;
    let out = d.tick(
        &c,
        &t,
        &outputs(vec![
            vec![system, lost, session(0, true, Some(1.0)), session(1, true, Some(0.875))],
            vec![session(2, true, None), session(3, false, Some(0.9)), session(44, true, Some(0.5))],
        ]),
        5 * SEC,
    );
    let told: Vec<&str> = out.iter().map(|r| r.detail.as_str()).collect();
    assert_eq!(told, vec!["网易云.exe(0.88)", "player.exe(exclusive)", "pid44(0.50)"]);
    assert!(out.iter().all(|r| r.kind == "audio"));
    d.probe(&c, &outputs(vec![Some(num(0.0015)), None]), 5 * SEC);
    assert_eq!(
        d.status_lines(&c),
        vec![
            "  render endpoints=2  sessions=4  hold=20s  ignore=[wallpaper64.exe, wallpaper32.exe, wallpaperservice32.exe, wallpaperservice64.exe]",
            "  device peaks (fast probe)=0.002 1.000",
            "    ep0 网易云.exe                pid=1      active=true  peak=  0.875 quiet=  0.0s ",
            "    ep1 player.exe             pid=2      active=true  peak=    n/a quiet=  0.0s ",
            "    ep1 paused.exe             pid=3      active=false peak=  0.900 quiet=  0.0s ",
            "    ep1 pid44                  pid=44     active=true  peak=  0.500 quiet=  0.0s ",
        ]
    );
    d.tick(&c, &t, &outputs(vec![vec![session(1, true, Some(0.0))]]), 5 * SEC + 350 * MS);
    assert_eq!(
        d.status_lines(&c)[2],
        "    ep0 网易云.exe                pid=1      active=true  peak=  0.000 quiet=  0.3s "
    );
    // a peak below zero is one that cannot be read
    let out = d.tick(&c, &t, &outputs(vec![vec![session(2, true, Some(-1.0))]]), 5 * SEC + 400 * MS);
    assert_eq!(out[0].detail, "player.exe(exclusive)");
    // sessions that are gone are forgotten
    d.tick(&c, &t, &outputs(vec![vec![session(2, true, Some(0.0))]]), 6 * SEC);
    assert_eq!(d.last_loud.len(), 1);
}

#[test]
fn the_quick_look_hears_what_cannot_be_read() {
    let mut d = AudioDetector::new();
    let mut c = cfg();
    assert!(!d.probe(&c, &outputs(vec![Some(num(0.0))]), 0));
    assert!(d.probe(&c, &outputs(vec![Some(num(0.0)), None]), SEC));
    assert!(d.probe(&c, &outputs(vec![Some(num(0.0))]), 20 * SEC));
    assert!(!d.probe(&c, &outputs(vec![Some(num(0.0))]), 21 * SEC));
    c.audio_peak_threshold = num(f64::INFINITY);
    assert!(!d.probe(&c, &outputs(vec![Some(num(1.0))]), 50 * SEC));
    assert!(d.probe(&c, &outputs(vec![None]), 50 * SEC));
    c.audio_peak_threshold = Number::Nan;
    assert!(d.probe(&c, &outputs(vec![Some(num(0.000001))]), 90 * SEC));
    assert!(!d.probe(&c, &outputs(vec![Some(num(0.000000999))]), 190 * SEC));
}
