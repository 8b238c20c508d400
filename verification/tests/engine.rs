use std::collections::HashMap;

use stayawake::config::{Config, DEFAULT_CONFIG};
use stayawake::detect::audio::{Outputs, SessionInput};
use stayawake::detect::hint::HintFile;
use stayawake::detect::net::NetRow;
use stayawake::detect::{ProcessTable, Reason};
use stayawake::double::Number;
use stayawake::engine::{
    decide, merge, Engine, Mode, QuickReadings, Readings, Snapshot,
};
use stayawake::power::{
    accepted, now_local, power_source, user_active_recently, Held, LastInput, LocalTime,
    PowerSource,
};

const SEC: u64 = 1_000_000_000;
const WALL: u64 = 133_000_000_000_000_000;

fn num(x: f64) -> Number {
    Number::from_bits(x.to_bits())
}

fn cfg_with(ac: &str, dc: &str, never_wake: bool) -> Config {
    let mut c = Config::from_text(DEFAULT_CONFIG);
    c.policy_ac = ac.to_string();
    c.policy_dc = dc.to_string();
    c.never_wake_display = never_wake;
    c
}

fn no_processes() -> ProcessTable {
    ProcessTable::snapshot(&vec![])
}

fn quiet(now: u64) -> Readings {
    Readings {
        audio: Outputs { available: true, count: Some(0), readings: vec![] },
        net: vec![],
        cpu: vec![],
        conns: HashMap::new(),
        io: vec![],
        hints: Some(vec![]),
        now,
        wall: WALL,
    }
}

fn hint(name: &str) -> HintFile {
    HintFile { name: name.to_string(), modified: Some(WALL), content: None }
}

fn quick(peaks: Vec<Option<Number>>, hints: Vec<HintFile>, now: u64) -> QuickReadings {
    QuickReadings {
        audio: Outputs { available: true, count: Some(peaks.len() as u32), readings: peaks },
        net: vec![],
        hints: Some(hints),
        now,
        wall: WALL,
    }
}

#[test]
fn idle_never_holds() {
    for ac in [true, false] {
        for disp in [true, false] {
            let c = cfg_with("display", "display", false);
            assert_eq!(decide(&c, ac, disp, false), Held::Nothing);
        }
    }
}

#[test]
fn default_policy_truth_table() {
    let c = Config::from_text(DEFAULT_CONFIG);
    assert_eq!(decide(&c, true, true, true), Held::System, "AC 屏幕亮");
    assert_eq!(decide(&c, true, false, true), Held::System, "AC 屏幕已熄");
    assert_eq!(decide(&c, false, true, true), Held::SystemDisplay, "DC 屏幕亮");
    assert_eq!(decide(&c, false, false, true), Held::System, "DC 屏幕已熄");
}

#[test]
fn never_wake_display_off_allows_waking_screen() {
    let c = cfg_with("system", "display", false);
    assert_eq!(
        decide(&c, false, false, true),
        Held::SystemDisplay,
        "关掉 never_wake_display 后应主动点亮"
    );
}

#[test]
fn display_policy_on_ac_keeps_screen() {
    let c = cfg_with("display", "system", true);
    assert_eq!(decide(&c, true, true, true), Held::SystemDisplay);
    assert_eq!(decide(&c, false, true, true), Held::System, "DC 用 system 策略");
}

#[test]
fn unknown_policy_falls_back_to_system() {
    let c = cfg_with("乱写", "乱写", true);
    assert_eq!(decide(&c, true, true, true), Held::System);
    assert_eq!(decide(&c, false, true, true), Held::System);
}

#[test]
fn held_flags_are_sticky() {
    const ES_CONTINUOUS: u32 = 0x8000_0000;
    const ES_SYSTEM: u32 = 0x0000_0001;
    const ES_DISPLAY: u32 = 0x0000_0002;
    assert_eq!(Held::Nothing.flags(), ES_CONTINUOUS);
    assert_eq!(Held::System.flags(), ES_CONTINUOUS | ES_SYSTEM);
    assert_eq!(
        Held::SystemDisplay.flags(),
        ES_CONTINUOUS | ES_SYSTEM | ES_DISPLAY
    );
}

#[test]
fn describe_reflects_mode_over_held() {
    let snap = Snapshot {
        held: Held::System,
        mode: Mode::Paused,
        reasons: vec!["audio:foo".into()],
        in_grace: false,
        ac: true,
        display_on: true,
        force_left: None,
    };
    assert!(snap.describe().contains("已暂停"), "暂停时不该显示持有原因");

    let snap2 = Snapshot { mode: Mode::Auto, ..snap.clone() };
    assert!(snap2.describe().contains("audio:foo"));
    assert_eq!(snap2.describe(), "仅防睡 · audio:foo");

    let idle = Snapshot {
        held: Held::Nothing,
        reasons: vec![],
        ..snap2.clone()
    };
    assert!(idle.describe().contains("空闲"));

    let grace = Snapshot {
        held: Held::System,
        reasons: vec![],
        in_grace: true,
        ..snap2.clone()
    };
    assert!(grace.describe().contains("宽限期"));

    let forced = Snapshot {
        held: Held::SystemDisplay,
        mode: Mode::Force(0),
        force_left: Some(125 * SEC + 999_999_999),
        ..snap2.clone()
    };
    assert_eq!(forced.describe(), "强制常亮 · 剩余 2分5秒");
    let both = Snapshot {
        held: Held::SystemDisplay,
        reasons: vec!["audio:a".into(), "net:2.0MB/s".into()],
        ..snap2
    };
    assert_eq!(both.describe(), "保持屏幕 · audio:a · net:2.0MB/s");
}

#[test]
fn labels_and_answers_are_exact() {
    assert_eq!(Held::Nothing.label(), "none");
    assert_eq!(Held::System.label(), "system");
    assert_eq!(Held::SystemDisplay.label(), "system+display");
    assert!(accepted(0x8000_0000));
    assert!(!accepted(0));
    assert_eq!(power_source(Some(1)), PowerSource::Ac);
    assert_eq!(power_source(Some(0)), PowerSource::Dc);
    assert_eq!(power_source(Some(255)), PowerSource::Unknown);
    assert_eq!(power_source(None), PowerSource::Unknown);
}

#[test]
fn local_time_has_a_fixed_width() {
    let now = LocalTime { year: 2024, month: 3, day: 9, hour: 1, minute: 2, second: 45 };
    assert_eq!(now_local(now), "2024-03-09 01:02:45");
}

#[test]
fn recent_input_is_within_the_window() {
    let input = |at, now| Some(LastInput { at, now });
    assert!(user_active_recently(None, 90));
    assert!(user_active_recently(input(1000, 90_999), 90));
    assert!(!user_active_recently(input(1000, 91_000), 90));
    assert!(!user_active_recently(input(1000, 999), 90));
    // the counter of the input has wrapped round once, and three times
    assert!(user_active_recently(input(400, 4_294_967_796), 90));
    assert!(!user_active_recently(input(400, 4_294_967_696 + 90_000), 90));
    assert!(user_active_recently(input(400, 3 * 4_294_967_296 + 401), 90));
    assert!(user_active_recently(input(u32::MAX, 4_294_967_296), 90));
}

#[test]
fn forced_modes_run_out() {
    assert_eq!(Mode::Force(10).effective(9), Mode::Force(10));
    assert_eq!(Mode::Force(10).effective(10), Mode::Auto);
    assert_eq!(Mode::Paused.effective(99), Mode::Paused);
    assert_eq!(Mode::Auto.effective(99), Mode::Auto);
}

#[test]
fn reasons_of_one_kind_are_merged() {
    let reason = |kind, detail: &str| Reason { kind, detail: detail.to_string() };
    let long = "x".repeat(40);
    let all = vec![
        reason("audio", "a"),
        reason("net", "1.0MB/s"),
        reason("audio", "b"),
        reason("audio", "c"),
        reason("hint", &long),
        reason("hint", &long),
        reason("hint", "dropped"),
    ];
    let out = merge(&all);
    let told: Vec<(&str, String)> = out.iter().map(|r| (r.kind, r.detail.clone())).collect();
    assert_eq!(
        told,
        vec![
            ("audio", "a, b, c".to_string()),
            ("net", "1.0MB/s".to_string()),
            ("hint", format!("{}, {}", long, long)),
        ]
    );
    // the length that counts is that in bytes
    let han = "网".repeat(27);
    let out = merge(&vec![reason("hint", &han), reason("hint", "y")]);
    assert_eq!(out[0].detail, han);
    let out = merge(&vec![reason("hint", &"网".repeat(26)), reason("hint", "y")]);
    assert!(out[0].detail.ends_with(", y"));
    assert!(merge(&vec![]).is_empty());
}

#[test]
fn a_round_goes_from_activity_over_grace_to_nothing() {
    let c = Config::from_text(DEFAULT_CONFIG);
    let mut e = Engine::new();
    let mut busy = quiet(SEC);
    busy.hints = Some(vec![hint("job.hint"), hint("more.hint")]);
    let found = e.detect(&c, &no_processes(), &busy);
    assert_eq!(found.len(), 1);
    assert_eq!(found[0].detail, "job.hint, more.hint");

    let p = e.step(&c, Mode::Auto, true, &found, PowerSource::Ac, SEC);
    assert_eq!(p.desired, Held::System);
    assert!(p.changed && p.ac && !p.in_grace);
    let s = e.settle(p, true);
    assert!(s.changed && !s.warn);
    assert_eq!(s.snapshot.reasons, vec!["hint:job.hint, more.hint"]);
    assert_eq!(e.held(), Held::System);

    let found = e.detect(&c, &no_processes(), &quiet(90 * SEC));
    let p = e.step(&c, Mode::Auto, true, &found, PowerSource::Dc, 90 * SEC);
    assert!(p.in_grace && e.in_grace());
    assert_eq!(p.desired, Held::SystemDisplay);
    let s = e.settle(p, true);
    assert_eq!(s.snapshot.describe(), "保持屏幕 · 宽限期");

    let found = e.detect(&c, &no_processes(), &quiet(91 * SEC));
    let p = e.step(&c, Mode::Auto, true, &found, PowerSource::Unknown, 91 * SEC);
    assert_eq!((p.desired, p.in_grace), (Held::Nothing, false));
    assert!(e.settle(p, true).changed);
    assert_eq!(e.held(), Held::Nothing);
}

#[test]
fn modes_overrule_activity() {
    let c = Config::from_text(DEFAULT_CONFIG);
    let mut e = Engine::new();
    let found = vec![Reason { kind: "hint", detail: "x".to_string() }];
    let p = e.step(&c, Mode::Paused, true, &found, PowerSource::Ac, SEC);
    assert_eq!((p.desired, p.changed), (Held::Nothing, false));
    assert!(!e.settle(p, false).warn);
    let p = e.step(&c, Mode::Force(9 * SEC), false, &vec![], PowerSource::Ac, 4 * SEC);
    assert_eq!(p.desired, Held::SystemDisplay);
    assert_eq!(p.force_left, Some(5 * SEC));
    e.settle(p, true);
    let p = e.step(&c, Mode::Force(9 * SEC), false, &vec![], PowerSource::Ac, 200 * SEC);
    assert_eq!((p.desired, p.force_left), (Held::Nothing, Some(0)));
}

#[test]
fn a_refused_request_is_reported_once() {
    let c = Config::from_text(DEFAULT_CONFIG);
    let mut e = Engine::new();
    let force = Mode::Force(u64::MAX);
    let p = e.step(&c, force, true, &vec![], PowerSource::Ac, 0);
    let s = e.settle(p, false);
    assert!(s.warn && !s.changed);
    assert_eq!(s.snapshot.held, Held::Nothing);
    let p = e.step(&c, force, true, &vec![], PowerSource::Ac, SEC);
    assert!(p.changed);
    assert!(!e.settle(p, false).warn);
    let p = e.step(&c, force, true, &vec![], PowerSource::Ac, 2 * SEC);
    assert!(e.settle(p, true).changed);
    let p = e.step(&c, Mode::Paused, true, &vec![], PowerSource::Ac, 3 * SEC);
    assert!(e.settle(p, false).warn);
    assert_eq!(e.held(), Held::SystemDisplay);
}

#[test]
fn the_quick_look_stops_at_the_first_sign() {
    let c = Config::from_text(DEFAULT_CONFIG);
    let mut e = Engine::new();
    assert!(!e.probe(&c, &quick(vec![Some(num(0.0))], vec![], 0)));
    assert_eq!(e.net.probe_meter.prev, Some((0, 0)));
    assert!(e.probe(&c, &quick(vec![None], vec![hint("a.hint")], 60 * SEC)));
    assert_eq!(e.net.probe_meter.prev, Some((0, 0)), "声音已经命中, 不该再探网络");
    assert!(e.hint.last.is_empty());
    assert!(e.probe(&c, &quick(vec![Some(num(0.0))], vec![hint("a.hint")], 120 * SEC)));
    assert_eq!(e.hint.last.len(), 1);
}

#[test]
fn all_detectors_are_shown() {
    let c = Config::from_text(DEFAULT_CONFIG);
    let mut e = Engine::new();
    let mut r = quiet(SEC);
    r.audio.readings = vec![vec![SessionInput {
        system_sounds: 1,
        pid: Some(5),
        state: Some(1),
        peak: Some(num(0.5)),
    }]];
    let found = e.detect(&c, &no_processes(), &r);
    assert_eq!((found[0].kind, found[0].detail.as_str()), ("audio", "pid5(0.50)"));
    let lines = e.status_lines(&c, "H:\\hints");
    let heads: Vec<&String> = lines.iter().filter(|l| l.starts_with('[')).collect();
    assert_eq!(heads, vec!["[audio]", "[net]", "[proc]", "[dl]", "[hint]"]);
    assert_eq!(lines.last().unwrap(), "    (no hint files)");
}

fn card(bytes: u64) -> Vec<NetRow> {
    vec![NetRow {
        flags: 1,
        oper_status: 1,
        kind: 6,
        in_octets: bytes,
        out_octets: 0,
        alias: vec![],
    }]
}

/// The second of two quick looks sees the traffic between them, and neither changes what
/// the round after them finds.
#[test]
fn the_quick_look_sees_traffic_and_leaves_the_round_alone() {
    let c = Config::from_text("net_threshold_kbps = 1024\nnet_min_consecutive_tick = 1\n");
    let mega = 1024 * 1024;
    let round = |e: &mut Engine, bytes: u64, now: u64| {
        let mut r = quiet(now);
        r.net = card(bytes);
        let found = e.detect(&c, &no_processes(), &r);
        found.iter().map(|x| x.detail.clone()).collect::<Vec<String>>()
    };
    let look = |e: &mut Engine, bytes: u64, now: u64| {
        let mut q = quick(vec![Some(num(0.0))], vec![], now);
        q.net = card(bytes);
        e.probe(&c, &q)
    };
    let mut with = Engine::new();
    let mut without = Engine::new();
    assert!(round(&mut with, 0, 0).is_empty());
    assert!(round(&mut without, 0, 0).is_empty());
    assert!(!look(&mut with, 4 * mega, SEC));
    assert!(!look(&mut with, 5 * mega - 1, 2 * SEC));
    assert!(look(&mut with, 6 * mega, 3 * SEC));
    assert_eq!(round(&mut with, 20 * mega, 10 * SEC), vec!["2.0MB/s"]);
    assert_eq!(round(&mut without, 20 * mega, 10 * SEC), vec!["2.0MB/s"]);
}
