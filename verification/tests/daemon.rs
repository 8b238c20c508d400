use std::collections::HashMap;

use stayawake::config::{Config, DEFAULT_CONFIG};
use stayawake::daemon::{
    after_wait, clamp_to_force_deadline, command, due_time, full_due, log_config_warnings,
    started_line, status_report, take_mode, watching, Command, Report, Waited, Worker, HELP,
};
use stayawake::detect::audio::Outputs;
use stayawake::detect::hint::HintFile;
use stayawake::detect::{ProcessTable, Reason};
use stayawake::double::Number;
use stayawake::engine::{Engine, Mode, QuickReadings, Readings};
use stayawake::log::{after_failed_rename, event, rotate_if_needed, Rotation, HARD_CAP, MAX_SIZE};
use stayawake::power::{Held, LocalTime, PowerSource};

const SEC: u64 = 1_000_000_000;
const WALL: u64 = 133_000_000_000_000_000;
const NOON: LocalTime =
    LocalTime { year: 2025, month: 1, day: 2, hour: 12, minute: 0, second: 5 };

#[test]
fn force_deadline_does_not_affect_other_modes() {
    let now = 100 * SEC;
    assert_eq!(clamp_to_force_deadline(15, Mode::Auto, now), 15);
    assert_eq!(clamp_to_force_deadline(15, Mode::Paused, now), 15);
}

#[test]
fn force_deadline_shortens_sleep() {
    let now = 100 * SEC;
    let until = now + 4 * SEC;
    assert_eq!(clamp_to_force_deadline(15, Mode::Force(until), now), 4);
}

#[test]
fn force_deadline_rounds_up() {
    let now = 100 * SEC;
    let until = now + 3200 * 1_000_000;
    assert_eq!(clamp_to_force_deadline(15, Mode::Force(until), now), 4);
}

#[test]
fn force_deadline_never_lengthens_sleep() {
    let now = 100 * SEC;
    let until = now + 3600 * SEC;
    assert_eq!(clamp_to_force_deadline(2, Mode::Force(until), now), 2);
    assert_eq!(clamp_to_force_deadline(15, Mode::Force(until), now), 15);
}

#[test]
fn expired_force_never_yields_busy_loop() {
    let now = 100 * SEC;
    assert_eq!(clamp_to_force_deadline(15, Mode::Force(now), now), 1);
    let past = now - 10 * SEC;
    assert_eq!(clamp_to_force_deadline(15, Mode::Force(past), now), 1);
}

#[test]
fn arguments_are_commands() {
    assert_eq!(command(None), Command::Run);
    assert_eq!(command(Some("--status")), Command::Status);
    assert_eq!(command(Some("--install-autostart")), Command::InstallAutostart);
    assert_eq!(command(Some("--uninstall-autostart")), Command::UninstallAutostart);
    assert_eq!(command(Some("--help")), Command::Help);
    assert_eq!(command(Some("-h")), Command::Help);
    assert_eq!(command(Some("status")), Command::Unknown);
    assert!(HELP.starts_with("stayawake - "));
    assert!(HELP.contains("%LOCALAPPDATA%\\stayawake\\hints\\*.hint"));
    assert_eq!(
        started_line(true, false),
        "=== stayawake started === (EcoQoS=true priority=false)"
    );
}

#[test]
fn taking_the_mode_normalises_it() {
    let mut mode = Mode::Force(5);
    assert_eq!(take_mode(&mut mode, 4), Mode::Force(5));
    assert_eq!(mode, Mode::Force(5));
    assert_eq!(take_mode(&mut mode, 5), Mode::Auto);
    assert_eq!(mode, Mode::Auto);
}

#[test]
fn quick_looks_need_an_idle_automatic_mode() {
    let mut c = Config::from_text(DEFAULT_CONFIG);
    assert!(watching(&c, Held::Nothing, Mode::Auto));
    assert!(!watching(&c, Held::System, Mode::Auto));
    assert!(!watching(&c, Held::Nothing, Mode::Paused));
    assert!(!watching(&c, Held::Nothing, Mode::Force(9)));
    c.fast_poll_secs = 15;
    assert!(!watching(&c, Held::Nothing, Mode::Auto));
    c.fast_poll_secs = 0;
    assert!(!watching(&c, Held::Nothing, Mode::Auto));
}

#[test]
fn rounds_are_due_after_the_interval() {
    let c = Config::from_text(DEFAULT_CONFIG);
    assert!(full_due(&c, None, 0));
    assert!(!full_due(&c, Some(SEC), 16 * SEC - 1));
    assert!(full_due(&c, Some(SEC), 16 * SEC));
    assert!(!full_due(&c, Some(SEC), 0));
}

#[test]
fn waits_end_in_four_ways() {
    let r = after_wait(Waited::Expired, 9);
    assert_eq!((r.log, r.sleep_secs, r.kicked), (None, 0, false));
    let r = after_wait(Waited::Kicked, 9);
    assert_eq!((r.log, r.sleep_secs, r.kicked), (None, 0, true));
    let r = after_wait(Waited::NoTimer, 9);
    assert_eq!(
        (r.log, r.sleep_secs, r.kicked),
        (Some("warn: SetWaitableTimer 失败, 退化为 sleep"), 9, false)
    );
    let r = after_wait(Waited::Failed, 9);
    assert_eq!(
        (r.log, r.sleep_secs, r.kicked),
        (Some("warn: WaitForMultipleObjects 失败"), 5, false)
    );
    assert_eq!(after_wait(Waited::Failed, 2).sleep_secs, 2);
    assert_eq!(due_time(15), -150_000_000);
    assert_eq!(due_time(0), 0);
}

#[test]
fn warnings_are_logged_once() {
    let found = vec!["a".to_string(), "b".to_string(), "a".to_string()];
    let mut seen = vec!["b".to_string()];
    assert_eq!(log_config_warnings(&found, &mut seen), vec!["warn: a"]);
    assert_eq!(seen, vec!["b", "a"]);
    assert!(log_config_warnings(&found, &mut seen).is_empty());
}

#[test]
fn log_lines_carry_the_time() {
    let line = event(NOON, "hello");
    assert_eq!(line, "2025-01-02 12:00:05  hello\n");
    assert_eq!(line.len(), 19 + 2 + 5 + 1);
    assert_eq!(rotate_if_needed(None), Rotation::Keep);
    assert_eq!(rotate_if_needed(Some(MAX_SIZE)), Rotation::Keep);
    assert_eq!(rotate_if_needed(Some(MAX_SIZE + 1)), Rotation::Rename);
    assert_eq!(after_failed_rename(HARD_CAP), Rotation::Keep);
    assert_eq!(after_failed_rename(HARD_CAP + 1), Rotation::Truncate);
    assert_eq!((MAX_SIZE, HARD_CAP), (1024 * 1024, 4 * 1024 * 1024));
}

fn readings(hint: bool, now: u64) -> Readings {
    let file = HintFile { name: "job.hint".to_string(), modified: Some(WALL), content: None };
    Readings {
        audio: Outputs { available: true, count: Some(0), readings: vec![] },
        net: vec![],
        cpu: vec![],
        conns: HashMap::new(),
        io: vec![],
        hints: Some(if hint { vec![file] } else { vec![] }),
        now,
        wall: WALL,
    }
}

fn no_processes() -> ProcessTable {
    ProcessTable::snapshot(&vec![])
}

#[test]
fn the_worker_runs_a_whole_cycle() {
    let text = format!("sleep_on_release = true\ngrace_secs = x\n{}", DEFAULT_CONFIG);
    let (mut w, lines) = Worker::start(Config::from_text(&text));
    assert_eq!(lines, vec!["warn: grace_secs = x 无效或超出范围, 按 90 处理"]);
    assert!(!w.quick_look_first(Mode::Auto, 0), "首轮必须是完整检测");

    let table = no_processes();
    let round = w.begin_round(Mode::Auto, true, &table, &readings(true, SEC), PowerSource::Ac, SEC);
    assert_eq!(round.pending.desired, Held::System);
    let end = w.end_round(round, true, SEC);
    assert_eq!(end.log, vec!["system         ac=1 disp=on hint:job.hint"]);
    assert!(!end.suspend);
    assert_eq!(w.rest(Mode::Auto, SEC), 15);
    assert!(!w.quick_look_first(Mode::Auto, 2 * SEC), "已持有请求时不启用快速通道");

    let round =
        w.begin_round(Mode::Auto, true, &table, &readings(false, 16 * SEC), PowerSource::Ac, 16 * SEC);
    let end = w.end_round(round, true, 16 * SEC);
    assert!(end.log.is_empty() && end.snapshot.in_grace);

    let late = 95 * SEC;
    let round = w.begin_round(Mode::Auto, false, &table, &readings(false, late), PowerSource::Dc, late);
    let end = w.end_round(round, true, late);
    assert_eq!(
        end.log,
        vec!["none           ac=0 disp=off (idle)", "sleep_on_release -> SetSuspendState"]
    );
    assert!(end.suspend);
    assert_eq!(w.rest(Mode::Auto, late), 2);
    assert_eq!(w.rest(Mode::Paused, late), 15);
    assert_eq!(w.rest(Mode::Force(late + SEC / 2), late), 1);

    assert!(w.quick_look_first(Mode::Auto, late + SEC));
    w.kicked = true;
    assert!(!w.quick_look_first(Mode::Auto, late + SEC), "kick 不该被快速通道吞掉");
    w.kicked = false;
    let q = QuickReadings {
        audio: Outputs { available: true, count: Some(1), readings: vec![Some(Number::from_bits(0))] },
        net: vec![],
        hints: None,
        now: late + SEC,
        wall: WALL,
    };
    assert!(!w.quick_look(&q));
    assert!(!w.quick_look_first(Mode::Auto, late + 15 * SEC));

    let lines = w.reload(Config::from_text("grace_secs = x\ndl_tcp_conns = 0\n"));
    assert_eq!(
        lines,
        vec!["config reloaded", "warn: dl_tcp_conns = 0 无效或超出范围, 按 1 处理"]
    );
    assert_eq!(w.last_full, None);
}

#[test]
fn pausing_does_not_put_the_machine_to_sleep() {
    let text = format!("sleep_on_release = true\n{}", DEFAULT_CONFIG);
    let (mut w, _) = Worker::start(Config::from_text(&text));
    let table = no_processes();
    let round = w.begin_round(Mode::Auto, true, &table, &readings(true, SEC), PowerSource::Ac, SEC);
    w.end_round(round, true, SEC);
    let round =
        w.begin_round(Mode::Auto, true, &table, &readings(false, 2 * SEC), PowerSource::Ac, 2 * SEC);
    w.end_round(round, true, 2 * SEC);
    let late = 500 * SEC;
    let round =
        w.begin_round(Mode::Paused, true, &table, &readings(false, late), PowerSource::Ac, late);
    let end = w.end_round(round, true, late);
    assert_eq!(end.log, vec!["none           ac=1 disp=on (idle)"]);
    assert!(!end.suspend);
}

#[test]
fn a_refused_request_goes_into_the_log() {
    let (mut w, _) = Worker::start(Config::from_text(DEFAULT_CONFIG));
    let table = no_processes();
    let round = w.begin_round(Mode::Auto, true, &table, &readings(true, SEC), PowerSource::Ac, SEC);
    let end = w.end_round(round, false, SEC);
    assert_eq!(end.log, vec!["warn: SetThreadExecutionState failed (后续不再重复告警)"]);
    assert_eq!(end.snapshot.held, Held::Nothing);
}

#[test]
fn the_report_has_all_parts() {
    let text = format!("fast_poll_secs = 0\nhint_ttl_secs = 1\n{}", DEFAULT_CONFIG);
    let cfg = Config::from_text(&text);
    let engine = Engine::new();
    let report = || Report { ac: true, display_on: false, processes: 281, desired: Held::System };
    let found = vec![Reason { kind: "net", detail: "1.5MB/s".to_string() }];
    let out = status_report(NOON, &cfg, engine.status_lines(&cfg, "H:"), report(), &found);
    assert!(out.starts_with(
        "=== stayawake --status   2025-01-02 12:00:05\n\
         power=AC  display≈off  processes=281\n\
         poll=15s fast=offs grace=90s policy_ac=system policy_dc=display \
         never_wake_display=true sleep_on_release=false\n\
         \n\
         [配置告警]\n  hint_ttl_secs = 1 无效或超出范围, 按 10 处理\n\n\
         [audio]\n  (enumerator unavailable)\n[net]\n"
    ));
    assert!(out.ends_with("\n\n[结论]\n  net: 1.5MB/s\n  desired = system\n"));
    let out = status_report(NOON, &cfg, engine.status_lines(&cfg, "H:"), report(), &vec![]);
    assert!(out.ends_with("\n\n[结论]\n  本轮无活动命中\n  desired = system\n"));
}
