use stayawake::autostart::{
    account_name, add_run_call, delete_run_call, encode_utf16, esc, install, is_installed,
    query_run_call, query_task_call, schedule_call, task_xml, uninstall, unschedule_call,
    utf16_file, Install,
};
use stayawake::config::{Config, DEFAULT_CONFIG};
use stayawake::detect::wide_to_string;
use stayawake::engine::{Mode, Snapshot};
use stayawake::icon::{paint, Look};
use stayawake::power::Held;
use stayawake::tray::{
    autostart_installed, build_menu, current_look, current_tip, fill_tip, handle_command,
    hook_concerned, icon_bits, keeps_menu_open, menu_title, mouse_hook, on, packed_position,
    save_failed_line, save_failed_text, show_details, sync_menu_state, toggle, toggle_policy,
    wnd_proc, Action, Click, MenuState, Message, ID_AUTO, ID_AUTOSTART, ID_DETAILS, ID_DET_AUDIO,
    ID_DET_DL, ID_DET_HINT, ID_DET_NET, ID_DET_PROC, ID_EXIT, ID_FORCE_1H, ID_FORCE_30M,
    ID_FORCE_3H, ID_FORCE_INF, ID_OPEN_CFG, ID_OPEN_LOG, ID_PAUSE, ID_POLICY_AC, ID_POLICY_DC,
    ID_RELOAD, ID_TITLE,
};

const SEC: u64 = 1_000_000_000;

fn snapshot() -> Snapshot {
    Snapshot {
        held: Held::System,
        mode: Mode::Auto,
        reasons: vec!["audio:foo".to_string(), "hint:bar".to_string()],
        in_grace: false,
        ac: true,
        display_on: false,
        force_left: None,
    }
}

#[test]
fn the_look_follows_mode_and_request() {
    assert_eq!(current_look(Mode::Paused, Some(Held::System)), Look::Paused);
    assert_eq!(current_look(Mode::Force(1), None), Look::Force);
    assert_eq!(current_look(Mode::Auto, None), Look::Idle);
    assert_eq!(current_look(Mode::Auto, Some(Held::Nothing)), Look::Idle);
    assert_eq!(current_look(Mode::Auto, Some(Held::System)), Look::System);
    assert_eq!(current_look(Mode::Auto, Some(Held::SystemDisplay)), Look::SystemDisplay);
}

#[test]
fn bitmaps_are_stored_upside_down() {
    let bits = icon_bits(Look::Force);
    let px = paint(Look::Force, 32);
    assert_eq!(bits.len(), 1024);
    for y in 0..32 {
        assert_eq!(&bits[y * 32..y * 32 + 32], &px[(31 - y) * 32..(31 - y) * 32 + 32]);
    }
}

#[test]
fn tips_are_short() {
    assert_eq!(current_tip(&None), "stayawake — 启动中...");
    assert_eq!(current_tip(&Some(snapshot())), "stayawake — 仅防睡 · audio:foo · hint:bar");
    let mut long = snapshot();
    long.reasons = vec!["字".repeat(300)];
    let tip = current_tip(&Some(long));
    assert_eq!(tip.chars().count(), 120);
    assert!(tip.ends_with("字…"));
    assert_eq!(fill_tip("ab"), vec![97, 98]);
    assert_eq!(fill_tip(&"x".repeat(200)).len(), 127);
}

#[test]
fn the_title_shows_the_mode_of_the_moment() {
    assert_eq!(menu_title(Mode::Auto, &None), "启动中...");
    assert_eq!(menu_title(Mode::Paused, &Some(snapshot())), "已暂停 · 允许正常休眠");
    assert_eq!(menu_title(Mode::Auto, &Some(snapshot())), snapshot().describe());
}

#[test]
fn only_items_that_hand_the_focus_on_close_the_menu() {
    for id in [ID_EXIT, ID_OPEN_LOG, ID_OPEN_CFG, ID_DETAILS] {
        assert!(!keeps_menu_open(id));
    }
    for id in [ID_AUTO, ID_PAUSE, ID_FORCE_INF, ID_DET_HINT, ID_POLICY_DC, ID_RELOAD, ID_TITLE] {
        assert!(keeps_menu_open(id));
    }
}

#[test]
fn the_menu_and_its_ticks_agree() {
    let mut cfg = Config::from_text(DEFAULT_CONFIG);
    cfg.net_enabled = false;
    let state = MenuState { mode: Mode::Force(5), pick: ID_FORCE_3H, autostart: true };
    let rows = build_menu(&cfg, &state, "title");
    assert_eq!(rows.len(), 25);
    assert_eq!((rows[0].id, rows[0].label.as_str(), rows[0].grayed), (ID_TITLE, "title", true));
    assert_eq!(rows.iter().filter(|r| r.id == 0).count(), 5);
    assert_eq!((rows[24].id, rows[24].label.as_str()), (ID_EXIT, "退出"));
    let ticked: Vec<u32> = rows.iter().filter(|r| r.checked).map(|r| r.id).collect();
    assert_eq!(
        ticked,
        vec![
            ID_FORCE_3H,
            ID_DET_AUDIO,
            ID_DET_PROC,
            ID_DET_DL,
            ID_DET_HINT,
            ID_POLICY_DC,
            ID_AUTOSTART
        ]
    );
    let ticks = sync_menu_state(&cfg, &state);
    assert_eq!(ticks.len(), 14);
    for (id, on) in ticks {
        assert_eq!(rows.iter().find(|r| r.id == id).unwrap().checked, on);
    }
    let state = MenuState { mode: Mode::Auto, pick: ID_FORCE_3H, autostart: false };
    let ticks = sync_menu_state(&cfg, &state);
    assert_eq!(ticks[0], (ID_AUTO, true));
    assert_eq!(ticks[4], (ID_FORCE_3H, false));
}

#[test]
fn positions_are_packed() {
    assert_eq!(packed_position(3, 5), 0x5_0003);
    assert_eq!(packed_position(-1, 0), 0xFFFF);
    assert_eq!(packed_position(0, -1), 0xFFFF_FFFF_0000);
}

#[test]
fn commands_lead_to_actions() {
    let cfg = Config::from_text(DEFAULT_CONFIG);
    let act = |id| handle_command(id, &cfg, 7 * SEC, None);
    let mode = |id| match act(id) {
        Action::SetMode { mode, pick } => (mode, pick),
        _ => panic!("no mode"),
    };
    assert_eq!(mode(ID_AUTO), (Mode::Auto, 0));
    assert_eq!(mode(ID_PAUSE), (Mode::Paused, 0));
    assert_eq!(mode(ID_FORCE_30M), (Mode::Force((7 + 1800) * SEC), ID_FORCE_30M));
    assert_eq!(mode(ID_FORCE_1H), (Mode::Force((7 + 3600) * SEC), ID_FORCE_1H));
    assert_eq!(mode(ID_FORCE_3H), (Mode::Force((7 + 10800) * SEC), ID_FORCE_3H));
    assert_eq!(
        mode(ID_FORCE_INF),
        (Mode::Force((7 + 3650 * 24 * 3600) * SEC), ID_FORCE_INF)
    );
    let save = |id| match act(id) {
        Action::Save { key, value } => (key, value),
        _ => panic!("nothing saved"),
    };
    assert_eq!(save(ID_DET_AUDIO), ("audio_enabled", "false"));
    assert_eq!(save(ID_DET_NET), ("net_enabled", "false"));
    assert_eq!(save(ID_DET_PROC), ("proc_enabled", "false"));
    assert_eq!(save(ID_DET_DL), ("dl_enabled", "false"));
    assert_eq!(save(ID_DET_HINT), ("hint_enabled", "false"));
    assert_eq!(save(ID_POLICY_AC), ("policy_ac", "display"));
    assert_eq!(save(ID_POLICY_DC), ("policy_dc", "system"));
    assert!(matches!(act(ID_AUTOSTART), Action::Autostart { installing: true }));
    assert!(matches!(
        handle_command(ID_AUTOSTART, &cfg, 0, Some(true)),
        Action::Autostart { installing: false }
    ));
    assert!(matches!(act(ID_OPEN_LOG), Action::OpenLog));
    assert!(matches!(act(ID_OPEN_CFG), Action::OpenConfig));
    assert!(matches!(act(ID_RELOAD), Action::Reload));
    assert!(matches!(act(ID_DETAILS), Action::Details));
    assert!(matches!(act(ID_EXIT), Action::Exit));
    assert!(matches!(act(ID_TITLE), Action::Ignore));
    assert!(matches!(act(0), Action::Ignore));
    assert_eq!((toggle(true), toggle(false)), ("false", "true"));
    assert_eq!((toggle_policy("display"), toggle_policy("system")), ("system", "display"));
}

/// Picking every detector and policy twice brings the file back to its settings.
#[test]
fn picking_twice_restores_the_settings() {
    let mut cfg = Config::from_text("audio_enabled = off # mine\npolicy_ac=DISPLAY\naudio_enabled=1\n");
    let flags = |c: &Config| {
        vec![c.audio_enabled, c.net_enabled, c.proc_enabled, c.dl_enabled, c.hint_enabled]
    };
    let before = (flags(&cfg), cfg.policy_ac.clone(), cfg.policy_dc.clone());
    for id in [
        ID_DET_AUDIO, ID_DET_NET, ID_DET_PROC, ID_DET_DL, ID_DET_HINT, ID_POLICY_AC, ID_POLICY_DC,
    ] {
        for _ in 0..2 {
            let held = (flags(&cfg), cfg.policy_ac.clone(), cfg.policy_dc.clone());
            if let Action::Save { key, value } = handle_command(id, &cfg, 0, None) {
                cfg.set_and_save(key, value);
            }
            assert_ne!((flags(&cfg), cfg.policy_ac.clone(), cfg.policy_dc.clone()), held);
        }
    }
    assert_eq!((flags(&cfg), cfg.policy_ac.clone(), cfg.policy_dc.clone()), before);
}

#[test]
fn clicks_in_the_menu_run_items_in_place() {
    assert_eq!(mouse_hook(-1, 0, true), Click::Pass);
    assert_eq!(mouse_hook(24, ID_EXIT, true), Click::Pass);
    assert_eq!(mouse_hook(2, ID_AUTO, false), Click::Swallow);
    assert_eq!(mouse_hook(2, ID_AUTO, true), Click::Run);
    assert_eq!(mouse_hook(0, ID_TITLE, true), Click::Swallow);
    assert_eq!(mouse_hook(1, 0, true), Click::Swallow);
    assert!(hook_concerned(true, true, true, true));
    assert!(!hook_concerned(true, true, true, false));
}

#[test]
fn messages_lead_to_reactions() {
    let r = wnd_proc(Message::TaskbarCreated, Mode::Auto, true);
    assert!(r.add_icon && r.answer == Some(0));
    let r = wnd_proc(Message::TrayClick, Mode::Auto, true);
    assert!(r.set_mode == Some(Mode::Paused) && r.refresh_icon);
    let r = wnd_proc(Message::TrayClick, Mode::Force(3), true);
    assert_eq!(r.set_mode, Some(Mode::Auto));
    assert!(wnd_proc(Message::TrayDoubleClick, Mode::Auto, true).show_details);
    assert!(wnd_proc(Message::TrayMenu, Mode::Auto, true).show_menu);
    let r = wnd_proc(Message::Command(111), Mode::Auto, true);
    assert!(r.command == Some(111) && r.refresh_icon);
    assert!(wnd_proc(Message::StateChanged, Mode::Auto, true).refresh_icon);
    let r = wnd_proc(Message::Display(0), Mode::Auto, true);
    assert!(r.display_on == Some(false) && r.wake_worker && r.answer == Some(1));
    let r = wnd_proc(Message::Display(2), Mode::Auto, true);
    assert!(r.display_on == Some(true) && !r.wake_worker);
    assert!(wnd_proc(Message::PowerStatus, Mode::Auto, true).wake_worker);
    let r = wnd_proc(Message::Resumed, Mode::Auto, false);
    assert!(r.display_on == Some(true) && r.wake_worker);
    assert_eq!(wnd_proc(Message::PowerOther, Mode::Auto, true).answer, Some(1));
    let r = wnd_proc(Message::Destroyed, Mode::Auto, true);
    assert!(r.remove_icon && r.quit);
    assert_eq!(wnd_proc(Message::Other, Mode::Auto, true).answer, None);
    assert_eq!(wnd_proc(Message::TrayOther, Mode::Auto, true).answer, Some(0));
}

#[test]
fn autostart_is_not_waited_for() {
    assert_eq!(autostart_installed(None), (false, true));
    assert_eq!(autostart_installed(Some(true)), (true, false));
    assert_eq!(autostart_installed(Some(false)), (false, false));
}

#[test]
fn details_are_complete() {
    let cfg = Config::from_text(DEFAULT_CONFIG);
    let tail = "\r\n\r\n轮询 15s   宽限 90s\r\n\
                策略  插电=system  电池=display  never_wake_display=true\r\n\
                检测  音频✓ 网络✓ 进程✓ 下载器✓ 提示✓\r\n\r\n\
                完整读数请运行:  stayawake.exe --status";
    assert_eq!(
        show_details(&cfg, &None, ""),
        format!("stayawake 当前状态\r\n\r\n(worker 尚未完成首轮检测){}", tail)
    );
    assert_eq!(
        show_details(&cfg, &Some(snapshot()), "never shown"),
        format!(
            "stayawake 当前状态\r\n\r\n供电: AC (插电)      显示器: 关\r\n持有: system\r\n\
             模式: Auto\r\n原因: audio:foo\r\n      hint:bar{}",
            tail
        )
    );
    let mut s = snapshot();
    s.reasons.clear();
    s.mode = Mode::Force(12);
    let deadline = format!("{:?}", std::time::Instant::now());
    let line = format!("模式: Force({})\r\n原因: (无)\r\n", deadline);
    assert!(show_details(&cfg, &Some(s), &deadline).contains(&line));
    assert_eq!((on(true), on(false)), ("✓", "✗"));
}

#[test]
fn failures_to_save_are_told() {
    assert_eq!(save_failed_line("k", "e"), "warn: set_and_save(k) 失败: e");
    assert_eq!(save_failed_text("k", "v", "e"), "无法保存配置项 k = v\r\n\r\ne");
}

// ── starting with the session ──

#[test]
fn accounts_have_a_domain_where_it_is_known() {
    let s = |v: &str| Some(v.to_string());
    assert_eq!(account_name(&s("me"), &s("PC")), "PC\\me");
    assert_eq!(account_name(&s("me"), &s("")), "me");
    assert_eq!(account_name(&s("me"), &None), "me");
    assert_eq!(account_name(&None, &s("PC")), "");
}

#[test]
fn xml_text_is_escaped() {
    assert_eq!(esc("a&b<c>\"d\""), "a&amp;b&lt;c&gt;&quot;d&quot;");
    assert_eq!(esc("&lt;"), "&amp;lt;");
    assert_eq!(esc("C:\\程序"), "C:\\程序");
}

/// The three defaults that would stop the program are off.
#[test]
fn the_task_has_no_traps() {
    let xml = task_xml("PC\\a&b", "C:\\x & y\\stayawake.exe", "C:\\x & y");
    assert!(xml.starts_with("<?xml version=\"1.0\" encoding=\"UTF-16\"?>\n<Task "));
    assert!(xml.contains("<DisallowStartIfOnBatteries>false</DisallowStartIfOnBatteries>"));
    assert!(xml.contains("<StopIfGoingOnBatteries>false</StopIfGoingOnBatteries>"));
    assert!(xml.contains("<ExecutionTimeLimit>PT0S</ExecutionTimeLimit>"));
    assert_eq!(xml.matches("<UserId>PC\\a&amp;b</UserId>").count(), 2);
    assert!(xml.contains("<Command>C:\\x &amp; y\\stayawake.exe</Command>"));
    assert!(xml.contains("<WorkingDirectory>C:\\x &amp; y</WorkingDirectory>"));
    assert!(xml.ends_with("</Task>\n"));
}

#[test]
fn utf16_files_have_a_byte_order_mark() {
    assert_eq!(utf16_file("A网😀"), {
        let mut want = vec![0xFF, 0xFE];
        for u in "A网😀".encode_utf16() {
            want.extend_from_slice(&u.to_le_bytes());
        }
        want
    });
    for s in ["", "plain", "混合 text", "😀\u{FFFF}\u{10FFFF}"] {
        assert_eq!(encode_utf16(s), s.encode_utf16().collect::<Vec<u16>>());
        assert_eq!(wide_to_string(&encode_utf16(s)), s);
    }
}

#[test]
fn calls_name_the_task() {
    let c = schedule_call("t.xml");
    assert_eq!(c.program, "schtasks");
    assert_eq!(c.args, vec!["/create", "/tn", "stayawake", "/xml", "t.xml", "/f"]);
    assert_eq!(unschedule_call().args, vec!["/delete", "/tn", "stayawake", "/f"]);
    assert_eq!(query_task_call().args, vec!["/query", "/tn", "stayawake"]);
    let key = "HKCU\\Software\\Microsoft\\Windows\\CurrentVersion\\Run";
    let c = add_run_call("C:\\s.exe");
    assert_eq!(c.program, "reg");
    assert_eq!(
        c.args,
        vec!["add", key, "/v", "stayawake", "/t", "REG_SZ", "/d", "\"C:\\s.exe\"", "/f"]
    );
    assert_eq!(delete_run_call().args, vec!["delete", key, "/v", "stayawake", "/f"]);
    assert_eq!(query_run_call().args, vec!["query", key, "/v", "stayawake"]);
}

#[test]
fn installing_falls_back_to_the_registry() {
    let told = |step| match step {
        Install::Done(s) => s,
        _ => panic!("not done"),
    };
    let step = install(Install::Schedule, true, "s.exe");
    assert!(matches!(step, Install::DropRun));
    assert_eq!(told(install(step, false, "s.exe")), "autostart: 计划任务已注册 (s.exe)");
    let step = install(Install::Schedule, false, "s.exe");
    assert!(matches!(step, Install::AddRun));
    assert_eq!(
        told(install(step, true, "s.exe")),
        "autostart: 计划任务失败, 已回退注册表 Run (\"s.exe\")"
    );
    assert_eq!(
        told(install(Install::AddRun, false, "s.exe")),
        "autostart: 注册失败(计划任务与注册表均未成功)"
    );
    assert_eq!(uninstall(false, true), "autostart: 已移除");
    assert_eq!(uninstall(true, false), "autostart: 已移除");
    assert_eq!(uninstall(false, false), "autostart: 未找到需要移除的项");
    assert!(is_installed(true, false) && is_installed(false, true) && !is_installed(false, false));
}
