use stayawake::config::{self, migrate_text, Config, Found, DEFAULT_CONFIG};
use stayawake::double::Number;

fn num(x: f64) -> Number {
    Number::from_bits(x.to_bits())
}

/// Of a key that is set twice the first counts, and that is the one which is rewritten.
#[test]
fn duplicate_key_takes_first_and_rewrite_matches() {
    let text = "audio_enabled = false\nnet_enabled = true\naudio_enabled = true\n";
    let mut cfg = Config::from_text(text);
    assert!(!cfg.audio_enabled, "重复键应取第一个(false)");

    let out = cfg.rewrite("audio_enabled", "true");
    assert!(Config::from_text(&out).audio_enabled);
    assert_eq!(out.matches("audio_enabled").count(), 2, "不该新增行");
}

#[test]
fn strips_inline_comments_and_keeps_them_on_rewrite() {
    let text = "poll_interval_secs = 30   # 我的注释\ngrace_secs = 45 ; 分号也算\n";
    let cfg = Config::from_text(text);
    assert_eq!(cfg.poll_interval_secs, 30);
    assert_eq!(cfg.grace_secs, 45);

    let mut cfg2 = Config::from_text(text);
    let out = cfg2.rewrite("poll_interval_secs", "10");
    assert!(out.contains("# 我的注释"), "行尾注释必须保留: {}", out);
    assert_eq!(Config::from_text(&out).poll_interval_secs, 10);
}

#[test]
fn rewrite_preserves_comment_lines_and_order() {
    let text = "# 顶部说明\naudio_enabled = true\n\n# 另一段\nnet_enabled = true\n";
    let mut cfg = Config::from_text(text);
    let out = cfg.rewrite("net_enabled", "false");
    assert!(out.contains("# 顶部说明"));
    assert!(out.contains("# 另一段"));
    assert!(out.starts_with("# 顶部说明"));
    assert_eq!(
        out,
        "# 顶部说明\naudio_enabled = true\n\n# 另一段\nnet_enabled = false\n"
    );
}

#[test]
fn missing_key_is_appended() {
    let mut cfg = Config::from_text("audio_enabled = true\n");
    let out = cfg.rewrite("hint_enabled", "false");
    assert!(out.contains("hint_enabled = false"));
    assert!(!Config::from_text(&out).hint_enabled);
}

/// A threshold of zero would take no traffic at all for activity.
#[test]
fn zero_thresholds_are_clamped() {
    let cfg = Config::from_text("net_threshold_kbps = 0\ndl_io_kbps = 0\n");
    assert!(cfg.net_threshold_kbps >= 1);
    assert!(cfg.dl_io_kbps >= 1);
}

#[test]
fn fast_poll_never_exceeds_poll_interval() {
    let cfg = Config::from_text("poll_interval_secs = 5\nfast_poll_secs = 60\n");
    assert!(cfg.fast_poll_secs <= cfg.poll_interval_secs);
    assert_eq!(Config::from_text("fast_poll_secs = 0\n").fast_poll_secs, 0);
}

#[test]
fn malformed_values_fall_back_to_defaults() {
    let cfg = Config::from_text("poll_interval_secs = abc\npolicy_ac = 乱写\n");
    assert_eq!(cfg.poll_interval_secs, 15);
    assert_eq!(cfg.policy_ac, "system");
}

#[test]
fn bool_accepts_common_spellings() {
    for (s, want) in [
        ("on", true),
        ("YES", true),
        ("1", true),
        ("off", false),
        ("no", false),
    ] {
        let cfg = Config::from_text(&format!("audio_enabled = {}\n", s));
        assert_eq!(cfg.audio_enabled, want, "输入 {}", s);
    }
}

#[test]
fn list_parsing_trims_and_drops_empties() {
    let cfg = Config::from_text("dl_processes =  a.exe , , b.exe ,\n");
    assert_eq!(cfg.dl_processes, vec!["a.exe", "b.exe"]);
}

#[test]
fn default_config_parses_to_documented_values() {
    let cfg = Config::from_text(DEFAULT_CONFIG);
    assert_eq!(cfg.poll_interval_secs, 15);
    assert_eq!(cfg.fast_poll_secs, 2);
    assert_eq!(cfg.grace_secs, 90);
    assert_eq!(cfg.policy_ac, "system");
    assert_eq!(cfg.policy_dc, "display");
    assert!(cfg.never_wake_display);
    assert!(!cfg.sleep_on_release);
    assert_eq!(cfg.net_threshold_kbps, 1024);
    assert_eq!(cfg.audio_hold_secs, 20);
    assert!(cfg
        .audio_ignore
        .iter()
        .any(|s| s.eq_ignore_ascii_case("wallpaper64.exe")));
    assert!(
        !cfg.dl_processes
            .iter()
            .any(|s| s.to_lowercase().contains("qbittorrent")),
        "默认下载器名单不应含 BT 客户端"
    );
    assert_eq!(cfg.audio_peak_threshold, num(0.0001));
    assert_eq!(cfg.proc_cpu_percent_1core, num(5.0));
    assert_eq!(cfg.net_min_consecutive_tick, 2);
    assert_eq!(cfg.dl_io_kbps, 50);
    assert_eq!(cfg.dl_tcp_conns, 4);
    assert_eq!(cfg.hint_ttl_secs, 60);
    assert_eq!(cfg.proc_busy_when_cpu.len(), 11);
}

#[test]
fn migrate_adds_missing_keys_with_comments() {
    let old = "poll_interval_secs = 7\n";
    let merged = migrate_text(old);
    let cfg = Config::from_text(&merged);
    assert_eq!(cfg.poll_interval_secs, 7, "已有值不能被覆盖");
    assert!(merged.contains("audio_hold_secs"), "缺失键要补上");
    assert!(merged.contains('#'), "补的键要带注释");
    assert!(merged.starts_with(
        "poll_interval_secs = 7\n\n# ── 以下为新版本追加的配置项 ──\n"
    ));
}

#[test]
fn migrate_is_idempotent() {
    let once = migrate_text(DEFAULT_CONFIG);
    assert_eq!(once, DEFAULT_CONFIG, "键齐全时不该改动");
}

#[test]
fn migrating_twice_is_migrating_once() {
    for text in ["", "x", "grace_secs = 5", "# only a comment\r\n", "dl_enabled=no\n\n\n"] {
        let once = migrate_text(text);
        assert_eq!(migrate_text(&once), once);
    }
}

#[test]
fn numbers_are_read_like_decimal_fractions() {
    let threshold = |s: &str| {
        Config::from_text(&format!("audio_peak_threshold = {}\n", s)).audio_peak_threshold
    };
    assert_eq!(threshold("0.25"), num(0.25));
    assert_eq!(threshold("1e-3"), num(0.001));
    assert_eq!(threshold("-2.5"), num(-2.5));
    assert_eq!(threshold(".5"), num(0.5));
    assert_eq!(threshold("5."), num(5.0));
    assert_eq!(threshold("INF"), num(f64::INFINITY));
    assert_eq!(threshold("-infinity"), num(f64::NEG_INFINITY));
    assert_eq!(threshold("nan"), Number::Nan);
    assert_eq!(threshold("-0"), num(-0.0));
    assert_eq!(threshold("0x10"), num(0.0001));
    assert_eq!(threshold("."), num(0.0001));
    assert_eq!(threshold("1e"), num(0.0001));
    assert_eq!(threshold("1e400"), num(f64::INFINITY));
    assert_eq!(threshold("5.0500000000001"), num(5.0500000000001));
    assert_eq!(threshold("4.9e-324"), num(4.9e-324));
    assert_eq!(threshold("1e-400"), num(0.0));
}

#[test]
fn numbers_are_brought_into_range() {
    let cfg = Config::from_text(
        "poll_interval_secs = 999999\ngrace_secs = 4000\naudio_hold_secs = 0\n\
         net_min_consecutive_tick = 500\ndl_tcp_conns = 0\nhint_ttl_secs = 1\n",
    );
    assert_eq!(cfg.poll_interval_secs, 3600);
    assert_eq!(cfg.grace_secs, 3600);
    assert_eq!(cfg.audio_hold_secs, 1);
    assert_eq!(cfg.net_min_consecutive_tick, 100);
    assert_eq!(cfg.dl_tcp_conns, 1);
    assert_eq!(cfg.hint_ttl_secs, 10);
}

#[test]
fn set_and_save_takes_effect_at_once() {
    let mut cfg = Config::from_text("audio_enabled = true ; loud\r\nnet_enabled = no");
    let text = cfg.set_and_save("audio_enabled", "false");
    assert_eq!(text, "audio_enabled = false   ; loud\nnet_enabled = no\n");
    assert!(!cfg.audio_enabled);
    assert!(!cfg.net_enabled);
}

#[test]
fn loading_stores_only_what_changed() {
    let none = Config::load_or_create(Found::Absent);
    assert_eq!(none.store.as_deref(), Some(DEFAULT_CONFIG));
    assert_eq!(none.config.poll_interval_secs, 15);

    let blank = Config::load_or_create(Found::Text(" \r\n\t".to_string()));
    assert_eq!(blank.store, None);
    assert_eq!(blank.config.grace_secs, 90);

    // a file that is there but cannot be read is not overwritten
    let locked = Config::load_or_create(Found::Unreadable);
    assert_eq!(locked.store, None);
    assert_eq!(locked.config.poll_interval_secs, 15);

    let full = Config::load_or_create(Found::Text(DEFAULT_CONFIG.to_string()));
    assert_eq!(full.store, None);

    let old = Config::load_or_create(Found::Text("grace_secs = 7\n".to_string()));
    assert_eq!(old.config.grace_secs, 7);
    assert!(old.store.unwrap().contains("hint_ttl_secs = 60"));
}

#[test]
fn paths_lie_in_the_directory_of_the_program() {
    let dir = config::app_dir(Some("C:\\Users\\me\\AppData\\Local".to_string()));
    assert_eq!(dir, "C:\\Users\\me\\AppData\\Local\\stayawake");
    assert_eq!(
        config::config_path(&dir),
        "C:\\Users\\me\\AppData\\Local\\stayawake\\config.ini"
    );
    assert_eq!(
        config::log_path(&dir),
        "C:\\Users\\me\\AppData\\Local\\stayawake\\stayawake.log"
    );
    assert_eq!(
        config::hints_dir(&dir),
        "C:\\Users\\me\\AppData\\Local\\stayawake\\hints"
    );
    assert_eq!(config::app_dir(None), ".\\stayawake");
    assert_eq!(config::app_dir(Some("D:\\".to_string())), "D:\\stayawake");
    assert_eq!(config::app_dir(Some("D:".to_string())), "D:stayawake");
    assert_eq!(config::app_dir(Some(String::new())), "stayawake");
}

#[test]
fn warnings_name_what_is_not_taken() {
    assert!(Config::from_text(DEFAULT_CONFIG).warnings().is_empty());
    assert!(Config::from_text("").warnings().is_empty());
    let cfg = Config::from_text(
        "poll_interval_secs = abc\nfast_poll_secs = 99\npolicy_dc = screen\n\
         audio_enabled = maybe\naudio_peak_threshold = loud\nhint_ttl_secs = 60\n",
    );
    assert_eq!(
        cfg.warnings(),
        vec![
            "poll_interval_secs = abc 无效或超出范围, 按 15 处理",
            "fast_poll_secs = 99 无效或超出范围, 按 15 处理",
            "policy_dc = screen 无效或超出范围, 按 display 处理",
            "audio_enabled = maybe 无效或超出范围, 按 true 处理",
            "audio_peak_threshold = loud 无效或超出范围, 按 默认值 处理",
        ]
    );
}

/// Adding keys to an older file changes none of its settings; a list that it does not set
/// becomes that of the default file.
#[test]
fn migrating_keeps_every_setting() {
    let told = |c: &Config| {
        format!(
            "{} {} {} {} {} {} {} {} {:?} {} {} {} {} {} {:?} {} {} {} {} {}",
            c.poll_interval_secs, c.fast_poll_secs, c.grace_secs, c.policy_ac, c.policy_dc,
            c.never_wake_display, c.sleep_on_release, c.audio_enabled, c.audio_peak_threshold,
            c.audio_hold_secs, c.net_enabled, c.net_threshold_kbps, c.net_min_consecutive_tick,
            c.proc_enabled, c.proc_cpu_percent_1core, c.dl_enabled, c.dl_io_kbps, c.dl_tcp_conns,
            c.hint_enabled, c.hint_ttl_secs
        )
    };
    let default = Config::from_text(DEFAULT_CONFIG);
    assert_eq!(told(&default), told(&Config::from_text("")));
    for source in [
        "",
        "poll_interval_secs = 7\n",
        "poll_interval_secs = 1\r\nfast_poll_secs=9",
        "audio_ignore =\npolicy_ac = DISPLAY\naudio_enabled = off\n",
        "proc_cpu_percent_1core = 12.5\ndl_processes = a.exe\nhint_ttl_secs = x",
    ] {
        let a = Config::from_text(source);
        let b = Config::from_text(&migrate_text(source));
        assert_eq!(told(&a), told(&b), "{:?}", source);
        let kept = |key: &str, a: &Vec<String>, b: &Vec<String>, d: &Vec<String>| {
            assert_eq!(b, if source.contains(key) { a } else { d }, "{:?}", source);
        };
        kept("audio_ignore", &a.audio_ignore, &b.audio_ignore, &default.audio_ignore);
        kept("proc_busy_when_cpu", &a.proc_busy_when_cpu, &b.proc_busy_when_cpu,
            &default.proc_busy_when_cpu);
        kept("dl_processes", &a.dl_processes, &b.dl_processes, &default.dl_processes);
    }
}

/// A migrated file that cannot be stored is reported once, a new one each time.
#[test]
fn failures_to_store_are_reported() {
    let (said, warned) = config::store_failure(false, false, "disk full");
    assert_eq!(said.unwrap(), "warn: 无法写入配置文件: disk full");
    assert!(!warned);
    let (said, warned) = config::store_failure(true, warned, "read-only");
    assert_eq!(said.unwrap(), "warn: 无法写入迁移后的配置: read-only");
    assert!(warned);
    assert_eq!(config::store_failure(true, warned, "read-only"), (None, true));
    let (said, warned) = config::store_failure(false, warned, "disk full");
    assert_eq!(said.unwrap(), "warn: 无法写入配置文件: disk full");
    assert!(warned);
}
