//! What holds of the menu.
use vstd::prelude::*;

use crate::config;
use crate::config::{Config, Settings};
use crate::config_laws;
use crate::double::SECOND;
use crate::engine::{Mode, Snapshot};
use crate::icon::Look;
use crate::power::Held;
use crate::text;
use crate::tray;
use crate::tray::{Click, MenuState, Message};

verus! {

/// The open menu is brought up to date by its ticks: each of them is that of the item in a
/// menu that is built afresh.
pub proof fn law_refreshing_matches_building(
    cfg: Config,
    s: MenuState,
    title: Seq<char>,
    k: int,
)
    requires
        0 <= k < tray::ticks(cfg, s).len(),
    ensures
        exists|i: int|
            0 <= i < tray::menu(cfg, s, title).len() && {
                let row = #[trigger] tray::menu(cfg, s, title)[i];
                row.id == tray::ticks(cfg, s)[k].0 && row.checked == tray::ticks(cfg, s)[k].1
            },
{
    let m = tray::menu(cfg, s, title);
    let t = tray::ticks(cfg, s);
    let (a, b, c) = (tray::mode_rows(s), tray::detector_rows(cfg), tray::policy_rows(cfg, s));
    if k < 6 {
        assert(m[k + 2] == a[k]);
        assert(a[k].id == t[k].0 && a[k].checked == t[k].1);
    } else if k < 11 {
        assert(m[k + 3] == b[k - 6]);
        assert(b[k - 6].id == t[k].0 && b[k - 6].checked == t[k].1);
    } else {
        assert(m[k + 4] == c[k - 11]);
        assert(c[k - 11].id == t[k].0 && c[k - 11].checked == t[k].1);
    }
}

// ───────────────────────── switching ─────────────────────────

/// A setting that the menu switches.
pub enum Switch {
    Audio,
    Net,
    Proc,
    Dl,
    Hint,
}

impl Switch {
    pub open spec fn id(self) -> u32 {
        match self {
            Switch::Audio => tray::ID_DET_AUDIO,
            Switch::Net => tray::ID_DET_NET,
            Switch::Proc => tray::ID_DET_PROC,
            Switch::Dl => tray::ID_DET_DL,
            Switch::Hint => tray::ID_DET_HINT,
        }
    }

    /// The settings with this one switched over.
    pub open spec fn switched(self, s: Settings) -> Settings {
        match self {
            Switch::Audio => Settings { audio_enabled: !s.audio_enabled, ..s },
            Switch::Net => Settings { net_enabled: !s.net_enabled, ..s },
            Switch::Proc => Settings { proc_enabled: !s.proc_enabled, ..s },
            Switch::Dl => Settings { dl_enabled: !s.dl_enabled, ..s },
            Switch::Hint => Settings { hint_enabled: !s.hint_enabled, ..s },
        }
    }
}

/// The settings that a file gives.
pub open spec fn settings_in(source: Seq<char>) -> Settings {
    config::settings_of(config::entries(text::lines(source)))
}

/// The file with a key set to a value.
pub open spec fn written(source: Seq<char>, key: Seq<char>, value: Seq<char>) -> Seq<char> {
    config::unlines(config::rewritten(text::lines(source), key, value))
}

proof fn lemma_no_white(s: Seq<char>)
    requires
        s.len() > 0,
        !text::is_white(s.first()),
        !text::is_white(s.last()),
    ensures
        text::trim(s) == s,
{
    text::lemma_trim_start_unique(s, 0);
    assert(s.skip(0) == s);
    text::lemma_trim_end_unique(s, s.len() as int);
    assert(s.take(s.len() as int) == s);
}

proof fn lemma_switch_words()
    ensures
        config_laws::writable_value("true"@),
        config_laws::writable_value("false"@),
        forall|d: bool| config::switch("true"@, d),
        forall|d: bool| !config::switch("false"@, d),
{
    reveal_strlit("true");
    reveal_strlit("false");
    reveal_strlit("1");
    reveal_strlit("yes");
    reveal_strlit("on");
    lemma_no_white("true"@);
    lemma_no_white("false"@);
    assert(text::lower("true"@) == "true"@);
    assert(text::lower("false"@) == "false"@);
    assert("false"@.len() == 5 && "true"@.len() == 4 && "1"@.len() == 1 && "yes"@.len() == 3
        && "on"@.len() == 2);
}

proof fn lemma_policy_words()
    ensures
        config_laws::writable_value("system"@),
        config_laws::writable_value("display"@),
        forall|d: Seq<char>| #[trigger] config::policy("system"@, d) == "system"@,
        forall|d: Seq<char>| #[trigger] config::policy("display"@, d) == "display"@,
        "system"@ != "display"@,
{
    reveal_strlit("system");
    reveal_strlit("display");
    lemma_no_white("system"@);
    lemma_no_white("display"@);
    assert(text::lower("system"@) == "system"@);
    assert(text::lower("display"@) == "display"@);
    assert("system"@.len() == 6 && "display"@.len() == 7);
}

proof fn lemma_keys_are_writable()
    ensures
        config_laws::writable_key("audio_enabled"@),
        config_laws::writable_key("net_enabled"@),
        config_laws::writable_key("proc_enabled"@),
        config_laws::writable_key("dl_enabled"@),
        config_laws::writable_key("hint_enabled"@),
        config_laws::writable_key("policy_ac"@),
        config_laws::writable_key("policy_dc"@),
{
    reveal_strlit("audio_enabled");
    lemma_no_white("audio_enabled"@);
    reveal_strlit("net_enabled");
    lemma_no_white("net_enabled"@);
    reveal_strlit("proc_enabled");
    lemma_no_white("proc_enabled"@);
    reveal_strlit("dl_enabled");
    lemma_no_white("dl_enabled"@);
    reveal_strlit("hint_enabled");
    lemma_no_white("hint_enabled"@);
    reveal_strlit("policy_ac");
    lemma_no_white("policy_ac"@);
    reveal_strlit("policy_dc");
    lemma_no_white("policy_dc"@);
}

/// Picking a detector in the menu switches that one over, and leaves every other setting
/// as it is, whatever the file looks like.
pub proof fn law_picking_a_detector_switches_it(source: Seq<char>, cfg: Config, which: Switch)
    requires
        cfg.settings() == settings_in(source),
    ensures
        ({
            let kv = tray::saved_by(which.id(), cfg);
            &&& kv is Some
            &&& settings_in(written(source, (kv->0).0, (kv->0).1)) == which.switched(
                settings_in(source),
            )
        }),
{
    let s = settings_in(source);
    assert(cfg.settings().audio_enabled == s.audio_enabled);
    let kv = tray::saved_by(which.id(), cfg)->0;
    lemma_switch_words();
    lemma_keys_are_writable();
    config_laws::lemma_keys_differ();
    config_laws::law_rewrite_reads_back(source, kv.0, kv.1);
}

/// The settings with the policy on AC power, or else the one on battery, replaced.
pub open spec fn with_policy(s: Settings, ac: bool) -> Settings {
    if ac {
        Settings { policy_ac: tray::other_policy(s.policy_ac), ..s }
    } else {
        Settings { policy_dc: tray::other_policy(s.policy_dc), ..s }
    }
}

/// Picking a policy in the menu changes that one to the other, and leaves every other
/// setting as it is, whatever the file looks like.
pub proof fn law_picking_a_policy_changes_it(source: Seq<char>, cfg: Config, ac: bool)
    requires
        cfg.settings() == settings_in(source),
    ensures
        ({
            let id = if ac {
                tray::ID_POLICY_AC
            } else {
                tray::ID_POLICY_DC
            };
            let kv = tray::saved_by(id, cfg);
            &&& kv is Some
            &&& settings_in(written(source, (kv->0).0, (kv->0).1)) == with_policy(
                settings_in(source),
                ac,
            )
        }),
{
    let s = settings_in(source);
    assert(cfg.settings().policy_ac == s.policy_ac);
    let id = if ac {
        tray::ID_POLICY_AC
    } else {
        tray::ID_POLICY_DC
    };
    let kv = tray::saved_by(id, cfg)->0;
    lemma_policy_words();
    lemma_keys_are_writable();
    config_laws::lemma_keys_differ();
    config_laws::law_rewrite_reads_back(source, kv.0, kv.1);
}

// ───────────────────────── what is shown ─────────────────────────

/// The icon shows the mode, and in the automatic mode what is held.
pub proof fn law_the_icon_shows_the_state(until: u64, held: Option<Held>)
    ensures
        tray::look_of(Mode::Paused, held) == Look::Paused,
        tray::look_of(Mode::Force(until), held) == Look::Force,
        tray::look_of(Mode::Auto, None) == Look::Idle,
        tray::look_of(Mode::Auto, Some(Held::Nothing)) == Look::Idle,
        tray::look_of(Mode::Auto, Some(Held::System)) == Look::System,
        tray::look_of(Mode::Auto, Some(Held::SystemDisplay)) == Look::SystemDisplay,
{
}

/// A tooltip of up to 120 characters is shown whole, and of a longer one the beginning,
/// with an ellipsis at its end.
pub proof fn law_tooltips_are_cut_at_their_end(description: Seq<char>)
    ensures
        ({
            let full = "stayawake — "@ + description;
            let t = tray::tip(description);
            &&& t.len() <= 120
            &&& full.len() <= 120 ==> t == full
            &&& full.len() > 120 ==> t.len() == 120 && t.take(119) == full.take(119) && t[119]
                == '…'
        }),
{
    let full = "stayawake — "@ + description;
    if full.len() > 120 {
        assert(tray::tip(description).take(119) == full.take(119));
    }
}

/// The menu is headed by the description, with the mode of this moment.
pub proof fn law_the_title_has_the_mode_of_this_moment(mode: Mode, s: Snapshot)
    ensures
        mode == s.mode ==> tray::title(mode, Some(s)) == s.described(),
        tray::title(mode, Some(s)) == (Snapshot { mode, ..s }).described(),
{
}

// ───────────────────────── ticks ─────────────────────────

/// Of the modes the one in force is ticked, and of the forced ones the one that was picked.
pub proof fn law_the_mode_in_force_is_ticked(s: MenuState)
    ensures
        ({
            let rows = tray::mode_rows(s);
            let forced = s.mode != Mode::Auto && s.mode != Mode::Paused;
            &&& rows.len() == 6
            &&& rows[0].id == 110 && (rows[0].checked <==> s.mode == Mode::Auto)
            &&& rows[1].id == 111 && (rows[1].checked <==> s.mode == Mode::Paused)
            &&& forall|k: int|
                2 <= k < 6 ==> (#[trigger] rows[k]).id == 118 + k && (rows[k].checked <==> forced
                    && s.pick == 118 + k)
        }),
{
}

/// Each detector is ticked where it is enabled, each policy where it keeps the screen on,
/// and starting with the session where that is installed.
pub proof fn law_what_is_on_is_ticked(cfg: Config, s: MenuState)
    ensures
        ({
            let (d, p) = (tray::detector_rows(cfg), tray::policy_rows(cfg, s));
            &&& d.len() == 5 && p.len() == 3
            &&& d[0].id == 130 && d[0].checked == cfg.audio_enabled
            &&& d[1].id == 131 && d[1].checked == cfg.net_enabled
            &&& d[2].id == 132 && d[2].checked == cfg.proc_enabled
            &&& d[3].id == 133 && d[3].checked == cfg.dl_enabled
            &&& d[4].id == 134 && d[4].checked == cfg.hint_enabled
            &&& p[0].id == 140 && (p[0].checked <==> cfg.policy_ac@ == "display"@)
            &&& p[1].id == 141 && (p[1].checked <==> cfg.policy_dc@ == "display"@)
            &&& p[2].id == 142 && p[2].checked == s.autostart
        }),
{
}

// ───────────────────────── commands ─────────────────────────

/// A forced mode lasts as long as its item says: half an hour, one hour, three, or ten
/// years, up to the end of the clock.
pub proof fn law_forced_modes_last_as_long_as_they_say(now: u64, secs: nat, id: u32)
    requires
        (id == 120 && secs == 1800) || (id == 121 && secs == 3600) || (id == 122 && secs == 10800)
            || (id == 123 && secs == 3650 * 24 * 3600),
    ensures
        now + secs * SECOND <= u64::MAX ==> tray::mode_set_by(id, now) == Some(
            (Mode::Force((now + secs * SECOND) as u64), id),
        ),
        now + secs * SECOND > u64::MAX ==> tray::mode_set_by(id, now) == Some(
            (Mode::Force(u64::MAX), id),
        ),
{
}

/// The automatic mode and the pause have their items, and no other item but the forced ones
/// sets a mode.
pub proof fn law_only_the_modes_set_a_mode(id: u32, now: u64)
    ensures
        tray::mode_set_by(110, now) == Some((Mode::Auto, 0u32)),
        tray::mode_set_by(111, now) == Some((Mode::Paused, 0u32)),
        id != 110 && id != 111 && !(120 <= id <= 123) ==> tray::mode_set_by(id, now) is None,
{
}

/// Only the items of the detectors and of the policies write a setting back.
pub proof fn law_only_switches_are_saved(id: u32, cfg: Config)
    ensures
        tray::saved_by(id, cfg) is Some <==> 130 <= id <= 134 || id == 140 || id == 141,
        cfg.policy_ac@ == "display"@ ==> tray::saved_by(140, cfg) == Some(
            ("policy_ac"@, "system"@),
        ),
        cfg.policy_ac@ != "display"@ ==> tray::saved_by(140, cfg) == Some(
            ("policy_ac"@, "display"@),
        ),
        cfg.policy_dc@ == "display"@ ==> tray::saved_by(141, cfg) == Some(
            ("policy_dc"@, "system"@),
        ),
        cfg.policy_dc@ != "display"@ ==> tray::saved_by(141, cfg) == Some(
            ("policy_dc"@, "display"@),
        ),
{
}

/// The menu stays open after every item but those that open a window or end the program.
pub proof fn law_the_menu_stays_open(id: u32)
    ensures
        tray::stays_open(id) <==> id != 150 && id != 151 && id != 153 && id != 160,
{
}

/// A click beside the rows, and on an item that closes the menu, is passed on. On every
/// other row it is kept from the menu, and letting go of it carries an item out.
pub proof fn law_clicks_are_carried_out_on_release(row: i32, id: u32)
    ensures
        row < 0 ==> tray::click(row, id, true) == Click::Pass && tray::click(row, id, false)
            == Click::Pass,
        row >= 0 && id != 0 && id != 100 && tray::stays_open(id) ==> tray::click(row, id, true)
            == Click::Run && tray::click(row, id, false) == Click::Swallow,
        row >= 0 && (id == 0 || id == 100) ==> tray::click(row, id, true) == Click::Swallow
            && tray::click(row, id, false) == Click::Swallow,
{
}

// ───────────────────────── messages ─────────────────────────

/// A click on the icon pauses the automatic mode, and ends the pause and a forced mode.
pub proof fn law_a_click_pauses_or_resumes(mode: Mode, display_on: bool)
    ensures
        ({
            let r = tray::reaction(Message::TrayClick, mode, display_on);
            &&& mode == Mode::Auto ==> r.set_mode == Some(Mode::Paused)
            &&& mode != Mode::Auto ==> r.set_mode == Some(Mode::Auto)
            &&& r.refresh_icon
        }),
{
}

/// No message but a click sets the mode, none but a command carries one out, none but the
/// end of the window ends the program, and the icon comes back with the shell.
pub proof fn law_messages_do_what_they_are_for(m: Message, mode: Mode, display_on: bool)
    ensures
        ({
            let r = tray::reaction(m, mode, display_on);
            &&& r.set_mode is Some <==> m == Message::TrayClick
            &&& r.command is Some <==> m is Command
            &&& (m matches Message::Command(id) ==> r.command == Some(id))
            &&& r.quit <==> m == Message::Destroyed
            &&& r.remove_icon <==> m == Message::Destroyed
            &&& r.add_icon <==> m == Message::TaskbarCreated
            &&& r.show_menu <==> m == Message::TrayMenu
            &&& r.show_details <==> m == Message::TrayDoubleClick
            &&& r.answer is None <==> m == Message::Other
            &&& (m == Message::StateChanged ==> r.refresh_icon)
        }),
{
}

/// The worker is woken where the screen turns on or off, the power source changes or the
/// machine wakes up, and what is known of the screen follows: only a state of zero is off.
pub proof fn law_power_messages_wake_the_worker(n: u8, mode: Mode, display_on: bool)
    ensures
        ({
            let r = tray::reaction(Message::Display(n), mode, display_on);
            &&& r.display_on == Some(n != 0)
            &&& r.wake_worker <==> display_on != (n != 0)
        }),
        tray::reaction(Message::PowerStatus, mode, display_on).wake_worker,
        tray::reaction(Message::PowerStatus, mode, display_on).display_on is None,
        tray::reaction(Message::Resumed, mode, display_on).wake_worker,
        tray::reaction(Message::Resumed, mode, display_on).display_on == Some(true),
        !tray::reaction(Message::PowerOther, mode, display_on).wake_worker,
        !tray::reaction(Message::StateChanged, mode, display_on).wake_worker,
{
}

// ───────────────────────── the menu ─────────────────────────

/// The title comes first and is the only row that cannot be picked.
pub proof fn law_the_title_heads_the_menu(cfg: Config, s: MenuState, title: Seq<char>, i: int)
    requires
        0 <= i < tray::menu(cfg, s, title).len(),
    ensures
        tray::menu(cfg, s, title)[0].label == title,
        tray::menu(cfg, s, title)[0].id == 100,
        tray::menu(cfg, s, title)[i].grayed <==> i == 0,
{
}

/// Every row that can be ticked is refreshed, with the tick that it has.
pub proof fn law_every_tick_is_refreshed(cfg: Config, s: MenuState, i: int)
    requires
        0 <= i,
    ensures
        tray::ticks(cfg, s).len() == 14,
        i < tray::mode_rows(s).len() ==> tray::ticks(cfg, s).contains(
            (tray::mode_rows(s)[i].id, tray::mode_rows(s)[i].checked),
        ),
        i < tray::detector_rows(cfg).len() ==> tray::ticks(cfg, s).contains(
            (tray::detector_rows(cfg)[i].id, tray::detector_rows(cfg)[i].checked),
        ),
        i < tray::policy_rows(cfg, s).len() ==> tray::ticks(cfg, s).contains(
            (tray::policy_rows(cfg, s)[i].id, tray::policy_rows(cfg, s)[i].checked),
        ),
{
    let t = tray::ticks(cfg, s);
    if i < tray::mode_rows(s).len() {
        assert(t[i] == (tray::mode_rows(s)[i].id, tray::mode_rows(s)[i].checked));
    }
    if i < tray::detector_rows(cfg).len() {
        assert(t[6 + i] == (tray::detector_rows(cfg)[i].id, tray::detector_rows(cfg)[i].checked));
    }
    if i < tray::policy_rows(cfg, s).len() {
        assert(t[11 + i] == (
            tray::policy_rows(cfg, s)[i].id,
            tray::policy_rows(cfg, s)[i].checked,
        ));
    }
}

/// Each item says what it is for.
pub proof fn law_items_say_what_they_are_for(cfg: Config, s: MenuState)
    ensures
        ({
            let (m, d, p) = (
                tray::mode_rows(s),
                tray::detector_rows(cfg),
                tray::policy_rows(cfg, s),
            );
            &&& m[0].label == "自动 (按活动检测)"@ && m[1].label == "暂停 (允许正常休眠)"@
            &&& m[2].label == "强制常亮 · 30 分钟"@ && m[3].label == "强制常亮 · 1 小时"@
            &&& m[4].label == "强制常亮 · 3 小时"@ && m[5].label == "强制常亮 · 直到手动关闭"@
            &&& d[0].label == "检测: 音频播放"@ && d[1].label == "检测: 网络速率"@
            &&& d[2].label == "检测: 进程 CPU"@ && d[3].label == "检测: 下载器"@
            &&& d[4].label == "检测: 外部提示文件"@
            &&& p[0].label == "插电时保持屏幕常亮"@ && p[1].label == "电池时保持屏幕常亮"@
            &&& p[2].label == "开机自启"@
        }),
{
}

} // verus!
