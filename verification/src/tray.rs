//! The tray icon: what it shows, its menu, and what clicks and messages lead to.
use vstd::prelude::*;

use crate::autostart;
use crate::config::Config;
use crate::double::SECOND;
use crate::engine;
use crate::engine::{Mode, Snapshot};
use crate::icon;
use crate::icon::Look;
use crate::power::Held;
use crate::text;

verus! {

// ───────────────────────── menu items ─────────────────────────

pub const ID_TITLE: u32 = 100;

pub const ID_AUTO: u32 = 110;

pub const ID_PAUSE: u32 = 111;

pub const ID_FORCE_30M: u32 = 120;

pub const ID_FORCE_1H: u32 = 121;

pub const ID_FORCE_3H: u32 = 122;

pub const ID_FORCE_INF: u32 = 123;

pub const ID_DET_AUDIO: u32 = 130;

pub const ID_DET_NET: u32 = 131;

pub const ID_DET_PROC: u32 = 132;

pub const ID_DET_DL: u32 = 133;

pub const ID_DET_HINT: u32 = 134;

pub const ID_POLICY_AC: u32 = 140;

pub const ID_POLICY_DC: u32 = 141;

pub const ID_AUTOSTART: u32 = 142;

pub const ID_OPEN_LOG: u32 = 150;

pub const ID_OPEN_CFG: u32 = 151;

pub const ID_RELOAD: u32 = 152;

pub const ID_DETAILS: u32 = 153;

pub const ID_EXIT: u32 = 160;

// ───────────────────────── the icon ─────────────────────────

/// The look for a mode and what is held; nothing is known of that at the start.
pub open spec fn look_of(mode: Mode, held: Option<Held>) -> Look {
    match mode {
        Mode::Paused => Look::Paused,
        Mode::Force(_) => Look::Force,
        Mode::Auto => match held {
            Some(h) => match h {
                Held::System => Look::System,
                Held::SystemDisplay => Look::SystemDisplay,
                Held::Nothing => Look::Idle,
            },
            None => Look::Idle,
        },
    }
}

pub fn current_look(mode: Mode, held: Option<Held>) -> (r: Look)
    ensures
        r == look_of(mode, held),
{
    match mode {
        Mode::Paused => Look::Paused,
        Mode::Force(_) => Look::Force,
        Mode::Auto => match held {
            Some(h) => match h {
                Held::System => Look::System,
                Held::SystemDisplay => Look::SystemDisplay,
                Held::Nothing => Look::Idle,
            },
            None => Look::Idle,
        },
    }
}

/// The side of the tray icon.
pub const ICON_SIDE: usize = 32;

/// The pixels of the tray icon as a bitmap stores them: the last row first.
pub fn icon_bits(look: Look) -> (bits: Vec<u32>)
    ensures
        bits@ == Seq::new(
            1024,
            |i: int| icon::painted(look, 32, i % 32, 31 - i / 32),
        ),
{
    let px = icon::paint(look, ICON_SIDE);
    let mut bits: Vec<u32> = Vec::new();
    let mut i: usize = 0;
    while i < 1024
        invariant
            i <= 1024,
            px@ == icon::picture(look, 32),
            bits@ == Seq::new(i as nat, |k: int| icon::painted(look, 32, k % 32, 31 - k / 32)),
        decreases 1024 - i,
    {
        let from: usize = (31 - i / 32) * 32 + i % 32;
        assert(from % 32 == i % 32 && from / 32 == 31 - i / 32);
        bits.push(px[from]);
        i = i + 1;
        assert(bits@ == Seq::new(i as nat, |k: int| icon::painted(look, 32, k % 32, 31 - k / 32)));
    }
    bits
}

/// A text of at most 120 characters: a longer one is cut, and ends in an ellipsis.
pub open spec fn shortened(s: Seq<char>) -> Seq<char> {
    if s.len() > 120 {
        s.take(119).push('…')
    } else {
        s
    }
}

/// The tooltip for a description.
pub open spec fn tip(description: Seq<char>) -> Seq<char> {
    shortened("stayawake — "@ + description)
}

/// What is described before the first round.
pub open spec fn description_of(snapshot: Option<Snapshot>) -> Seq<char> {
    match snapshot {
        Some(s) => s.described(),
        None => "启动中..."@,
    }
}

pub fn current_tip(snapshot: &Option<Snapshot>) -> (r: String)
    ensures
        r@ == tip(description_of(*snapshot)),
        r@.len() <= 120,
{
    let description = match snapshot {
        Some(s) => s.describe(),
        None => "启动中...".to_owned(),
    };
    let mut full = "stayawake — ".to_owned();
    full.append(description.as_str());
    let chars = text::chars_of(full.as_str());
    if chars.len() > 120 {
        let mut r = text::string_of(vstd::slice::slice_subrange(chars.as_slice(), 0, 119));
        r.push('…');
        assert(full@.take(119) == full@.subrange(0, 119));
        r
    } else {
        full
    }
}

/// The units of a tooltip, as many as the shell takes.
pub fn fill_tip(tip: &str) -> (units: Vec<u16>)
    ensures
        ({
            let all = autostart::encoded(tip@);
            units@ == if all.len() > 127 {
                all.take(127)
            } else {
                all
            }
        }),
{
    let mut units = autostart::encode_utf16(tip);
    if units.len() > 127 {
        units.truncate(127);
    }
    units
}

/// The line on top of the menu: the description with the mode of this moment, which may be
/// newer than the round.
pub open spec fn title(mode: Mode, snapshot: Option<Snapshot>) -> Seq<char> {
    match snapshot {
        Some(s) => engine::description(mode, s.held, text::views(s.reasons@), s.force_left),
        None => "启动中..."@,
    }
}

pub fn menu_title(mode: Mode, snapshot: &Option<Snapshot>) -> (r: String)
    ensures
        r@ == title(mode, *snapshot),
{
    match snapshot {
        Some(s) => engine::describe_as(mode, s.held, &s.reasons, s.force_left),
        None => "启动中...".to_owned(),
    }
}

// ───────────────────────── the menu ─────────────────────────

/// Whether the menu stays open after an item: all but those that hand the focus on.
pub open spec fn stays_open(id: u32) -> bool {
    id != ID_EXIT && id != ID_OPEN_LOG && id != ID_OPEN_CFG && id != ID_DETAILS
}

pub fn keeps_menu_open(id: u32) -> (r: bool)
    ensures
        r == stays_open(id),
{
    id != ID_EXIT && id != ID_OPEN_LOG && id != ID_OPEN_CFG && id != ID_DETAILS
}

/// A row of the menu.
pub struct MenuItem {
    /// Zero for a separator.
    pub id: u32,
    pub label: String,
    pub checked: bool,
    pub grayed: bool,
}

/// A row of the menu, with its label as a character sequence.
pub struct ItemView {
    pub id: u32,
    pub label: Seq<char>,
    pub checked: bool,
    pub grayed: bool,
}

impl MenuItem {
    pub open spec fn seen(self) -> ItemView {
        ItemView {
            id: self.id,
            label: self.label@,
            checked: self.checked,
            grayed: self.grayed,
        }
    }
}

pub open spec fn seen_all(v: Seq<MenuItem>) -> Seq<ItemView> {
    Seq::new(v.len(), |i: int| v[i].seen())
}

pub open spec fn item(id: u32, label: Seq<char>, checked: bool) -> ItemView {
    ItemView { id, label, checked, grayed: false }
}

pub open spec fn separator() -> ItemView {
    ItemView { id: 0, label: ""@, checked: false, grayed: false }
}

/// What the ticks of the menu depend on.
pub struct MenuState {
    pub mode: Mode,
    /// The forced item that was picked last, or zero.
    pub pick: u32,
    pub autostart: bool,
}

/// Whether a forced item is ticked: it is the one in force.
pub open spec fn force_ticked(s: MenuState, id: u32) -> bool {
    s.mode is Force && s.pick == id
}

pub open spec fn is_display(policy: Seq<char>) -> bool {
    policy == "display"@
}

/// The line on top.
pub open spec fn title_row(title: Seq<char>) -> ItemView {
    ItemView { id: ID_TITLE, label: title, checked: false, grayed: true }
}

/// The modes.
pub open spec fn mode_rows(s: MenuState) -> Seq<ItemView> {
    seq![
        item(ID_AUTO, "自动 (按活动检测)"@, s.mode == Mode::Auto),
        item(ID_PAUSE, "暂停 (允许正常休眠)"@, s.mode == Mode::Paused),
        item(ID_FORCE_30M, "强制常亮 · 30 分钟"@, force_ticked(s, ID_FORCE_30M)),
        item(ID_FORCE_1H, "强制常亮 · 1 小时"@, force_ticked(s, ID_FORCE_1H)),
        item(ID_FORCE_3H, "强制常亮 · 3 小时"@, force_ticked(s, ID_FORCE_3H)),
        item(ID_FORCE_INF, "强制常亮 · 直到手动关闭"@, force_ticked(s, ID_FORCE_INF)),
    ]
}

/// The detectors.
pub open spec fn detector_rows(cfg: Config) -> Seq<ItemView> {
    seq![
        item(ID_DET_AUDIO, "检测: 音频播放"@, cfg.audio_enabled),
        item(ID_DET_NET, "检测: 网络速率"@, cfg.net_enabled),
        item(ID_DET_PROC, "检测: 进程 CPU"@, cfg.proc_enabled),
        item(ID_DET_DL, "检测: 下载器"@, cfg.dl_enabled),
        item(ID_DET_HINT, "检测: 外部提示文件"@, cfg.hint_enabled),
    ]
}

/// The policies.
pub open spec fn policy_rows(cfg: Config, s: MenuState) -> Seq<ItemView> {
    seq![
        item(ID_POLICY_AC, "插电时保持屏幕常亮"@, is_display(cfg.policy_ac@)),
        item(ID_POLICY_DC, "电池时保持屏幕常亮"@, is_display(cfg.policy_dc@)),
        item(ID_AUTOSTART, "开机自启"@, s.autostart),
    ]
}

/// The commands.
pub open spec fn command_rows() -> Seq<ItemView> {
    seq![
        item(ID_DETAILS, "当前状态详情..."@, false),
        item(ID_OPEN_LOG, "打开日志"@, false),
        item(ID_OPEN_CFG, "打开配置文件"@, false),
        item(ID_RELOAD, "重新加载配置"@, false),
        separator(),
        item(ID_EXIT, "退出"@, false),
    ]
}

/// The menu.
pub open spec fn menu(cfg: Config, s: MenuState, title: Seq<char>) -> Seq<ItemView> {
    seq![title_row(title)].push(separator()) + mode_rows(s).push(separator()) + detector_rows(
        cfg,
    ).push(separator()) + policy_rows(cfg, s).push(separator()) + command_rows()
}

fn push_item(to: &mut Vec<MenuItem>, id: u32, label: &str, checked: bool)
    ensures
        seen_all(final(to)@) == seen_all(old(to)@).push(item(id, label@, checked)),
{
    let ghost before = to@;
    let row = MenuItem { id, label: label.to_owned(), checked, grayed: false };
    let ghost v = row.seen();
    to.push(row);
    assert(seen_all(to@) == seen_all(before).push(v));
}

fn is_forced(mode: Mode) -> (r: bool)
    ensures
        r == mode is Force,
{
    match mode {
        Mode::Force(_) => true,
        _ => false,
    }
}

fn mode_items(s: &MenuState) -> (rows: Vec<MenuItem>)
    ensures
        seen_all(rows@) == mode_rows(*s),
{
    let forced = is_forced(s.mode);
    let mut rows: Vec<MenuItem> = Vec::new();
    push_item(&mut rows, ID_AUTO, "自动 (按活动检测)", s.mode == Mode::Auto);
    push_item(&mut rows, ID_PAUSE, "暂停 (允许正常休眠)", s.mode == Mode::Paused);
    push_item(&mut rows, ID_FORCE_30M, "强制常亮 · 30 分钟", forced && s.pick == ID_FORCE_30M);
    push_item(&mut rows, ID_FORCE_1H, "强制常亮 · 1 小时", forced && s.pick == ID_FORCE_1H);
    push_item(&mut rows, ID_FORCE_3H, "强制常亮 · 3 小时", forced && s.pick == ID_FORCE_3H);
    push_item(&mut rows, ID_FORCE_INF, "强制常亮 · 直到手动关闭", forced && s.pick == ID_FORCE_INF);
    assert(seen_all(rows@) == mode_rows(*s));
    rows
}

fn detector_items(cfg: &Config) -> (rows: Vec<MenuItem>)
    ensures
        seen_all(rows@) == detector_rows(*cfg),
{
    let mut rows: Vec<MenuItem> = Vec::new();
    push_item(&mut rows, ID_DET_AUDIO, "检测: 音频播放", cfg.audio_enabled);
    push_item(&mut rows, ID_DET_NET, "检测: 网络速率", cfg.net_enabled);
    push_item(&mut rows, ID_DET_PROC, "检测: 进程 CPU", cfg.proc_enabled);
    push_item(&mut rows, ID_DET_DL, "检测: 下载器", cfg.dl_enabled);
    push_item(&mut rows, ID_DET_HINT, "检测: 外部提示文件", cfg.hint_enabled);
    assert(seen_all(rows@) == detector_rows(*cfg));
    rows
}

fn policy_items(cfg: &Config, s: &MenuState) -> (rows: Vec<MenuItem>)
    ensures
        seen_all(rows@) == policy_rows(*cfg, *s),
{
    let mut rows: Vec<MenuItem> = Vec::new();
    let ac = text::same(cfg.policy_ac.as_str(), "display");
    let dc = text::same(cfg.policy_dc.as_str(), "display");
    push_item(&mut rows, ID_POLICY_AC, "插电时保持屏幕常亮", ac);
    push_item(&mut rows, ID_POLICY_DC, "电池时保持屏幕常亮", dc);
    push_item(&mut rows, ID_AUTOSTART, "开机自启", s.autostart);
    assert(seen_all(rows@) == policy_rows(*cfg, *s));
    rows
}

fn command_items() -> (rows: Vec<MenuItem>)
    ensures
        seen_all(rows@) == command_rows(),
{
    let mut rows: Vec<MenuItem> = Vec::new();
    push_item(&mut rows, ID_DETAILS, "当前状态详情...", false);
    push_item(&mut rows, ID_OPEN_LOG, "打开日志", false);
    push_item(&mut rows, ID_OPEN_CFG, "打开配置文件", false);
    push_item(&mut rows, ID_RELOAD, "重新加载配置", false);
    push_item(&mut rows, 0, "", false);
    push_item(&mut rows, ID_EXIT, "退出", false);
    assert(seen_all(rows@) == command_rows());
    rows
}

fn move_items(to: &mut Vec<MenuItem>, from: Vec<MenuItem>)
    ensures
        seen_all(final(to)@) == seen_all(old(to)@) + seen_all(from@),
{
    let mut from = from;
    let ghost before = to@;
    let ghost added = from@;
    to.append(&mut from);
    assert(to@ == before + added);
    assert(seen_all(to@) == seen_all(before) + seen_all(added));
}

pub fn build_menu(cfg: &Config, s: &MenuState, title: &str) -> (rows: Vec<MenuItem>)
    ensures
        seen_all(rows@) == menu(*cfg, *s, title@),
{
    let mut rows: Vec<MenuItem> = Vec::new();
    rows.push(MenuItem { id: ID_TITLE, label: title.to_owned(), checked: false, grayed: true });
    assert(seen_all(rows@) == seq![title_row(title@)]);
    push_item(&mut rows, 0, "", false);
    let mut part = mode_items(s);
    push_item(&mut part, 0, "", false);
    move_items(&mut rows, part);
    let mut part = detector_items(cfg);
    push_item(&mut part, 0, "", false);
    move_items(&mut rows, part);
    let mut part = policy_items(cfg, s);
    push_item(&mut part, 0, "", false);
    move_items(&mut rows, part);
    move_items(&mut rows, command_items());
    rows
}

/// The ticks of the open menu, item by item.
pub open spec fn ticks(cfg: Config, s: MenuState) -> Seq<(u32, bool)> {
    seq![
        (ID_AUTO, s.mode == Mode::Auto),
        (ID_PAUSE, s.mode == Mode::Paused),
        (ID_FORCE_30M, force_ticked(s, ID_FORCE_30M)),
        (ID_FORCE_1H, force_ticked(s, ID_FORCE_1H)),
        (ID_FORCE_3H, force_ticked(s, ID_FORCE_3H)),
        (ID_FORCE_INF, force_ticked(s, ID_FORCE_INF)),
        (ID_DET_AUDIO, cfg.audio_enabled),
        (ID_DET_NET, cfg.net_enabled),
        (ID_DET_PROC, cfg.proc_enabled),
        (ID_DET_DL, cfg.dl_enabled),
        (ID_DET_HINT, cfg.hint_enabled),
        (ID_POLICY_AC, is_display(cfg.policy_ac@)),
        (ID_POLICY_DC, is_display(cfg.policy_dc@)),
        (ID_AUTOSTART, s.autostart),
    ]
}

/// The ticks to set in the open menu, which is neither closed nor built again.
pub fn sync_menu_state(cfg: &Config, s: &MenuState) -> (r: Vec<(u32, bool)>)
    ensures
        r@ == ticks(*cfg, *s),
{
    let forced = is_forced(s.mode);
    let mut r: Vec<(u32, bool)> = Vec::new();
    r.push((ID_AUTO, s.mode == Mode::Auto));
    r.push((ID_PAUSE, s.mode == Mode::Paused));
    r.push((ID_FORCE_30M, forced && s.pick == ID_FORCE_30M));
    r.push((ID_FORCE_1H, forced && s.pick == ID_FORCE_1H));
    r.push((ID_FORCE_3H, forced && s.pick == ID_FORCE_3H));
    r.push((ID_FORCE_INF, forced && s.pick == ID_FORCE_INF));
    r.push((ID_DET_AUDIO, cfg.audio_enabled));
    r.push((ID_DET_NET, cfg.net_enabled));
    r.push((ID_DET_PROC, cfg.proc_enabled));
    r.push((ID_DET_DL, cfg.dl_enabled));
    r.push((ID_DET_HINT, cfg.hint_enabled));
    r.push((ID_POLICY_AC, text::same(cfg.policy_ac.as_str(), "display")));
    r.push((ID_POLICY_DC, text::same(cfg.policy_dc.as_str(), "display")));
    r.push((ID_AUTOSTART, s.autostart));
    assert(r@ == ticks(*cfg, *s));
    r
}

/// A position in a window as a mouse message has it: the column in the low half.
pub fn packed_position(x: i32, y: i32) -> (r: u64)
    ensures
        r == (y as u32) * 0x1_0000 + (x as u32) % 0x1_0000,
{
    (y as u32 as u64) * 0x1_0000 + (x as u32 as u64) % 0x1_0000
}

// ───────────────────────── commands ─────────────────────────

/// What a command leads to.
#[derive(Clone, Copy)]
pub enum Action {
    /// Nothing: the item is none, or the title.
    Ignore,
    /// The mode changes, and with it the forced item that is ticked.
    SetMode { mode: Mode, pick: u32 },
    /// A setting is written back.
    Save { key: &'static str, value: &'static str },
    /// Starting with the session is switched on, or off.
    Autostart { installing: bool },
    OpenLog,
    OpenConfig,
    Reload,
    Details,
    Exit,
}

/// The end of so many seconds from now on.
pub open spec fn deadline(now: u64, secs: u64) -> u64 {
    if now + secs * SECOND <= u64::MAX {
        (now + secs * SECOND) as u64
    } else {
        u64::MAX
    }
}

fn force_until(now: u64, secs: u64) -> (r: u64)
    ensures
        r == deadline(now, secs),
{
    assert(secs * SECOND <= 0xFFFF_FFFF_FFFF_FFFF * SECOND) by (nonlinear_arith)
        requires
            0 <= secs <= 0xFFFF_FFFF_FFFF_FFFF,
            SECOND >= 0,
    ;
    let until: u128 = (now as u128) + (secs as u128) * SECOND;
    if until <= u64::MAX as u128 {
        until as u64
    } else {
        u64::MAX
    }
}

/// The value that switches a setting over.
pub fn toggle(current: bool) -> (r: &'static str)
    ensures
        r@ == text::truth(!current),
{
    text::truth_word(!current)
}

/// The other policy.
pub open spec fn other_policy(current: Seq<char>) -> Seq<char> {
    if is_display(current) {
        "system"@
    } else {
        "display"@
    }
}

pub fn toggle_policy(current: &str) -> (r: &'static str)
    ensures
        r@ == other_policy(current@),
{
    if text::same(current, "display") {
        "system"
    } else {
        "display"
    }
}

/// How long ten years of days are, in seconds: until it is switched off by hand.
pub const FOREVER: u64 = 315_360_000;

/// The seconds that a forced item stands for.
pub open spec fn force_secs(id: u32) -> Option<u64> {
    if id == ID_FORCE_30M {
        Some(1800)
    } else if id == ID_FORCE_1H {
        Some(3600)
    } else if id == ID_FORCE_3H {
        Some(10800)
    } else if id == ID_FORCE_INF {
        Some(FOREVER)
    } else {
        None
    }
}

/// The key and the value that an item writes back, if it does.
pub open spec fn saved_by(id: u32, cfg: Config) -> Option<(Seq<char>, Seq<char>)> {
    if id == ID_DET_AUDIO {
        Some(("audio_enabled"@, text::truth(!cfg.audio_enabled)))
    } else if id == ID_DET_NET {
        Some(("net_enabled"@, text::truth(!cfg.net_enabled)))
    } else if id == ID_DET_PROC {
        Some(("proc_enabled"@, text::truth(!cfg.proc_enabled)))
    } else if id == ID_DET_DL {
        Some(("dl_enabled"@, text::truth(!cfg.dl_enabled)))
    } else if id == ID_DET_HINT {
        Some(("hint_enabled"@, text::truth(!cfg.hint_enabled)))
    } else if id == ID_POLICY_AC {
        Some(("policy_ac"@, other_policy(cfg.policy_ac@)))
    } else if id == ID_POLICY_DC {
        Some(("policy_dc"@, other_policy(cfg.policy_dc@)))
    } else {
        None
    }
}

/// The mode that an item sets, if it does, and the forced item that is ticked then.
pub open spec fn mode_set_by(id: u32, now: u64) -> Option<(Mode, u32)> {
    if id == ID_AUTO {
        Some((Mode::Auto, 0))
    } else if id == ID_PAUSE {
        Some((Mode::Paused, 0))
    } else {
        match force_secs(id) {
            Some(secs) => Some((Mode::Force(deadline(now, secs)), id)),
            None => None,
        }
    }
}

/// What an item leads to, given the configuration, the time, and whether the program is
/// known to start with the session.
pub fn handle_command(id: u32, cfg: &Config, now: u64, autostart: Option<bool>) -> (a: Action)
    ensures
        match saved_by(id, *cfg) {
            Some(kv) => a matches Action::Save { key, value } && (key@, value@) == kv,
            None => match force_secs(id) {
                Some(secs) => a == (Action::SetMode {
                    mode: Mode::Force(deadline(now, secs)),
                    pick: id,
                }),
                None => a == if id == ID_AUTO {
                    Action::SetMode { mode: Mode::Auto, pick: 0 }
                } else if id == ID_PAUSE {
                    Action::SetMode { mode: Mode::Paused, pick: 0 }
                } else if id == ID_AUTOSTART {
                    Action::Autostart { installing: autostart != Some(true) }
                } else if id == ID_OPEN_LOG {
                    Action::OpenLog
                } else if id == ID_OPEN_CFG {
                    Action::OpenConfig
                } else if id == ID_RELOAD {
                    Action::Reload
                } else if id == ID_DETAILS {
                    Action::Details
                } else if id == ID_EXIT {
                    Action::Exit
                } else {
                    Action::Ignore
                },
            },
        },
        match mode_set_by(id, now) {
            Some(m) => a == (Action::SetMode { mode: m.0, pick: m.1 }),
            None => !(a is SetMode),
        },
{
    if id == ID_AUTO {
        Action::SetMode { mode: Mode::Auto, pick: 0 }
    } else if id == ID_PAUSE {
        Action::SetMode { mode: Mode::Paused, pick: 0 }
    } else if id == ID_FORCE_30M {
        Action::SetMode { mode: Mode::Force(force_until(now, 1800)), pick: id }
    } else if id == ID_FORCE_1H {
        Action::SetMode { mode: Mode::Force(force_until(now, 3600)), pick: id }
    } else if id == ID_FORCE_3H {
        Action::SetMode { mode: Mode::Force(force_until(now, 10800)), pick: id }
    } else if id == ID_FORCE_INF {
        Action::SetMode { mode: Mode::Force(force_until(now, FOREVER)), pick: id }
    } else if id == ID_DET_AUDIO {
        Action::Save { key: "audio_enabled", value: toggle(cfg.audio_enabled) }
    } else if id == ID_DET_NET {
        Action::Save { key: "net_enabled", value: toggle(cfg.net_enabled) }
    } else if id == ID_DET_PROC {
        Action::Save { key: "proc_enabled", value: toggle(cfg.proc_enabled) }
    } else if id == ID_DET_DL {
        Action::Save { key: "dl_enabled", value: toggle(cfg.dl_enabled) }
    } else if id == ID_DET_HINT {
        Action::Save { key: "hint_enabled", value: toggle(cfg.hint_enabled) }
    } else if id == ID_POLICY_AC {
        Action::Save { key: "policy_ac", value: toggle_policy(cfg.policy_ac.as_str()) }
    } else if id == ID_POLICY_DC {
        Action::Save { key: "policy_dc", value: toggle_policy(cfg.policy_dc.as_str()) }
    } else if id == ID_AUTOSTART {
        let known = match autostart {
            Some(b) => b,
            None => false,
        };
        Action::Autostart { installing: !known }
    } else if id == ID_OPEN_LOG {
        Action::OpenLog
    } else if id == ID_OPEN_CFG {
        Action::OpenConfig
    } else if id == ID_RELOAD {
        Action::Reload
    } else if id == ID_DETAILS {
        Action::Details
    } else if id == ID_EXIT {
        Action::Exit
    } else {
        Action::Ignore
    }
}

/// Whether the program starts with the session, as far as it is known, and whether that
/// is to be found out. The question takes too long to wait for the answer.
pub fn autostart_installed(known: Option<bool>) -> (r: (bool, bool))
    ensures
        r == match known {
            Some(b) => (b, false),
            None => (false, true),
        },
{
    match known {
        Some(b) => (b, false),
        None => (false, true),
    }
}

/// What goes into the log where a setting could not be written back.
pub fn save_failed_line(key: &str, error: &str) -> (r: String)
    ensures
        r@ == "warn: set_and_save("@ + key@ + ") 失败: "@ + error@,
{
    let mut r = "warn: set_and_save(".to_owned();
    r.append(key);
    r.append(") 失败: ");
    r.append(error);
    r
}

/// What the user is told where a setting could not be written back.
pub fn save_failed_text(key: &str, value: &str, error: &str) -> (r: String)
    ensures
        r@ == "无法保存配置项 "@ + key@ + " = "@ + value@ + "\r\n\r\n"@ + error@,
{
    let mut r = "无法保存配置项 ".to_owned();
    r.append(key);
    r.append(" = ");
    r.append(value);
    r.append("\r\n\r\n");
    r.append(error);
    r
}

// ───────────────────────── clicks in the open menu ─────────────────────────

/// What becomes of a click in the open menu.
#[derive(Clone, Copy, Debug, PartialEq, Eq, Structural)]
pub enum Click {
    /// The menu gets it.
    Pass,
    /// Nobody gets it, so that the menu stays open.
    Swallow,
    /// Nobody gets it, and the item is carried out.
    Run,
}

/// Whether the hook has anything to do: it is a click with the left button while a menu is
/// open.
pub fn hook_concerned(action: bool, left_button: bool, readable: bool, menu_open: bool) -> (r: bool)
    ensures
        r == (action && left_button && readable && menu_open),
{
    action && left_button && readable && menu_open
}

/// What becomes of a click at a row of the menu, a negative one being none, on an item,
/// zero being a separator. Items that close the menu go their usual way. Of the others
/// pressing is swallowed and letting go carries them out; separators and the title do
/// nothing.
pub open spec fn click(row: i32, id: u32, released: bool) -> Click {
    if row < 0 {
        Click::Pass
    } else if id != 0 && !stays_open(id) {
        Click::Pass
    } else if released && id != 0 && id != ID_TITLE {
        Click::Run
    } else {
        Click::Swallow
    }
}

pub fn mouse_hook(row: i32, id: u32, released: bool) -> (r: Click)
    ensures
        r == click(row, id, released),
{
    if row < 0 {
        return Click::Pass;
    }
    if id != 0 && !keeps_menu_open(id) {
        return Click::Pass;
    }
    if released && id != 0 && id != ID_TITLE {
        Click::Run
    } else {
        Click::Swallow
    }
}

/// Only items that leave the menu open are carried out in it, and no item is carried out
/// before the button is let go.
pub proof fn law_clicks_keep_the_menu_open(row: i32, id: u32, released: bool)
    ensures
        click(row, id, released) == Click::Run ==> stays_open(id) && released,
        row >= 0 && !stays_open(id) ==> click(row, id, released) == Click::Pass,
{
}

// ───────────────────────── messages ─────────────────────────

/// A message to the hidden window.
#[derive(Clone, Copy, Debug, PartialEq, Eq, Structural)]
pub enum Message {
    /// The shell was started again.
    TaskbarCreated,
    /// The left button was let go over the icon.
    TrayClick,
    TrayDoubleClick,
    /// The menu is asked for.
    TrayMenu,
    /// Something else at the icon.
    TrayOther,
    /// A command, which scripts send.
    Command(u32),
    /// A round is over.
    StateChanged,
    /// The screen: zero is off, one on, two dimmed.
    Display(u8),
    /// The power source changed.
    PowerStatus,
    /// The machine is awake again.
    Resumed,
    /// Something else about power.
    PowerOther,
    Destroyed,
    Other,
}

/// What a message leads to.
#[derive(Clone, Copy, Debug, PartialEq, Eq, Structural)]
pub struct Reaction {
    pub add_icon: bool,
    pub set_mode: Option<Mode>,
    pub show_details: bool,
    pub show_menu: bool,
    /// The command to carry out.
    pub command: Option<u32>,
    /// Comes behind the mode and the command.
    pub refresh_icon: bool,
    /// What is known of the screen from now on.
    pub display_on: Option<bool>,
    pub wake_worker: bool,
    pub remove_icon: bool,
    pub quit: bool,
    /// The answer; without one the system handles the message.
    pub answer: Option<i32>,
}

/// Only an answer.
pub open spec fn silent(answer: i32) -> Reaction {
    Reaction {
        add_icon: false,
        set_mode: None,
        show_details: false,
        show_menu: false,
        command: None,
        refresh_icon: false,
        display_on: None,
        wake_worker: false,
        remove_icon: false,
        quit: false,
        answer: Some(answer),
    }
}

/// The mode that a click on the icon switches to.
pub open spec fn clicked_mode(mode: Mode) -> Mode {
    if mode == Mode::Auto {
        Mode::Paused
    } else {
        Mode::Auto
    }
}

/// What a message leads to, given the mode and what is known of the screen.
pub open spec fn reaction(m: Message, mode: Mode, display_on: bool) -> Reaction {
    match m {
        Message::TaskbarCreated => Reaction { add_icon: true, ..silent(0) },
        Message::TrayClick => Reaction {
            set_mode: Some(clicked_mode(mode)),
            refresh_icon: true,
            ..silent(0)
        },
        Message::TrayDoubleClick => Reaction { show_details: true, ..silent(0) },
        Message::TrayMenu => Reaction { show_menu: true, ..silent(0) },
        Message::TrayOther => silent(0),
        Message::Command(id) => Reaction { command: Some(id), refresh_icon: true, ..silent(0) },
        Message::StateChanged => Reaction { refresh_icon: true, ..silent(0) },
        Message::Display(n) => Reaction {
            display_on: Some(n != 0),
            wake_worker: display_on != (n != 0),
            ..silent(1)
        },
        Message::PowerStatus => Reaction { wake_worker: true, ..silent(1) },
        Message::Resumed => Reaction { display_on: Some(true), wake_worker: true, ..silent(1) },
        Message::PowerOther => silent(1),
        Message::Destroyed => Reaction { remove_icon: true, quit: true, ..silent(0) },
        Message::Other => Reaction { answer: None, ..silent(0) },
    }
}

pub fn wnd_proc(m: Message, mode: Mode, display_on: bool) -> (r: Reaction)
    ensures
        r == reaction(m, mode, display_on),
{
    let base = Reaction {
        add_icon: false,
        set_mode: None,
        show_details: false,
        show_menu: false,
        command: None,
        refresh_icon: false,
        display_on: None,
        wake_worker: false,
        remove_icon: false,
        quit: false,
        answer: Some(0),
    };
    let power = Reaction { answer: Some(1), ..base };
    match m {
        Message::TaskbarCreated => Reaction { add_icon: true, ..base },
        Message::TrayClick => Reaction {
            set_mode: Some(
                if mode == Mode::Auto {
                    Mode::Paused
                } else {
                    Mode::Auto
                },
            ),
            refresh_icon: true,
            ..base
        },
        Message::TrayDoubleClick => Reaction { show_details: true, ..base },
        Message::TrayMenu => Reaction { show_menu: true, ..base },
        Message::TrayOther => base,
        Message::Command(id) => Reaction { command: Some(id), refresh_icon: true, ..base },
        Message::StateChanged => Reaction { refresh_icon: true, ..base },
        Message::Display(n) => {
            let on = n != 0;
            Reaction { display_on: Some(on), wake_worker: display_on != on, ..power }
        },
        Message::PowerStatus => Reaction { wake_worker: true, ..power },
        Message::Resumed => Reaction { display_on: Some(true), wake_worker: true, ..power },
        Message::PowerOther => power,
        Message::Destroyed => Reaction { remove_icon: true, quit: true, ..base },
        Message::Other => Reaction { answer: None, ..base },
    }
}

/// Clicking the icon twice while the mode is automatic or paused brings the mode back.
pub proof fn law_two_clicks_restore_the_mode(mode: Mode)
    requires
        mode == Mode::Auto || mode == Mode::Paused,
    ensures
        clicked_mode(clicked_mode(mode)) == mode,
{
}

// ───────────────────────── details ─────────────────────────

pub open spec fn mark(b: bool) -> Seq<char> {
    if b {
        "✓"@
    } else {
        "✗"@
    }
}

pub fn on(b: bool) -> (r: &'static str)
    ensures
        r@ == mark(b),
{
    if b {
        "✓"
    } else {
        "✗"
    }
}

/// A mode; where it ends by itself, with the text of that time.
pub open spec fn mode_text(mode: Mode, deadline: Seq<char>) -> Seq<char> {
    match mode {
        Mode::Auto => "Auto"@,
        Mode::Paused => "Paused"@,
        Mode::Force(_) => "Force("@ + deadline + ")"@,
    }
}

/// The lines about a round.
pub open spec fn snapshot_lines(s: Snapshot, deadline: Seq<char>) -> Seq<Seq<char>> {
    seq![
        "供电: "@ + (if s.ac {
            "AC (插电)"@
        } else {
            "DC (电池)"@
        }) + "      显示器: "@ + (if s.display_on {
            "开"@
        } else {
            "关"@
        }),
        "持有: "@ + s.held.name(),
        "模式: "@ + mode_text(s.mode, deadline),
        "原因: "@ + (if s.reasons@.len() > 0 {
            text::join(text::views(s.reasons@), "\r\n      "@)
        } else if s.in_grace {
            "(宽限期内)"@
        } else {
            "(无)"@
        }),
    ]
}

/// The lines about the settings.
pub open spec fn settings_lines(cfg: Config) -> Seq<Seq<char>> {
    seq![
        "轮询 "@ + text::dec(cfg.poll_interval_secs as nat) + "s   宽限 "@ + text::dec(
            cfg.grace_secs as nat,
        ) + "s"@,
        "策略  插电="@ + cfg.policy_ac@ + "  电池="@ + cfg.policy_dc@ + "  never_wake_display="@
            + text::truth(cfg.never_wake_display),
        "检测  音频"@ + mark(cfg.audio_enabled) + " 网络"@ + mark(cfg.net_enabled) + " 进程"@
            + mark(cfg.proc_enabled) + " 下载器"@ + mark(cfg.dl_enabled) + " 提示"@ + mark(
            cfg.hint_enabled,
        ),
    ]
}

/// All lines of the details.
pub open spec fn details(cfg: Config, snapshot: Option<Snapshot>, deadline: Seq<char>) -> Seq<
    Seq<char>,
> {
    seq!["stayawake 当前状态"@, ""@] + (match snapshot {
        Some(s) => snapshot_lines(s, deadline),
        None => seq!["(worker 尚未完成首轮检测)"@],
    }) + seq![""@] + settings_lines(cfg) + seq![""@, "完整读数请运行:  stayawake.exe --status"@]
}

fn mode_string(mode: Mode, deadline: &str) -> (r: String)
    ensures
        r@ == mode_text(mode, deadline@),
{
    match mode {
        Mode::Auto => "Auto".to_owned(),
        Mode::Paused => "Paused".to_owned(),
        Mode::Force(_) => {
            let mut r = "Force(".to_owned();
            r.append(deadline);
            r.append(")");
            r
        },
    }
}

fn snapshot_strings(s: &Snapshot, deadline: &str) -> (lines: Vec<String>)
    ensures
        text::views(lines@) == snapshot_lines(*s, deadline@),
{
    let mut lines: Vec<String> = Vec::new();
    let mut a = "供电: ".to_owned();
    a.append(
        if s.ac {
            "AC (插电)"
        } else {
            "DC (电池)"
        },
    );
    a.append("      显示器: ");
    a.append(
        if s.display_on {
            "开"
        } else {
            "关"
        },
    );
    text::push_text(&mut lines, a.as_str());
    let mut b = "持有: ".to_owned();
    b.append(s.held.label());
    text::push_text(&mut lines, b.as_str());
    let mut c = "模式: ".to_owned();
    c.append(mode_string(s.mode, deadline).as_str());
    text::push_text(&mut lines, c.as_str());
    let mut d = "原因: ".to_owned();
    if s.reasons.len() > 0 {
        d.append(text::join_strings(&s.reasons, "\r\n      ").as_str());
    } else if s.in_grace {
        d.append("(宽限期内)");
    } else {
        d.append("(无)");
    }
    text::push_text(&mut lines, d.as_str());
    assert(text::views(lines@) == snapshot_lines(*s, deadline@));
    lines
}

fn settings_strings(cfg: &Config) -> (lines: Vec<String>)
    ensures
        text::views(lines@) == settings_lines(*cfg),
{
    let mut lines: Vec<String> = Vec::new();
    let mut a = "轮询 ".to_owned();
    text::push_dec(&mut a, cfg.poll_interval_secs as u128);
    a.append("s   宽限 ");
    text::push_dec(&mut a, cfg.grace_secs as u128);
    a.append("s");
    text::push_text(&mut lines, a.as_str());
    let mut b = "策略  插电=".to_owned();
    b.append(cfg.policy_ac.as_str());
    b.append("  电池=");
    b.append(cfg.policy_dc.as_str());
    b.append("  never_wake_display=");
    b.append(
        text::truth_word(cfg.never_wake_display),
    );
    text::push_text(&mut lines, b.as_str());
    let mut c = "检测  音频".to_owned();
    c.append(on(cfg.audio_enabled));
    c.append(" 网络");
    c.append(on(cfg.net_enabled));
    c.append(" 进程");
    c.append(on(cfg.proc_enabled));
    c.append(" 下载器");
    c.append(on(cfg.dl_enabled));
    c.append(" 提示");
    c.append(on(cfg.hint_enabled));
    text::push_text(&mut lines, c.as_str());
    assert(text::views(lines@) == settings_lines(*cfg));
    lines
}

/// The text of the details. `deadline` is the end of the forced mode as the clock shows
/// its times; it is left out in every other mode.
pub fn show_details(cfg: &Config, snapshot: &Option<Snapshot>, deadline: &str) -> (r: String)
    ensures
        r@ == text::join(details(*cfg, *snapshot, deadline@), "\r\n"@),
{
    let mut lines: Vec<String> = Vec::new();
    text::push_text(&mut lines, "stayawake 当前状态");
    text::push_text(&mut lines, "");
    match snapshot {
        Some(s) => {
            text::move_texts(&mut lines, snapshot_strings(s, deadline));
        },
        None => {
            text::push_text(&mut lines, "(worker 尚未完成首轮检测)");
        },
    }
    text::push_text(&mut lines, "");
    text::move_texts(&mut lines, settings_strings(cfg));
    text::push_text(&mut lines, "");
    text::push_text(&mut lines, "完整读数请运行:  stayawake.exe --status");
    assert(text::views(lines@) == details(*cfg, *snapshot, deadline@));
    text::join_strings(&lines, "\r\n")
}

} // verus!
