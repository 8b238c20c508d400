//! The `key = value` configuration file: reading it, rewriting one key in place,
//! and adding the keys that an older file lacks.
//!
//! The lines of the file are kept as they were read, so that rewriting loses no
//! comment. A value may be followed by a comment that starts with `#` or `;`.
use vstd::prelude::*;
use vstd::slice::{slice_subrange, slice_to_vec};

use crate::double;
use crate::double::{Double, Number};
use crate::fixed;
use crate::text;

verus! {

/// The file that is written where there is none, and the source of the keys that
/// an older file lacks.
pub const DEFAULT_CONFIG: &'static str = r#"# stayawake 配置
# 改完用托盘菜单「重新加载配置」生效, 不必重启

# 轮询间隔(秒): 完整检测的周期
poll_interval_secs = 15
# 快速探测间隔(秒): 空闲时用廉价手段(设备音频峰值/网速/提示文件)探一次,
# 命中就立刻做完整检测。这让"开始播放音乐"到"状态更新"的延迟从 15s 降到 2s,
# 而额外成本只有约 4ms/次。设为 0 关闭快速通道。
fast_poll_secs = 2
# 活动停止后继续保持的宽限期(秒), 防止音乐换歌/编译间隙来回抖动
grace_secs = 90

# 供电策略: system = 只阻止睡眠(允许熄屏) / display = 同时保持屏幕常亮
# 插电时 system-required 可无限阻塞睡眠, 所以让屏幕正常熄掉最省电
policy_ac = system
# 电池下 system-required 在睡眠超时后约 5 分钟会被系统强制清除,
# 只有 display-required 不受此限 -> 电池默认保屏幕
policy_dc = display

# true = 屏幕已经熄了就不主动点亮(降级为仅防睡)。半夜下载启动不会闪亮屏
never_wake_display = true

# true = 宽限期结束后主动调 SetSuspendState 让机器立刻睡
# 默认 false: 交给 Windows 按正常流程决定, 不替用户按睡眠键
sleep_on_release = false


# ── 音频播放 (WASAPI 逐会话检测) ──
audio_enabled = true
# 会话峰值阈值。数字静音(全 0 采样)不算在放声
audio_peak_threshold = 0.0001
# 峰值保持窗口(秒)。GetPeakValue 是瞬时值, 乐曲安静段落/歌曲间隙会读到 0,
# 直接判定会让状态来回抖动。在这个窗口内响过就仍算它在播放。
audio_hold_secs = 20
# 忽略这些进程的音频。壁纸软件/常驻音效会一直输出, 不该阻止休眠
audio_ignore = wallpaper64.exe, wallpaper32.exe, wallpaperservice32.exe, wallpaperservice64.exe


# ── 全局网速 (GetIfTable2 差分) ──
net_enabled = true
# 阈值(KB/s)。1024 = 1 MB/s: 只有实打实的大流量传输才算"忙",
# 浏览网页、遥测、后台同步这类零碎流量不会阻止休眠
net_threshold_kbps = 1024
# 连续几个 tick 超阈值才算忙, 滤掉瞬时突发
net_min_consecutive_tick = 2


# ── CPU 密集型进程 (高 CPU = 真在干活) ──
proc_enabled = true
# 单核百分比: 单线程打满一核 = 100%, 与核心数无关
proc_cpu_percent_1core = 5.0
proc_busy_when_cpu = cargo.exe, rustc.exe, link.exe, cl.exe, msbuild.exe, node.exe, python.exe, ffmpeg.exe, 7z.exe, WinRAR.exe, git.exe


# ── 下载器 (I/O 密集但 CPU≈0, 需专用规则) ──
# 判据: io >= dl_io_kbps, 或者 (established TCP >= dl_tcp_conns 且 io > 0)
# 注意: I/O 阈值只对此名单生效。Electron 类应用的进程间共享内存流量会到 GB/s, 全局启用必假阳性
dl_enabled = true
# 不要往这里加 BT 客户端(qBittorrent/Transmission 等): 做种时会长期持有几十条
# established 连接而吞吐为零, 虽然有 "io>0" 约束兜着, 但 BT 的心跳流量仍可能持续触发
dl_processes = IDMan.exe, idmBroker.exe, aria2c.exe
# 进程 Read+Write 传输速率阈值(KB/s)
dl_io_kbps = 50
# established TCP 连接数阈值。IDM 默认每文件开 8 条; 空闲时 0-2 条
# 配合 "io>0" 使用, 抓"服务器限速、速度很低但仍在传输"
dl_tcp_conns = 4


# ── 外部提示文件 ──
# 任何程序在 %LOCALAPPDATA%\stayawake\hints\ 下 touch 一个 .hint 文件即可保持唤醒,
# 删除即释放; 文件 mtime 超过 hint_ttl_secs 自动失效(写方崩溃不会把机器永久卡醒)
hint_enabled = true
hint_ttl_secs = 60
"#;

// ───────────────────────── lines and entries ─────────────────────────

/// Where the comment of a value starts, or the length where it has none.
pub open spec fn comment_start(s: Seq<char>) -> int {
    let a = text::find(s, '#');
    let b = text::find(s, ';');
    if a <= b {
        a
    } else {
        b
    }
}

/// A value without the comment behind it and without white space around it.
pub open spec fn strip_comment(s: Seq<char>) -> Seq<char> {
    text::trim(s.take(comment_start(s)))
}

/// Whether a line is a comment or blank.
pub open spec fn is_silent(line: Seq<char>) -> bool {
    let t = text::trim(line);
    t.len() == 0 || t[0] == '#' || t[0] == ';'
}

/// The key and the value that a line sets. A blank line, a comment and a line
/// without an equals sign set nothing.
pub open spec fn entry_of(line: Seq<char>) -> Option<(Seq<char>, Seq<char>)> {
    let t = text::trim(line);
    let eq = text::find(t, '=');
    if is_silent(line) || eq >= t.len() {
        None
    } else {
        Some((text::trim(t.take(eq)), strip_comment(t.skip(eq + 1))))
    }
}

/// The keys with their values, in the order of the lines.
pub open spec fn entries(ls: Seq<Seq<char>>) -> Seq<(Seq<char>, Seq<char>)>
    decreases ls.len(),
{
    if ls.len() == 0 {
        Seq::empty()
    } else {
        match entry_of(ls.last()) {
            Some(e) => entries(ls.drop_last()).push(e),
            None => entries(ls.drop_last()),
        }
    }
}

/// Whether some entry has the key.
pub open spec fn has_key(es: Seq<(Seq<char>, Seq<char>)>, key: Seq<char>) -> bool {
    exists|i: int| 0 <= i < es.len() && (#[trigger] es[i]).0 == key
}

/// The value of the first entry with the key; nothing where there is none.
pub open spec fn lookup(es: Seq<(Seq<char>, Seq<char>)>, key: Seq<char>) -> Seq<char>
    decreases es.len(),
{
    if es.len() == 0 {
        Seq::empty()
    } else if es.first().0 == key {
        es.first().1
    } else {
        lookup(es.drop_first(), key)
    }
}

fn comment_at(s: &[char]) -> (r: usize)
    ensures
        r == comment_start(s@),
        r <= s@.len(),
{
    let a = text::find_char(s, '#');
    let b = text::find_char(s, ';');
    if a <= b {
        a
    } else {
        b
    }
}

fn stripped(s: &[char]) -> (r: &[char])
    ensures
        r@ == strip_comment(s@),
{
    text::trimmed(slice_subrange(s, 0, comment_at(s)))
}

fn silent(t: &[char]) -> (r: bool)
    ensures
        r == (t@.len() == 0 || t@[0] == '#' || t@[0] == ';'),
{
    t.len() == 0 || t[0] == '#' || t[0] == ';'
}

/// An entry as character vectors.
pub open spec fn pair_view(p: (Vec<char>, Vec<char>)) -> (Seq<char>, Seq<char>) {
    (p.0@, p.1@)
}

pub open spec fn pair_views(v: Seq<(Vec<char>, Vec<char>)>) -> Seq<(Seq<char>, Seq<char>)> {
    v.map_values(|p: (Vec<char>, Vec<char>)| pair_view(p))
}

fn read_entry(line: &[char]) -> (r: Option<(Vec<char>, Vec<char>)>)
    ensures
        match r {
            Some(p) => entry_of(line@) == Some(pair_view(p)),
            None => entry_of(line@) is None,
        },
{
    let t = text::trimmed(line);
    if silent(t) {
        return None;
    }
    let eq = text::find_char(t, '=');
    if eq == t.len() {
        return None;
    }
    let key = text::trimmed(slice_subrange(t, 0, eq));
    let val = stripped(slice_subrange(t, eq + 1, t.len()));
    assert(t@.skip(eq + 1) =~= t@.subrange(eq + 1, t@.len() as int));
    assert(t@.take(eq as int) =~= t@.subrange(0, eq as int));
    Some((slice_to_vec(key), slice_to_vec(val)))
}

pub fn read_entries(ls: &Vec<Vec<char>>) -> (r: Vec<(Vec<char>, Vec<char>)>)
    ensures
        pair_views(r@) == entries(text::char_views(ls@)),
{
    let mut out: Vec<(Vec<char>, Vec<char>)> = Vec::new();
    let mut i: usize = 0;
    let ghost all = text::char_views(ls@);
    assert(pair_views(out@) =~= entries(all.take(0)));
    while i < ls.len()
        invariant
            i <= ls@.len(),
            all == text::char_views(ls@),
            pair_views(out@) == entries(all.take(i as int)),
        decreases ls@.len() - i,
    {
        let ghost before = pair_views(out@);
        assert(all.take(i + 1).drop_last() =~= all.take(i as int));
        assert(all.take(i + 1).last() == ls@[i as int]@);
        if let Some(p) = read_entry(ls[i].as_slice()) {
            out.push(p);
            assert(pair_views(out@) =~= before.push(pair_view(p)));
        }
        i = i + 1;
    }
    assert(all.take(i as int) =~= all);
    out
}

pub proof fn lemma_lookup_skips(es: Seq<(Seq<char>, Seq<char>)>, key: Seq<char>, n: int)
    requires
        0 <= n <= es.len(),
        forall|j: int| 0 <= j < n ==> (#[trigger] es[j]).0 != key,
    ensures
        lookup(es, key) == lookup(es.skip(n), key),
    decreases n,
{
    if n == 0 {
        assert(es.skip(0) =~= es);
    } else {
        let t = es.drop_first();
        assert forall|j: int| 0 <= j < n - 1 implies (#[trigger] t[j]).0 != key by {
            assert(t[j] == es[j + 1]);
        }
        lemma_lookup_skips(t, key, n - 1);
        assert(t.skip(n - 1) =~= es.skip(n));
        assert(es[0].0 != key);
    }
}

pub fn get(es: &Vec<(Vec<char>, Vec<char>)>, key: &str) -> (r: Vec<char>)
    ensures
        r@ == lookup(pair_views(es@), key@),
{
    let k = text::chars_of(key);
    let ghost all = pair_views(es@);
    let mut i: usize = 0;
    while i < es.len()
        invariant
            i <= es@.len(),
            all == pair_views(es@),
            k@ == key@,
            forall|j: int| 0 <= j < i ==> (#[trigger] all[j]).0 != key@,
        decreases es@.len() - i,
    {
        if text::same_chars(es[i].0.as_slice(), k.as_slice()) {
            proof {
                lemma_lookup_skips(all, key@, i as int);
                assert(all.skip(i as int).first() == pair_view(es@[i as int]));
            }
            return slice_to_vec(es[i].1.as_slice());
        }
        i = i + 1;
    }
    proof {
        lemma_lookup_skips(all, key@, i as int);
        assert(all.skip(i as int).len() == 0);
    }
    Vec::new()
}

// ───────────────────────── values ─────────────────────────

/// The names of a comma-separated list, without blank ones.
pub open spec fn parse_list(s: Seq<char>) -> Seq<Seq<char>>
    decreases s.len(),
{
    let k = text::find(s, ',');
    let head = trim_piece(s, k);
    let first = if head.len() == 0 {
        Seq::<Seq<char>>::empty()
    } else {
        seq![head]
    };
    if 0 <= k < s.len() {
        first + parse_list(s.skip(k + 1))
    } else {
        first
    }
}

/// What stands before index `k`, without white space around it.
pub open spec fn trim_piece(s: Seq<char>, k: int) -> Seq<char> {
    text::trim(s.take(k))
}

fn read_list(s: &[char]) -> (r: Vec<String>)
    ensures
        text::views(r@) == parse_list(s@),
{
    let mut out: Vec<String> = Vec::new();
    let mut rest = s;
    while text::find_char(rest, ',') < rest.len()
        invariant
            text::views(out@) + parse_list(rest@) == parse_list(s@),
        decreases rest@.len(),
    {
        let k = text::find_char(rest, ',');
        let head = text::trimmed(slice_subrange(rest, 0, k));
        let ghost before = text::views(out@);
        assert(rest@.take(k as int) =~= rest@.subrange(0, k as int));
        if head.len() > 0 {
            out.push(text::string_of(head));
            assert(text::views(out@) =~= before.push(head@));
        }
        let tail = slice_subrange(rest, k + 1, rest.len());
        assert(tail@ =~= rest@.skip(k + 1));
        assert(text::views(out@) + parse_list(tail@) =~= before + parse_list(rest@));
        rest = tail;
    }
    let ghost before = text::views(out@);
    let head = text::trimmed(rest);
    proof {
        text::lemma_find(rest@, ',');
        assert(rest@.take(rest@.len() as int) =~= rest@);
    }
    if head.len() > 0 {
        out.push(text::string_of(head));
        assert(text::views(out@) =~= before.push(head@));
    }
    assert(text::views(out@) =~= before + parse_list(rest@));
    out
}

/// A switch: four spellings of yes, four of no, the default for anything else.
pub open spec fn switch(v: Seq<char>, default: bool) -> bool {
    let l = text::lower(v);
    if l == "true"@ || l == "1"@ || l == "yes"@ || l == "on"@ {
        true
    } else if l == "false"@ || l == "0"@ || l == "no"@ || l == "off"@ {
        false
    } else {
        default
    }
}

pub fn read_switch(v: &[char], default: bool) -> (r: bool)
    ensures
        r == switch(v@, default),
{
    let l = text::string_of(text::to_lower(v).as_slice());
    let l = l.as_str();
    if text::same(l, "true") || text::same(l, "1") || text::same(l, "yes") || text::same(l, "on") {
        true
    } else if text::same(l, "false") || text::same(l, "0") || text::same(l, "no") || text::same(
        l,
        "off",
    ) {
        false
    } else {
        default
    }
}

/// A whole number, or the default where the value is none.
pub open spec fn whole(v: Seq<char>, default: u64) -> u64 {
    match text::parse_u64(v) {
        Some(n) => n,
        None => default,
    }
}

fn read_whole(v: &[char], default: u64) -> (r: u64)
    ensures
        r == whole(v@, default),
{
    match text::read_u64(v) {
        Some(n) => n,
        None => default,
    }
}

/// A number, or the default where the value is none.
pub open spec fn number(v: Seq<char>, default: Double) -> Number {
    match fixed::parse_number(v) {
        Some(n) => n,
        None => Number::Signed { negative: false, size: default },
    }
}

fn read_number(v: &[char], default: Double) -> (r: Number)
    ensures
        r == number(v@, default),
{
    match fixed::read_number(v) {
        Some(n) => n,
        None => Number::Signed { negative: false, size: default },
    }
}

/// A power policy: `system` or `display` in any case, the default for anything else.
pub open spec fn policy(v: Seq<char>, default: Seq<char>) -> Seq<char> {
    let l = text::lower(v);
    if l == "system"@ || l == "display"@ {
        l
    } else {
        default
    }
}

fn read_policy(v: &[char], default: &str) -> (r: String)
    ensures
        r@ == policy(v@, default@),
{
    let l = text::string_of(text::to_lower(v).as_slice());
    if text::same(l.as_str(), "system") || text::same(l.as_str(), "display") {
        l
    } else {
        default.to_owned()
    }
}

pub open spec fn clamp(n: u64, low: u64, high: u64) -> u64 {
    if n < low {
        low
    } else if n > high {
        high
    } else {
        n
    }
}

fn clamped(n: u64, low: u64, high: u64) -> (r: u64)
    ensures
        r == clamp(n, low, high),
{
    if n < low {
        low
    } else if n > high {
        high
    } else {
        n
    }
}

// ───────────────────────── the settings ─────────────────────────

/// What a configuration sets.
#[derive(Clone)]
pub struct Config {
    pub poll_interval_secs: u64,
    pub fast_poll_secs: u64,
    pub grace_secs: u64,
    pub policy_ac: String,
    pub policy_dc: String,
    pub never_wake_display: bool,
    pub sleep_on_release: bool,
    pub audio_enabled: bool,
    pub audio_peak_threshold: Number,
    pub audio_hold_secs: u64,
    pub audio_ignore: Vec<String>,
    pub net_enabled: bool,
    pub net_threshold_kbps: u64,
    pub net_min_consecutive_tick: u32,
    pub proc_enabled: bool,
    pub proc_cpu_percent_1core: Number,
    pub proc_busy_when_cpu: Vec<String>,
    pub dl_enabled: bool,
    pub dl_processes: Vec<String>,
    pub dl_io_kbps: u64,
    pub dl_tcp_conns: u32,
    pub hint_enabled: bool,
    pub hint_ttl_secs: u64,
    /// The lines as they were read: comments and unknown keys survive a rewrite.
    pub raw: Vec<Vec<char>>,
}

/// The settings of a configuration, with texts as character sequences.
pub struct Settings {
    pub poll_interval_secs: u64,
    pub fast_poll_secs: u64,
    pub grace_secs: u64,
    pub policy_ac: Seq<char>,
    pub policy_dc: Seq<char>,
    pub never_wake_display: bool,
    pub sleep_on_release: bool,
    pub audio_enabled: bool,
    pub audio_peak_threshold: Number,
    pub audio_hold_secs: u64,
    pub audio_ignore: Seq<Seq<char>>,
    pub net_enabled: bool,
    pub net_threshold_kbps: u64,
    pub net_min_consecutive_tick: u32,
    pub proc_enabled: bool,
    pub proc_cpu_percent_1core: Number,
    pub proc_busy_when_cpu: Seq<Seq<char>>,
    pub dl_enabled: bool,
    pub dl_processes: Seq<Seq<char>>,
    pub dl_io_kbps: u64,
    pub dl_tcp_conns: u32,
    pub hint_enabled: bool,
    pub hint_ttl_secs: u64,
}

/// The settings that the entries of a file give. Every number is brought into the
/// range in which it makes sense; a fast poll of zero means that there is none.
pub open spec fn settings_of(es: Seq<(Seq<char>, Seq<char>)>) -> Settings {
    let poll = clamp(whole(lookup(es, "poll_interval_secs"@), 15), 1, 3600);
    let fast = whole(lookup(es, "fast_poll_secs"@), 2);
    Settings {
        poll_interval_secs: poll,
        fast_poll_secs: if fast == 0 {
            0
        } else {
            clamp(fast, 1, poll)
        },
        grace_secs: clamp(whole(lookup(es, "grace_secs"@), 90), 0, 3600),
        policy_ac: policy(lookup(es, "policy_ac"@), "system"@),
        policy_dc: policy(lookup(es, "policy_dc"@), "display"@),
        never_wake_display: switch(lookup(es, "never_wake_display"@), true),
        sleep_on_release: switch(lookup(es, "sleep_on_release"@), false),
        audio_enabled: switch(lookup(es, "audio_enabled"@), true),
        audio_peak_threshold: number(
            lookup(es, "audio_peak_threshold"@),
            double::rounded(1, 10_000),
        ),
        audio_hold_secs: clamp(whole(lookup(es, "audio_hold_secs"@), 20), 1, 600),
        audio_ignore: parse_list(lookup(es, "audio_ignore"@)),
        net_enabled: switch(lookup(es, "net_enabled"@), true),
        net_threshold_kbps: clamp(whole(lookup(es, "net_threshold_kbps"@), 1024), 1, u64::MAX),
        net_min_consecutive_tick: clamp(
            whole(lookup(es, "net_min_consecutive_tick"@), 2),
            1,
            100,
        ) as u32,
        proc_enabled: switch(lookup(es, "proc_enabled"@), true),
        proc_cpu_percent_1core: number(
            lookup(es, "proc_cpu_percent_1core"@),
            double::rounded(5, 1),
        ),
        proc_busy_when_cpu: parse_list(lookup(es, "proc_busy_when_cpu"@)),
        dl_enabled: switch(lookup(es, "dl_enabled"@), true),
        dl_processes: parse_list(lookup(es, "dl_processes"@)),
        dl_io_kbps: clamp(whole(lookup(es, "dl_io_kbps"@), 50), 1, u64::MAX),
        dl_tcp_conns: clamp(whole(lookup(es, "dl_tcp_conns"@), 4), 1, 10000) as u32,
        hint_enabled: switch(lookup(es, "hint_enabled"@), true),
        hint_ttl_secs: clamp(whole(lookup(es, "hint_ttl_secs"@), 60), 10, u64::MAX),
    }
}

impl Config {
    pub open spec fn settings(self) -> Settings {
        Settings {
            poll_interval_secs: self.poll_interval_secs,
            fast_poll_secs: self.fast_poll_secs,
            grace_secs: self.grace_secs,
            policy_ac: self.policy_ac@,
            policy_dc: self.policy_dc@,
            never_wake_display: self.never_wake_display,
            sleep_on_release: self.sleep_on_release,
            audio_enabled: self.audio_enabled,
            audio_peak_threshold: self.audio_peak_threshold,
            audio_hold_secs: self.audio_hold_secs,
            audio_ignore: text::views(self.audio_ignore@),
            net_enabled: self.net_enabled,
            net_threshold_kbps: self.net_threshold_kbps,
            net_min_consecutive_tick: self.net_min_consecutive_tick,
            proc_enabled: self.proc_enabled,
            proc_cpu_percent_1core: self.proc_cpu_percent_1core,
            proc_busy_when_cpu: text::views(self.proc_busy_when_cpu@),
            dl_enabled: self.dl_enabled,
            dl_processes: text::views(self.dl_processes@),
            dl_io_kbps: self.dl_io_kbps,
            dl_tcp_conns: self.dl_tcp_conns,
            hint_enabled: self.hint_enabled,
            hint_ttl_secs: self.hint_ttl_secs,
        }
    }

    /// The lines of the file that the configuration was read from.
    pub open spec fn raw_lines(self) -> Seq<Seq<char>> {
        text::char_views(self.raw@)
    }

    /// Reads a configuration. Of a key that occurs more than once the first entry
    /// counts, which is the one that `rewrite` changes.
    pub fn from_text(source: &str) -> (r: Config)
        ensures
            r.raw_lines() == text::lines(source@),
            r.settings() == settings_of(entries(text::lines(source@))),
    {
        let chars = text::chars_of(source);
        let raw = text::lines_of(chars.as_slice());
        let es = read_entries(&raw);
        let poll = clamped(
            read_whole(get(&es, "poll_interval_secs").as_slice(), 15),
            1,
            3600,
        );
        let fast = read_whole(get(&es, "fast_poll_secs").as_slice(), 2);
        let config = Config {
            poll_interval_secs: poll,
            fast_poll_secs: if fast == 0 {
                0
            } else {
                clamped(fast, 1, poll)
            },
            grace_secs: clamped(read_whole(get(&es, "grace_secs").as_slice(), 90), 0, 3600),
            policy_ac: read_policy(get(&es, "policy_ac").as_slice(), "system"),
            policy_dc: read_policy(get(&es, "policy_dc").as_slice(), "display"),
            never_wake_display: read_switch(get(&es, "never_wake_display").as_slice(), true),
            sleep_on_release: read_switch(get(&es, "sleep_on_release").as_slice(), false),
            audio_enabled: read_switch(get(&es, "audio_enabled").as_slice(), true),
            audio_peak_threshold: read_number(
                get(&es, "audio_peak_threshold").as_slice(),
                Double::ratio(1, 10_000),
            ),
            audio_hold_secs: clamped(
                read_whole(get(&es, "audio_hold_secs").as_slice(), 20),
                1,
                600,
            ),
            audio_ignore: read_list(get(&es, "audio_ignore").as_slice()),
            net_enabled: read_switch(get(&es, "net_enabled").as_slice(), true),
            // A threshold of zero would count no traffic at all as activity.
            net_threshold_kbps: clamped(
                read_whole(get(&es, "net_threshold_kbps").as_slice(), 1024),
                1,
                u64::MAX,
            ),
            net_min_consecutive_tick: clamped(
                read_whole(get(&es, "net_min_consecutive_tick").as_slice(), 2),
                1,
                100,
            ) as u32,
            proc_enabled: read_switch(get(&es, "proc_enabled").as_slice(), true),
            proc_cpu_percent_1core: read_number(
                get(&es, "proc_cpu_percent_1core").as_slice(),
                Double::whole(5),
            ),
            proc_busy_when_cpu: read_list(get(&es, "proc_busy_when_cpu").as_slice()),
            dl_enabled: read_switch(get(&es, "dl_enabled").as_slice(), true),
            dl_processes: read_list(get(&es, "dl_processes").as_slice()),
            dl_io_kbps: clamped(read_whole(get(&es, "dl_io_kbps").as_slice(), 50), 1, u64::MAX),
            dl_tcp_conns: clamped(
                read_whole(get(&es, "dl_tcp_conns").as_slice(), 4),
                1,
                10000,
            ) as u32,
            hint_enabled: read_switch(get(&es, "hint_enabled").as_slice(), true),
            hint_ttl_secs: clamped(
                read_whole(get(&es, "hint_ttl_secs").as_slice(), 60),
                10,
                u64::MAX,
            ),
            raw,
        };
        config
    }
}

// ───────────────────────── rewriting ─────────────────────────

/// Whether a line sets the key.
pub open spec fn sets(line: Seq<char>, key: Seq<char>) -> bool {
    entry_of(line) matches Some(e) && e.0 == key
}

/// The first line that sets the key, or the number of lines where none does.
pub open spec fn first_setting(ls: Seq<Seq<char>>, key: Seq<char>) -> int
    decreases ls.len(),
{
    if ls.len() == 0 || sets(ls.first(), key) {
        0
    } else {
        1 + first_setting(ls.drop_first(), key)
    }
}

/// The comment behind the value of a line, set off by three spaces.
pub open spec fn kept_comment(line: Seq<char>) -> Seq<char> {
    let t = text::trim(line);
    let tail = t.skip(text::find(t, '=') + 1);
    let k = comment_start(tail);
    if k < tail.len() {
        seq![' ', ' ', ' '] + text::trim_end(tail.skip(k))
    } else {
        Seq::empty()
    }
}

/// The line that sets the key to the value.
pub open spec fn setting_line(key: Seq<char>, value: Seq<char>) -> Seq<char> {
    key + seq![' ', '=', ' '] + value
}

/// The lines with the key set to the value: in its first line, where the comment
/// stays, or in a new line at the end.
pub open spec fn rewritten(ls: Seq<Seq<char>>, key: Seq<char>, value: Seq<char>) -> Seq<Seq<char>> {
    let i = first_setting(ls, key);
    if 0 <= i < ls.len() {
        ls.update(i, setting_line(key, value) + kept_comment(ls[i]))
    } else {
        ls.push(setting_line(key, value))
    }
}

/// The text of the lines, each ended by a line feed.
pub open spec fn unlines(ls: Seq<Seq<char>>) -> Seq<char> {
    text::join(ls, seq!['\n']).push('\n')
}

/// The first line that sets the key is the only place where the search can stop.
pub proof fn lemma_first_setting(ls: Seq<Seq<char>>, key: Seq<char>, n: int)
    requires
        0 <= n <= ls.len(),
        forall|j: int| 0 <= j < n ==> !sets(#[trigger] ls[j], key),
        n < ls.len() ==> sets(ls[n], key),
    ensures
        first_setting(ls, key) == n,
    decreases n,
{
    if n > 0 {
        let t = ls.drop_first();
        assert forall|j: int| 0 <= j < n - 1 implies !sets(#[trigger] t[j], key) by {
            assert(t[j] == ls[j + 1]);
        }
        assert(!sets(ls[0], key));
        lemma_first_setting(t, key, n - 1);
    }
}

fn line_sets(line: &[char], key: &[char]) -> (r: bool)
    ensures
        r == sets(line@, key@),
{
    match read_entry(line) {
        Some(p) => text::same_chars(p.0.as_slice(), key),
        None => false,
    }
}

/// Where the first line that sets the key stands.
fn find_setting(ls: &Vec<Vec<char>>, key: &[char]) -> (r: usize)
    ensures
        r == first_setting(text::char_views(ls@), key@),
        r <= ls@.len(),
{
    let ghost all = text::char_views(ls@);
    let mut i: usize = 0;
    while i < ls.len() && !line_sets(ls[i].as_slice(), key)
        invariant
            i <= ls@.len(),
            all == text::char_views(ls@),
            forall|j: int| 0 <= j < i ==> !sets(#[trigger] all[j], key@),
        decreases ls@.len() - i,
    {
        assert(all[i as int] == ls@[i as int]@);
        i = i + 1;
    }
    proof {
        if i < ls@.len() {
            assert(all[i as int] == ls@[i as int]@);
        }
        lemma_first_setting(all, key@, i as int);
    }
    i
}

fn new_setting_line(key: &[char], value: &[char]) -> (r: Vec<char>)
    ensures
        r@ == setting_line(key@, value@),
{
    let mut r = slice_to_vec(key);
    r.push(' ');
    r.push('=');
    r.push(' ');
    let mut v = slice_to_vec(value);
    r.append(&mut v);
    assert(r@ =~= setting_line(key@, value@));
    r
}

fn comment_kept(line: &[char]) -> (r: Vec<char>)
    requires
        entry_of(line@) is Some,
    ensures
        r@ == kept_comment(line@),
{
    let t = text::trimmed(line);
    let eq = text::find_char(t, '=');
    assert(eq < t.len());
    let tail = slice_subrange(t, eq + 1, t.len());
    assert(tail@ =~= t@.skip(eq + 1));
    let k = comment_at(tail);
    let mut r: Vec<char> = Vec::new();
    if k < tail.len() {
        r.push(' ');
        r.push(' ');
        r.push(' ');
        let c = text::trimmed_end(slice_subrange(tail, k, tail.len()));
        assert(tail@.subrange(k as int, tail@.len() as int) =~= tail@.skip(k as int));
        let mut c = slice_to_vec(c);
        r.append(&mut c);
    }
    assert(r@ =~= kept_comment(line@));
    r
}

fn write_lines(ls: &Vec<Vec<char>>) -> (r: String)
    ensures
        r@ == unlines(text::char_views(ls@)),
{
    let mut r = String::new();
    let ghost all = text::char_views(ls@);
    let mut i: usize = 0;
    while i < ls.len()
        invariant
            i <= ls@.len(),
            all == text::char_views(ls@),
            r@ == text::join(all.take(i as int), seq!['\n']),
        decreases ls@.len() - i,
    {
        let ghost done = all.take(i as int);
        let ghost next = all.take(i + 1);
        assert(next.drop_last() =~= done);
        if i > 0 {
            r.push('\n');
        }
        text::push_chars(&mut r, ls[i].as_slice());
        assert(r@ =~= text::join(next, seq!['\n']));
        i = i + 1;
    }
    assert(all.take(i as int) =~= all);
    r.push('\n');
    r
}

impl Config {
    /// Sets one key in the kept lines and returns the whole new file. The settings
    /// themselves stay as they are until the text is read again.
    pub fn rewrite(&mut self, key: &str, value: &str) -> (r: String)
        ensures
            final(self).settings() == old(self).settings(),
            final(self).raw_lines() == rewritten(old(self).raw_lines(), key@, value@),
            r@ == unlines(rewritten(old(self).raw_lines(), key@, value@)),
    {
        let k = text::chars_of(key);
        let v = text::chars_of(value);
        let i = find_setting(&self.raw, k.as_slice());
        let mut line = new_setting_line(k.as_slice(), v.as_slice());
        let ghost before = self.raw_lines();
        if i < self.raw.len() {
            proof {
                lemma_first_setting_sets(before, key@);
            }
            let mut c = comment_kept(self.raw[i].as_slice());
            line.append(&mut c);
            self.raw[i] = line;
        } else {
            self.raw.push(line);
        }
        assert(self.raw_lines() =~= rewritten(before, key@, value@));
        write_lines(&self.raw)
    }

    /// Sets one key and takes over the settings that the new file gives, whether or
    /// not it can be stored. Returns the text to store.
    pub fn set_and_save(&mut self, key: &str, value: &str) -> (r: String)
        ensures
            r@ == unlines(rewritten(old(self).raw_lines(), key@, value@)),
            final(self).raw_lines() == text::lines(r@),
            final(self).settings() == settings_of(entries(text::lines(r@))),
    {
        let r = self.rewrite(key, value);
        *self = Config::from_text(r.as_str());
        r
    }
}

/// The search for the first line that sets a key stops at such a line.
pub proof fn lemma_first_setting_sets(ls: Seq<Seq<char>>, key: Seq<char>)
    ensures
        0 <= first_setting(ls, key) <= ls.len(),
        forall|j: int| 0 <= j < first_setting(ls, key) ==> !sets(#[trigger] ls[j], key),
        first_setting(ls, key) < ls.len() ==> sets(ls[first_setting(ls, key)], key),
    decreases ls.len(),
{
    if ls.len() > 0 && !sets(ls.first(), key) {
        let t = ls.drop_first();
        lemma_first_setting_sets(t, key);
        assert forall|j: int| 0 <= j < first_setting(ls, key) implies !sets(
            #[trigger] ls[j],
            key,
        ) by {
            if j > 0 {
                assert(t[j - 1] == ls[j]);
            }
        }
    }
}

// ───────────────────────── adding what an older file lacks ─────────────────────────

/// What separates the keys that are added from the rest of the file.
pub const ADDED_HEADER: &'static str = "\n\n# ── 以下为新版本追加的配置项 ──\n";

/// Whether a line is a comment that belongs to the key below it; the comment that
/// opens a section does not.
pub open spec fn explains(line: Seq<char>) -> bool {
    let t = text::trim(line);
    text::starts_with_char(t, '#') && !"# ──"@.is_prefix_of(t)
}

/// The comments directly above line `i`.
pub open spec fn comments_above(ls: Seq<Seq<char>>, i: int) -> Seq<Seq<char>>
    decreases i,
{
    if 0 < i <= ls.len() && explains(ls[i - 1]) {
        comments_above(ls, i - 1).push(ls[i - 1])
    } else {
        Seq::empty()
    }
}

/// Whether a line sets a key that is not among the entries.
pub open spec fn sets_missing(line: Seq<char>, es: Seq<(Seq<char>, Seq<char>)>) -> bool {
    entry_of(line) matches Some(e) && !has_key(es, e.0)
}

/// Of the first `n` lines, those that set a key which the entries lack, each below
/// the comments that explain it.
pub open spec fn lacking_lines(
    ls: Seq<Seq<char>>,
    es: Seq<(Seq<char>, Seq<char>)>,
    n: int,
) -> Seq<Seq<char>>
    decreases n,
{
    if 0 < n <= ls.len() {
        let before = lacking_lines(ls, es, n - 1);
        if sets_missing(ls[n - 1], es) {
            before + comments_above(ls, n - 1).push(ls[n - 1])
        } else {
            before
        }
    } else {
        Seq::empty()
    }
}

/// The lines of the default file that a file with these entries lacks.
pub open spec fn lacking_of(es: Seq<(Seq<char>, Seq<char>)>) -> Seq<Seq<char>> {
    let ls = text::lines(DEFAULT_CONFIG@);
    lacking_lines(ls, es, ls.len() as int)
}

/// A file with the keys added that it lacks. Where it lacks none it is unchanged.
pub open spec fn migrated(s: Seq<char>) -> Seq<char> {
    let added = lacking_of(entries(text::lines(s)));
    if added.len() == 0 {
        s
    } else {
        text::trim_end(s) + ADDED_HEADER@ + unlines(added)
    }
}

fn knows(es: &Vec<(Vec<char>, Vec<char>)>, key: &[char]) -> (r: bool)
    ensures
        r == has_key(pair_views(es@), key@),
{
    let ghost all = pair_views(es@);
    let mut i: usize = 0;
    while i < es.len()
        invariant
            i <= es@.len(),
            all == pair_views(es@),
            forall|j: int| 0 <= j < i ==> (#[trigger] all[j]).0 != key@,
        decreases es@.len() - i,
    {
        assert(all[i as int] == pair_view(es@[i as int]));
        if text::same_chars(es[i].0.as_slice(), key) {
            return true;
        }
        i = i + 1;
    }
    false
}

fn is_explaining(line: &[char]) -> (r: bool)
    ensures
        r == explains(line@),
{
    let t = text::trimmed(line);
    let section = text::chars_of("# ──");
    t.len() > 0 && t[0] == '#' && !text::has_prefix(t, section.as_slice())
}

/// Appends the comments directly above line `i`.
fn push_comments_above(out: &mut Vec<Vec<char>>, ls: &Vec<Vec<char>>, i: usize)
    requires
        i <= ls@.len(),
    ensures
        text::char_views(final(out)@) == text::char_views(old(out)@) + comments_above(
            text::char_views(ls@),
            i as int,
        ),
    decreases i,
{
    let ghost all = text::char_views(ls@);
    if i > 0 {
        assert(all[i - 1] == ls@[i - 1]@);
    }
    if i > 0 && is_explaining(ls[i - 1].as_slice()) {
        push_comments_above(out, ls, i - 1);
        let ghost before = text::char_views(out@);
        out.push(slice_to_vec(ls[i - 1].as_slice()));
        assert(text::char_views(out@) =~= before.push(all[i - 1]));
    }
    assert(text::char_views(out@) =~= text::char_views(old(out)@) + comments_above(all, i as int));
}

/// The file with the keys added that it lacks.
pub fn migrate_text(source: &str) -> (r: String)
    ensures
        r@ == migrated(source@),
{
    let chars = text::chars_of(source);
    let es = read_entries(&text::lines_of(chars.as_slice()));
    let template = text::chars_of(DEFAULT_CONFIG);
    let ls = text::lines_of(template.as_slice());
    let ghost all = text::char_views(ls@);
    let ghost known = pair_views(es@);
    let mut added: Vec<Vec<char>> = Vec::new();
    let mut i: usize = 0;
    assert(text::char_views(added@) =~= lacking_lines(all, known, 0));
    while i < ls.len()
        invariant
            i <= ls@.len(),
            all == text::char_views(ls@),
            known == pair_views(es@),
            text::char_views(added@) == lacking_lines(all, known, i as int),
        decreases ls@.len() - i,
    {
        assert(all[i as int] == ls@[i as int]@);
        if let Some(e) = read_entry(ls[i].as_slice()) {
            if !knows(&es, e.0.as_slice()) {
                push_comments_above(&mut added, &ls, i);
                let ghost before = text::char_views(added@);
                added.push(slice_to_vec(ls[i].as_slice()));
                assert(text::char_views(added@) =~= before.push(all[i as int]));
                assert(text::char_views(added@) =~= lacking_lines(all, known, i + 1));
            }
        }
        i = i + 1;
    }
    if added.len() == 0 {
        return source.to_owned();
    }
    let mut r = text::string_of(text::trimmed_end(chars.as_slice()));
    r.append(ADDED_HEADER);
    r.append(write_lines(&added).as_str());
    r
}

/// What reading the configuration file came to.
pub enum Found {
    /// There is no file.
    Absent,
    /// There is a file, but it could not be read.
    Unreadable,
    /// The file, with what it says.
    Text(String),
}

/// The configuration in effect, and what to do with its file.
pub struct Loaded {
    pub config: Config,
    /// The text to store, where the file has to change.
    pub store: Option<String>,
}

/// The text that is in effect for a file. A blank file may be one that is being
/// written, so it counts as the default.
pub open spec fn effective_text(found: Found) -> Seq<char> {
    match found {
        Found::Text(s) => if text::trim(s@).len() > 0 {
            migrated(s@)
        } else {
            DEFAULT_CONFIG@
        },
        _ => DEFAULT_CONFIG@,
    }
}

/// The text that has to be stored: the default where there is no file, the migrated
/// file where it lacked a key. A blank file and one that could not be read are left
/// alone.
pub open spec fn text_to_store(found: Found) -> Option<Seq<char>> {
    match found {
        Found::Absent => Some(DEFAULT_CONFIG@),
        Found::Unreadable => None,
        Found::Text(s) => if text::trim(s@).len() > 0 && migrated(s@) != s@ {
            Some(migrated(s@))
        } else {
            None
        },
    }
}

/// The view of an optional string.
pub open spec fn opt_view(s: Option<String>) -> Option<Seq<char>> {
    match s {
        Some(t) => Some(t@),
        None => None,
    }
}

impl Config {
    /// The configuration for the file that was, or was not, found.
    pub fn load_or_create(found: Found) -> (r: Loaded)
        ensures
            r.config.raw_lines() == text::lines(effective_text(found)),
            r.config.settings() == settings_of(entries(text::lines(effective_text(found)))),
            opt_view(r.store) == text_to_store(found),
    {
        match found {
            Found::Text(s) => {
                let chars = text::chars_of(s.as_str());
                if text::trimmed(chars.as_slice()).len() > 0 {
                    let m = migrate_text(s.as_str());
                    let config = Config::from_text(m.as_str());
                    let store = if text::same(m.as_str(), s.as_str()) {
                        None
                    } else {
                        Some(m)
                    };
                    Loaded { config, store }
                } else {
                    Loaded { config: Config::from_text(DEFAULT_CONFIG), store: None }
                }
            },
            Found::Unreadable => Loaded { config: Config::from_text(DEFAULT_CONFIG), store: None },
            Found::Absent => Loaded {
                config: Config::from_text(DEFAULT_CONFIG),
                store: Some(DEFAULT_CONFIG.to_owned()),
            },
        }
    }
}

/// What to say where the text could not be stored: of a new file each time, of one that
/// was migrated only where that was not said before.
pub open spec fn failure_said(existed: bool, warned: bool, error: Seq<char>) -> Option<Seq<char>> {
    if !existed {
        Some("warn: 无法写入配置文件: "@ + error)
    } else if !warned {
        Some("warn: 无法写入迁移后的配置: "@ + error)
    } else {
        None
    }
}

/// What to say where the text could not be stored, given whether there was a file and
/// whether one that was migrated has been complained of; and whether one has been then.
pub fn store_failure(existed: bool, warned: bool, error: &str) -> (r: (Option<String>, bool))
    ensures
        opt_view(r.0) == failure_said(existed, warned, error@),
        r.1 == (warned || existed),
{
    if !existed {
        let mut s = "warn: 无法写入配置文件: ".to_owned();
        s.append(error);
        (Some(s), warned)
    } else if !warned {
        let mut s = "warn: 无法写入迁移后的配置: ".to_owned();
        s.append(error);
        (Some(s), true)
    } else {
        (None, true)
    }
}

/// Whether a migrated file has been complained of after the first `n` failures, each of
/// which says whether there was a file.
pub open spec fn warned_after(failures: Seq<bool>, n: nat) -> bool
    decreases n,
{
    n > 0 && (warned_after(failures, (n - 1) as nat) || failures[n - 1])
}

/// However often migrated files cannot be stored, that is said once: of two such failures
/// the later one is passed over.
pub proof fn law_a_failed_migration_is_told_once(
    failures: Seq<bool>,
    i: nat,
    j: nat,
    error: Seq<char>,
)
    requires
        i < j < failures.len(),
        failures[i as int],
        failures[j as int],
    ensures
        failure_said(failures[j as int], warned_after(failures, j), error) is None,
{
    assert(warned_after(failures, i + 1));
    lemma_warned_stays(failures, i + 1, j);
}

proof fn lemma_warned_stays(failures: Seq<bool>, m: nat, n: nat)
    requires
        m <= n <= failures.len(),
        warned_after(failures, m),
    ensures
        warned_after(failures, n),
    decreases n - m,
{
    if m < n {
        lemma_warned_stays(failures, m, (n - 1) as nat);
    }
}

// ───────────────────────── where the files are ─────────────────────────

/// A path on Windows and a name below it: a separator goes between them unless the
/// path is empty, ends in one, or is a drive alone.
pub open spec fn joined(base: Seq<char>, name: Seq<char>) -> Seq<char> {
    if base.len() == 0 || base.last() == '\\' || base.last() == '/' || is_drive(base) {
        base + name
    } else {
        base.push('\\') + name
    }
}

/// A drive letter and a colon.
pub open spec fn is_drive(base: Seq<char>) -> bool {
    base.len() == 2 && base[1] == ':' && 'a' <= text::lower_char(base[0]) <= 'z'
}

fn join_path(base: &str, name: &str) -> (r: String)
    ensures
        r@ == joined(base@, name@),
{
    let mut r = base.to_owned();
    let c = text::chars_of(base);
    let n: usize = c.len();
    let drive = n == 2 && c[1] == ':' && (('a' <= c[0] && c[0] <= 'z') || ('A' <= c[0] && c[0]
        <= 'Z'));
    if !(n == 0 || c[n - 1] == '\\' || c[n - 1] == '/' || drive) {
        r.push('\\');
    }
    r.append(name);
    r
}

/// The directory of the program's files, given the value of `LOCALAPPDATA`.
pub open spec fn app_dir_of(local_app_data: Option<Seq<char>>) -> Seq<char> {
    match local_app_data {
        Some(base) => joined(base, "stayawake"@),
        None => joined("."@, "stayawake"@),
    }
}

pub fn app_dir(local_app_data: Option<String>) -> (r: String)
    ensures
        r@ == app_dir_of(opt_view(local_app_data)),
{
    match local_app_data {
        Some(base) => join_path(base.as_str(), "stayawake"),
        None => join_path(".", "stayawake"),
    }
}

/// The configuration file in the program's directory.
pub fn config_path(dir: &str) -> (r: String)
    ensures
        r@ == joined(dir@, "config.ini"@),
{
    join_path(dir, "config.ini")
}

/// The log file in the program's directory.
pub fn log_path(dir: &str) -> (r: String)
    ensures
        r@ == joined(dir@, "stayawake.log"@),
{
    join_path(dir, "stayawake.log")
}

/// The directory of the hint files.
pub fn hints_dir(dir: &str) -> (r: String)
    ensures
        r@ == joined(dir@, "hints"@),
{
    join_path(dir, "hints")
}

} // verus!
