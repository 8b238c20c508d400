//! What the default file sets, and that adding its keys to an older file changes no
//! setting.
use vstd::prelude::*;

use crate::config;
use crate::config::Settings;
use crate::config_laws;
use crate::big;
use crate::double;
use crate::double::{Double, Number};
use crate::fixed;
use crate::text;

verus! {

// ───────────────────────── the shape of a file ─────────────────────────

/// Whether a line may begin with the character and set nothing: a comment or a blank line.
spec fn opens_quietly(c: char) -> bool {
    c == '#' || c == '\n'
}

/// Whether a character that follows a line feed opens a quiet line.
spec fn quiet_at(s: Seq<char>, k: int) -> bool {
    s[k - 1] == '\n' ==> opens_quietly(s[k])
}

/// Whether all lines from `i` to `j` are comments or blank.
spec fn quiet(s: Seq<char>, i: int, j: int) -> bool {
    i < j ==> {
        &&& opens_quietly(s[i])
        &&& s[j - 1] == '\n'
        &&& forall|k: int| i < k < j ==> #[trigger] quiet_at(s, k)
    }
}

/// Whether the format gives the character no meaning in a key or a value.
spec fn is_plain(c: char) -> bool {
    c != '=' && c != '#' && c != ';' && c != '\n'
}

/// Whether a text can be a key or a value as it stands.
spec fn is_word(s: Seq<char>) -> bool {
    &&& s.len() > 0
    &&& !text::is_white(s.first())
    &&& !text::is_white(s.last())
    &&& forall|k: int| 0 <= k < s.len() ==> is_plain(#[trigger] s[k])
}

/// Whether the text from `i` on has quiet lines up to `at`, and then a line up to `end`
/// that sets the key.
spec fn says(s: Seq<char>, i: int, at: int, end: int, key: Seq<char>) -> bool {
    let n = at + key.len();
    &&& quiet(s, i, at)
    &&& n + 3 < end
    &&& forall|k: int| 0 <= k < key.len() ==> s[at + k] == #[trigger] key[k]
    &&& is_word(key)
    &&& s[n] == ' '
    &&& s[n + 1] == '='
    &&& s[n + 2] == ' '
    &&& is_word(s.subrange(n + 3, end))
    &&& s[end] == '\n'
}

/// The default file, setting by setting.
proof fn lemma_default_text()
    ensures
        config::DEFAULT_CONFIG@.len() == 2142,
        says(config::DEFAULT_CONFIG@, 0, 61, 84, "poll_interval_secs"@),
        says(config::DEFAULT_CONFIG@, 85, 203, 221, "fast_poll_secs"@),
        says(config::DEFAULT_CONFIG@, 222, 258, 273, "grace_secs"@),
        says(config::DEFAULT_CONFIG@, 274, 369, 387, "policy_ac"@),
        says(config::DEFAULT_CONFIG@, 388, 470, 489, "policy_dc"@),
        says(config::DEFAULT_CONFIG@, 490, 533, 558, "never_wake_display"@),
        says(config::DEFAULT_CONFIG@, 559, 643, 667, "sleep_on_release"@),
        says(config::DEFAULT_CONFIG@, 668, 698, 718, "audio_enabled"@),
        says(config::DEFAULT_CONFIG@, 719, 746, 775, "audio_peak_threshold"@),
        says(config::DEFAULT_CONFIG@, 776, 857, 877, "audio_hold_secs"@),
        says(config::DEFAULT_CONFIG@, 878, 913, 1008, "audio_ignore"@),
        says(config::DEFAULT_CONFIG@, 1009, 1041, 1059, "net_enabled"@),
        says(config::DEFAULT_CONFIG@, 1060, 1131, 1156, "net_threshold_kbps"@),
        says(config::DEFAULT_CONFIG@, 1157, 1184, 1212, "net_min_consecutive_tick"@),
        says(config::DEFAULT_CONFIG@, 1213, 1248, 1267, "proc_enabled"@),
        says(config::DEFAULT_CONFIG@, 1268, 1300, 1328, "proc_cpu_percent_1core"@),
        says(config::DEFAULT_CONFIG@, 1329, 1329, 1464, "proc_busy_when_cpu"@),
        says(config::DEFAULT_CONFIG@, 1465, 1632, 1649, "dl_enabled"@),
        says(config::DEFAULT_CONFIG@, 1650, 1765, 1816, "dl_processes"@),
        says(config::DEFAULT_CONFIG@, 1817, 1846, 1861, "dl_io_kbps"@),
        says(config::DEFAULT_CONFIG@, 1862, 1947, 1963, "dl_tcp_conns"@),
        says(config::DEFAULT_CONFIG@, 1964, 2103, 2122, "hint_enabled"@),
        says(config::DEFAULT_CONFIG@, 2123, 2123, 2141, "hint_ttl_secs"@),
        config::DEFAULT_CONFIG@.subrange(82, 84) == "15"@,
        config::DEFAULT_CONFIG@.subrange(220, 221) == "2"@,
        config::DEFAULT_CONFIG@.subrange(271, 273) == "90"@,
        config::DEFAULT_CONFIG@.subrange(381, 387) == "system"@,
        config::DEFAULT_CONFIG@.subrange(482, 489) == "display"@,
        config::DEFAULT_CONFIG@.subrange(554, 558) == "true"@,
        config::DEFAULT_CONFIG@.subrange(662, 667) == "false"@,
        config::DEFAULT_CONFIG@.subrange(714, 718) == "true"@,
        config::DEFAULT_CONFIG@.subrange(769, 775) == "0.0001"@,
        config::DEFAULT_CONFIG@.subrange(875, 877) == "20"@,
        config::DEFAULT_CONFIG@.subrange(1055, 1059) == "true"@,
        config::DEFAULT_CONFIG@.subrange(1152, 1156) == "1024"@,
        config::DEFAULT_CONFIG@.subrange(1211, 1212) == "2"@,
        config::DEFAULT_CONFIG@.subrange(1263, 1267) == "true"@,
        config::DEFAULT_CONFIG@.subrange(1325, 1328) == "5.0"@,
        config::DEFAULT_CONFIG@.subrange(1645, 1649) == "true"@,
        config::DEFAULT_CONFIG@.subrange(1859, 1861) == "50"@,
        config::DEFAULT_CONFIG@.subrange(1962, 1963) == "4"@,
        config::DEFAULT_CONFIG@.subrange(2118, 2122) == "true"@,
        config::DEFAULT_CONFIG@.subrange(2139, 2141) == "60"@,
{
    // the text has to stand here as a literal
    reveal_strlit(r#"# stayawake 配置
# 改完用托盘菜单「重新加载配置」生效, 不必重启

# 轮询间隔(秒): 完整检测的周期
poll_interval_secs = 15
# 快速探测间隔(秒): 空闲时用廉价手段(设备音频峰值/网速/提示文件)探一次,
# 命中就立刻做完整检测。这让"开始播放音乐"到"状态更新"的延迟从 15s 降到 2s,
# 而额外成本只有约 4ms/次。设为 0 关闭快速通道。
fast_poll_secs = 2
# 活动停止后继续保持的宽限期(秒), 防止音乐换歌/编译间隙来回抖动
grace_secs = 90

# 供电策略: system = 只阻止睡眠(允许熄屏) / display = 同时保持屏幕常亮
# 插电时 system-required 可无限阻塞睡眠, 所以让屏幕正常熄掉最省电
policy_ac = system
# 电池下 system-required 在睡眠超时后约 5 分钟会被系统强制清除,
# 只有 display-required 不受此限 -> 电池默认保屏幕
policy_dc = display

# true = 屏幕已经熄了就不主动点亮(降级为仅防睡)。半夜下载启动不会闪亮屏
never_wake_display = true

# true = 宽限期结束后主动调 SetSuspendState 让机器立刻睡
# 默认 false: 交给 Windows 按正常流程决定, 不替用户按睡眠键
sleep_on_release = false


# ── 音频播放 (WASAPI 逐会话检测) ──
audio_enabled = true
# 会话峰值阈值。数字静音(全 0 采样)不算在放声
audio_peak_threshold = 0.0001
# 峰值保持窗口(秒)。GetPeakValue 是瞬时值, 乐曲安静段落/歌曲间隙会读到 0,
# 直接判定会让状态来回抖动。在这个窗口内响过就仍算它在播放。
audio_hold_secs = 20
# 忽略这些进程的音频。壁纸软件/常驻音效会一直输出, 不该阻止休眠
audio_ignore = wallpaper64.exe, wallpaper32.exe, wallpaperservice32.exe, wallpaperservice64.exe


# ── 全局网速 (GetIfTable2 差分) ──
net_enabled = true
# 阈值(KB/s)。1024 = 1 MB/s: 只有实打实的大流量传输才算"忙",
# 浏览网页、遥测、后台同步这类零碎流量不会阻止休眠
net_threshold_kbps = 1024
# 连续几个 tick 超阈值才算忙, 滤掉瞬时突发
net_min_consecutive_tick = 2


# ── CPU 密集型进程 (高 CPU = 真在干活) ──
proc_enabled = true
# 单核百分比: 单线程打满一核 = 100%, 与核心数无关
proc_cpu_percent_1core = 5.0
proc_busy_when_cpu = cargo.exe, rustc.exe, link.exe, cl.exe, msbuild.exe, node.exe, python.exe, ffmpeg.exe, 7z.exe, WinRAR.exe, git.exe


# ── 下载器 (I/O 密集但 CPU≈0, 需专用规则) ──
# 判据: io >= dl_io_kbps, 或者 (established TCP >= dl_tcp_conns 且 io > 0)
# 注意: I/O 阈值只对此名单生效。Electron 类应用的进程间共享内存流量会到 GB/s, 全局启用必假阳性
dl_enabled = true
# 不要往这里加 BT 客户端(qBittorrent/Transmission 等): 做种时会长期持有几十条
# established 连接而吞吐为零, 虽然有 "io>0" 约束兜着, 但 BT 的心跳流量仍可能持续触发
dl_processes = IDMan.exe, idmBroker.exe, aria2c.exe
# 进程 Read+Write 传输速率阈值(KB/s)
dl_io_kbps = 50
# established TCP 连接数阈值。IDM 默认每文件开 8 条; 空闲时 0-2 条
# 配合 "io>0" 使用, 抓"服务器限速、速度很低但仍在传输"
dl_tcp_conns = 4


# ── 外部提示文件 ──
# 任何程序在 %LOCALAPPDATA%\stayawake\hints\ 下 touch 一个 .hint 文件即可保持唤醒,
# 删除即释放; 文件 mtime 超过 hint_ttl_secs 自动失效(写方崩溃不会把机器永久卡醒)
hint_enabled = true
hint_ttl_secs = 60
"#);
    reveal_strlit("poll_interval_secs");
    reveal_strlit("fast_poll_secs");
    reveal_strlit("grace_secs");
    reveal_strlit("policy_ac");
    reveal_strlit("policy_dc");
    reveal_strlit("never_wake_display");
    reveal_strlit("sleep_on_release");
    reveal_strlit("audio_enabled");
    reveal_strlit("audio_peak_threshold");
    reveal_strlit("audio_hold_secs");
    reveal_strlit("audio_ignore");
    reveal_strlit("net_enabled");
    reveal_strlit("net_threshold_kbps");
    reveal_strlit("net_min_consecutive_tick");
    reveal_strlit("proc_enabled");
    reveal_strlit("proc_cpu_percent_1core");
    reveal_strlit("proc_busy_when_cpu");
    reveal_strlit("dl_enabled");
    reveal_strlit("dl_processes");
    reveal_strlit("dl_io_kbps");
    reveal_strlit("dl_tcp_conns");
    reveal_strlit("hint_enabled");
    reveal_strlit("hint_ttl_secs");
    reveal_strlit("0.0001");
    reveal_strlit("1024");
    reveal_strlit("15");
    reveal_strlit("2");
    reveal_strlit("20");
    reveal_strlit("4");
    reveal_strlit("5.0");
    reveal_strlit("50");
    reveal_strlit("60");
    reveal_strlit("90");
    reveal_strlit("display");
    reveal_strlit("false");
    reveal_strlit("system");
    reveal_strlit("true");
}

// ───────────────────────── its entries ─────────────────────────

/// A line that opens with a comment sign, or is blank, sets nothing.
proof fn lemma_quiet_line(l: Seq<char>)
    requires
        l.len() == 0 || l[0] == '#',
    ensures
        config::entry_of(l) is None,
{
    if l.len() == 0 {
        assert(text::trim(l) == l);
    } else {
        text::lemma_trim_start_unique(l, 0);
        assert(l.skip(0) == l);
        text::lemma_trim_end(l);
        if text::trim(l).len() > 0 {
            assert(text::trim(l)[0] == l[0]);
        }
    }
}

/// A line that is ended, in front of the rest of a text.
proof fn lemma_first_line(s: Seq<char>, i: int, m: int)
    requires
        0 <= i <= m < s.len(),
        config_laws::one_line(s.subrange(i, m)),
        s[m] == '\n',
    ensures
        config::entries(text::lines(s.skip(i))) == (match config::entry_of(s.subrange(i, m)) {
            Some(e) => seq![e] + config::entries(text::lines(s.skip(m + 1))),
            None => config::entries(text::lines(s.skip(m + 1))),
        }),
{
    let l = s.subrange(i, m);
    let rest = s.skip(m + 1);
    let none = Seq::<(Seq<char>, Seq<char>)>::empty();
    assert(s.skip(i) == l.push('\n') + rest);
    config_laws::lemma_lines_append(l.push('\n'), rest);
    config_laws::lemma_ended_line(l);
    config_laws::lemma_entries_append(seq![text::strip_cr(l)], text::lines(rest));
    config_laws::lemma_entries_of_one(text::strip_cr(l));
    config_laws::lemma_strip_cr_is_invisible(l);
    assert(none + config::entries(text::lines(rest)) == config::entries(text::lines(rest)));
}

/// Quiet lines set nothing.
proof fn lemma_quiet(s: Seq<char>, i: int, j: int)
    requires
        0 <= i <= j <= s.len(),
        quiet(s, i, j),
    ensures
        config::entries(text::lines(s.skip(i))) == config::entries(text::lines(s.skip(j))),
    decreases j - i,
{
    if i < j {
        let t = s.skip(i);
        text::lemma_find(t, '\n');
        let m = i + text::find(t, '\n');
        assert(m < j) by {
            if m >= j {
                assert(t[j - 1 - i] != '\n');
            }
        }
        assert(t[m - i] == '\n');
        let l = s.subrange(i, m);
        assert forall|k: int| 0 <= k < l.len() implies #[trigger] l[k] != '\n' by {
            assert(l[k] == t[k]);
        }
        assert(l.len() > 0 ==> l[0] == s[i] && t[0] == s[i]);
        lemma_quiet_line(l);
        lemma_first_line(s, i, m);
        if m + 1 < j {
            assert(quiet_at(s, m + 1));
        }
        lemma_quiet(s, m + 1, j);
    }
}

proof fn lemma_word(s: Seq<char>)
    requires
        is_word(s),
    ensures
        config_laws::writable_key(s),
        config_laws::writable_value(s),
        config_laws::one_line(s),
{
    text::lemma_trim_start_unique(s, 0);
    assert(s.skip(0) == s);
    text::lemma_trim_end_unique(s, s.len() as int);
    assert(s.take(s.len() as int) == s);
    assert(is_plain(s[0]));
}

/// The setting that comes next is the next entry.
proof fn lemma_next(
    s: Seq<char>,
    es: Seq<(Seq<char>, Seq<char>)>,
    n: int,
    i: int,
    at: int,
    end: int,
    key: Seq<char>,
)
    requires
        0 <= i <= at,
        end < s.len(),
        says(s, i, at, end, key),
        0 <= n <= es.len(),
        es.skip(n) == config::entries(text::lines(s.skip(i))),
    ensures
        n < es.len(),
        es[n] == (key, s.subrange(at + key.len() + 3, end)),
        es.skip(n + 1) == config::entries(text::lines(s.skip(end + 1))),
{
    let value = s.subrange(at + key.len() + 3, end);
    let l = s.subrange(at, end);
    let rest = config::entries(text::lines(s.skip(end + 1)));
    lemma_quiet(s, i, at);
    lemma_word(key);
    lemma_word(value);
    let none = Seq::<char>::empty();
    assert(l == config::setting_line(key, value) + none);
    config_laws::lemma_setting_line(key, value, none);
    assert(config_laws::one_line(l));
    lemma_first_line(s, at, end);
    assert(es.skip(n) == seq![(key, value)] + rest);
    assert(es[n] == es.skip(n)[0]);
    assert(es.skip(n + 1) == es.skip(n).skip(1));
    assert(es.skip(n).skip(1) == rest);
}

/// The entries of the default file.
pub open spec fn default_entries() -> Seq<(Seq<char>, Seq<char>)> {
    config::entries(text::lines(config::DEFAULT_CONFIG@))
}

proof fn lemma_default_entries()
    ensures
        ({
            let es = default_entries();
            &&& es.len() == 23
            &&& es[0] == ("poll_interval_secs"@, "15"@)
            &&& es[1] == ("fast_poll_secs"@, "2"@)
            &&& es[2] == ("grace_secs"@, "90"@)
            &&& es[3] == ("policy_ac"@, "system"@)
            &&& es[4] == ("policy_dc"@, "display"@)
            &&& es[5] == ("never_wake_display"@, "true"@)
            &&& es[6] == ("sleep_on_release"@, "false"@)
            &&& es[7] == ("audio_enabled"@, "true"@)
            &&& es[8] == ("audio_peak_threshold"@, "0.0001"@)
            &&& es[9] == ("audio_hold_secs"@, "20"@)
            &&& es[10].0 == "audio_ignore"@
            &&& es[11] == ("net_enabled"@, "true"@)
            &&& es[12] == ("net_threshold_kbps"@, "1024"@)
            &&& es[13] == ("net_min_consecutive_tick"@, "2"@)
            &&& es[14] == ("proc_enabled"@, "true"@)
            &&& es[15] == ("proc_cpu_percent_1core"@, "5.0"@)
            &&& es[16].0 == "proc_busy_when_cpu"@
            &&& es[17] == ("dl_enabled"@, "true"@)
            &&& es[18].0 == "dl_processes"@
            &&& es[19] == ("dl_io_kbps"@, "50"@)
            &&& es[20] == ("dl_tcp_conns"@, "4"@)
            &&& es[21] == ("hint_enabled"@, "true"@)
            &&& es[22] == ("hint_ttl_secs"@, "60"@)
        }),
{
    let d = config::DEFAULT_CONFIG@;
    let es = default_entries();
    lemma_default_text();
    config_laws::lemma_keys_differ();
    assert(d.skip(0) == d);
    assert(es.skip(0) == es);
    lemma_next(d, es, 0, 0, 61, 84, "poll_interval_secs"@);
    lemma_next(d, es, 1, 85, 203, 221, "fast_poll_secs"@);
    lemma_next(d, es, 2, 222, 258, 273, "grace_secs"@);
    lemma_next(d, es, 3, 274, 369, 387, "policy_ac"@);
    lemma_next(d, es, 4, 388, 470, 489, "policy_dc"@);
    lemma_next(d, es, 5, 490, 533, 558, "never_wake_display"@);
    lemma_next(d, es, 6, 559, 643, 667, "sleep_on_release"@);
    lemma_next(d, es, 7, 668, 698, 718, "audio_enabled"@);
    lemma_next(d, es, 8, 719, 746, 775, "audio_peak_threshold"@);
    lemma_next(d, es, 9, 776, 857, 877, "audio_hold_secs"@);
    lemma_next(d, es, 10, 878, 913, 1008, "audio_ignore"@);
    lemma_next(d, es, 11, 1009, 1041, 1059, "net_enabled"@);
    lemma_next(d, es, 12, 1060, 1131, 1156, "net_threshold_kbps"@);
    lemma_next(d, es, 13, 1157, 1184, 1212, "net_min_consecutive_tick"@);
    lemma_next(d, es, 14, 1213, 1248, 1267, "proc_enabled"@);
    lemma_next(d, es, 15, 1268, 1300, 1328, "proc_cpu_percent_1core"@);
    lemma_next(d, es, 16, 1329, 1329, 1464, "proc_busy_when_cpu"@);
    lemma_next(d, es, 17, 1465, 1632, 1649, "dl_enabled"@);
    lemma_next(d, es, 18, 1650, 1765, 1816, "dl_processes"@);
    lemma_next(d, es, 19, 1817, 1846, 1861, "dl_io_kbps"@);
    lemma_next(d, es, 20, 1862, 1947, 1963, "dl_tcp_conns"@);
    lemma_next(d, es, 21, 1964, 2103, 2122, "hint_enabled"@);
    lemma_next(d, es, 22, 2123, 2123, 2141, "hint_ttl_secs"@);
    assert(d.skip(d.len() as int) == Seq::<char>::empty());
    assert(es.skip(23).len() == 0);
}

proof fn lemma_lookup_at(es: Seq<(Seq<char>, Seq<char>)>, n: int, key: Seq<char>)
    requires
        0 <= n < es.len(),
        es[n].0 == key,
        forall|j: int| 0 <= j < n ==> (#[trigger] es[j]).0 != key,
    ensures
        config::lookup(es, key) == es[n].1,
{
    config::lemma_lookup_skips(es, key, n);
    assert(es.skip(n).first() == es[n]);
}

proof fn lemma_default_lookups()
    ensures
        ({
            let es = default_entries();
            &&& config::lookup(es, "poll_interval_secs"@) == "15"@
            &&& config::lookup(es, "fast_poll_secs"@) == "2"@
            &&& config::lookup(es, "grace_secs"@) == "90"@
            &&& config::lookup(es, "policy_ac"@) == "system"@
            &&& config::lookup(es, "policy_dc"@) == "display"@
            &&& config::lookup(es, "never_wake_display"@) == "true"@
            &&& config::lookup(es, "sleep_on_release"@) == "false"@
            &&& config::lookup(es, "audio_enabled"@) == "true"@
            &&& config::lookup(es, "audio_peak_threshold"@) == "0.0001"@
            &&& config::lookup(es, "audio_hold_secs"@) == "20"@
            &&& config::lookup(es, "net_enabled"@) == "true"@
            &&& config::lookup(es, "net_threshold_kbps"@) == "1024"@
            &&& config::lookup(es, "net_min_consecutive_tick"@) == "2"@
            &&& config::lookup(es, "proc_enabled"@) == "true"@
            &&& config::lookup(es, "proc_cpu_percent_1core"@) == "5.0"@
            &&& config::lookup(es, "dl_enabled"@) == "true"@
            &&& config::lookup(es, "dl_io_kbps"@) == "50"@
            &&& config::lookup(es, "dl_tcp_conns"@) == "4"@
            &&& config::lookup(es, "hint_enabled"@) == "true"@
            &&& config::lookup(es, "hint_ttl_secs"@) == "60"@
        }),
{
    let es = default_entries();
    lemma_default_entries();
    config_laws::lemma_keys_differ();
    lemma_lookup_at(es, 0, "poll_interval_secs"@);
    lemma_lookup_at(es, 1, "fast_poll_secs"@);
    lemma_lookup_at(es, 2, "grace_secs"@);
    lemma_lookup_at(es, 3, "policy_ac"@);
    lemma_lookup_at(es, 4, "policy_dc"@);
    lemma_lookup_at(es, 5, "never_wake_display"@);
    lemma_lookup_at(es, 6, "sleep_on_release"@);
    lemma_lookup_at(es, 7, "audio_enabled"@);
    lemma_lookup_at(es, 8, "audio_peak_threshold"@);
    lemma_lookup_at(es, 9, "audio_hold_secs"@);
    lemma_lookup_at(es, 11, "net_enabled"@);
    lemma_lookup_at(es, 12, "net_threshold_kbps"@);
    lemma_lookup_at(es, 13, "net_min_consecutive_tick"@);
    lemma_lookup_at(es, 14, "proc_enabled"@);
    lemma_lookup_at(es, 15, "proc_cpu_percent_1core"@);
    lemma_lookup_at(es, 17, "dl_enabled"@);
    lemma_lookup_at(es, 19, "dl_io_kbps"@);
    lemma_lookup_at(es, 20, "dl_tcp_conns"@);
    lemma_lookup_at(es, 21, "hint_enabled"@);
    lemma_lookup_at(es, 22, "hint_ttl_secs"@);
}

// ───────────────────────── its settings ─────────────────────────

/// Whether two settings agree in everything but the lists of names.
pub open spec fn same_but_lists(a: Settings, b: Settings) -> bool {
    &&& a.poll_interval_secs == b.poll_interval_secs
    &&& a.fast_poll_secs == b.fast_poll_secs
    &&& a.grace_secs == b.grace_secs
    &&& a.policy_ac == b.policy_ac
    &&& a.policy_dc == b.policy_dc
    &&& a.never_wake_display == b.never_wake_display
    &&& a.sleep_on_release == b.sleep_on_release
    &&& a.audio_enabled == b.audio_enabled
    &&& a.audio_peak_threshold == b.audio_peak_threshold
    &&& a.audio_hold_secs == b.audio_hold_secs
    &&& a.net_enabled == b.net_enabled
    &&& a.net_threshold_kbps == b.net_threshold_kbps
    &&& a.net_min_consecutive_tick == b.net_min_consecutive_tick
    &&& a.proc_enabled == b.proc_enabled
    &&& a.proc_cpu_percent_1core == b.proc_cpu_percent_1core
    &&& a.dl_enabled == b.dl_enabled
    &&& a.dl_io_kbps == b.dl_io_kbps
    &&& a.dl_tcp_conns == b.dl_tcp_conns
    &&& a.hint_enabled == b.hint_enabled
    &&& a.hint_ttl_secs == b.hint_ttl_secs
}

/// The numbers of the file are read as what they look like.
proof fn lemma_default_wholes()
    ensures
        text::parse_u64("2"@) == Some(2u64),
        text::parse_u64("4"@) == Some(4u64),
        text::parse_u64("15"@) == Some(15u64),
        text::parse_u64("20"@) == Some(20u64),
        text::parse_u64("50"@) == Some(50u64),
        text::parse_u64("60"@) == Some(60u64),
        text::parse_u64("90"@) == Some(90u64),
        text::parse_u64("1024"@) == Some(1024u64),
{
    reveal_strlit("2");
    text::law_u64_round_trip(2);
    reveal_strlit("4");
    text::law_u64_round_trip(4);
    reveal_strlit("15");
    text::law_u64_round_trip(15);
    reveal_strlit("20");
    text::law_u64_round_trip(20);
    reveal_strlit("50");
    text::law_u64_round_trip(50);
    reveal_strlit("60");
    text::law_u64_round_trip(60);
    reveal_strlit("90");
    text::law_u64_round_trip(90);
    reveal_strlit("1024");
    text::law_u64_round_trip(1024);
    reveal_with_fuel(text::dec, 5);
    assert("2"@ == text::dec(2));
    assert("4"@ == text::dec(4));
    assert("15"@ == text::dec(15));
    assert("20"@ == text::dec(20));
    assert("50"@ == text::dec(50));
    assert("60"@ == text::dec(60));
    assert("90"@ == text::dec(90));
    assert("1024"@ == text::dec(1024));
}

/// The words of the file are in lower case, and none is taken for another.
proof fn lemma_default_words()
    ensures
        text::lower("true"@) == "true"@,
        text::lower("false"@) == "false"@,
        text::lower("system"@) == "system"@,
        text::lower("display"@) == "display"@,
        text::lower(Seq::<char>::empty()) == Seq::<char>::empty(),
        "true"@.len() == 4,
        "false"@.len() == 5,
        "system"@.len() == 6,
        "display"@.len() == 7,
        "1"@.len() == 1,
        "0"@.len() == 1,
        "yes"@.len() == 3,
        "no"@.len() == 2,
        "on"@.len() == 2,
        "off"@.len() == 3,
        "inf"@.len() == 3,
        "infinity"@.len() == 8,
        "nan"@.len() == 3,
{
    reveal_strlit("true");
    reveal_strlit("false");
    reveal_strlit("system");
    reveal_strlit("display");
    reveal_strlit("1");
    reveal_strlit("0");
    reveal_strlit("yes");
    reveal_strlit("no");
    reveal_strlit("on");
    reveal_strlit("off");
    reveal_strlit("inf");
    reveal_strlit("infinity");
    reveal_strlit("nan");
    assert(text::lower("true"@) == "true"@);
    assert(text::lower("false"@) == "false"@);
    assert(text::lower("system"@) == "system"@);
    assert(text::lower("display"@) == "display"@);
    assert(text::lower(Seq::<char>::empty()) == Seq::<char>::empty());
}

/// A fraction without a sign or an exponent.
proof fn lemma_fraction(s: Seq<char>, whole: Seq<char>, fraction: Seq<char>)
    requires
        s == whole + seq!['.'] + fraction,
        whole.len() > 0,
        text::all_digits(whole),
        text::all_digits(fraction),
    ensures
        fixed::parse_number(s) == Some(
            (Number::Signed {
                negative: false,
                size: fixed::powered(text::value(whole + fraction), -fraction.len()),
            }),
        ),
{
    lemma_default_words();
    assert(s[0] == whole[0]);
    assert(text::is_digit(whole[0]));
    assert(fixed::unsigned(s) == s);
    let n = whole.len() as int;
    let low = text::lower(s);
    assert forall|j: int| 0 <= j < s.len() implies #[trigger] low[j] == s[j] && s[j] != 'e' by {
        if j < n {
            assert(s[j] == whole[j]);
            assert(text::is_digit(whole[j]));
        } else if j > n {
            assert(s[j] == fraction[j - n - 1]);
            assert(text::is_digit(fraction[j - n - 1]));
        }
    }
    assert(low == s);
    text::lemma_find_unique(low, 'e', s.len() as int);
    assert(fixed::mantissa(s) == s);
    assert forall|j: int| 0 <= j < n implies #[trigger] s[j] != '.' by {
        assert(s[j] == whole[j]);
        assert(text::is_digit(whole[j]));
    }
    assert(s[n] == '.');
    text::lemma_find_unique(s, '.', n);
    assert(fixed::whole_digits(s) == whole);
    assert(fixed::fraction_digits(s) == fraction);
    reveal_strlit("inf");
    reveal_strlit("infinity");
    reveal_strlit("nan");
    assert("inf"@[0] == 'i' && "infinity"@[0] == 'i' && "nan"@[0] == 'n');
    assert(low[0] == whole[0]);
}

/// The fractions of the file are read as what they look like.
proof fn lemma_default_fractions()
    ensures
        fixed::parse_number("0.0001"@) == Some(
            (Number::Signed { negative: false, size: double::rounded(1, 10_000) }),
        ),
        fixed::parse_number("5.0"@) == Some(
            (Number::Signed { negative: false, size: double::rounded(5, 1) }),
        ),
{
    reveal_strlit("0.0001");
    reveal_strlit("5.0");
    reveal_with_fuel(text::value, 6);
    reveal_with_fuel(big::ten, 5);
    let (a, b) = (seq!['0'], seq!['0', '0', '0', '1']);
    assert("0.0001"@ == a + seq!['.'] + b);
    lemma_fraction("0.0001"@, a, b);
    let d = a + b;
    assert(d.drop_last() == seq!['0', '0', '0', '0']);
    assert(d.drop_last().drop_last() == seq!['0', '0', '0']);
    assert(d.drop_last().drop_last().drop_last() == seq!['0', '0']);
    assert(d.drop_last().drop_last().drop_last().drop_last() == seq!['0']);
    assert(seq!['0'].drop_last() == Seq::<char>::empty());
    assert(text::value(d) == 1);
    let (a, b) = (seq!['5'], seq!['0']);
    assert("5.0"@ == a + seq!['.'] + b);
    lemma_fraction("5.0"@, a, b);
    let d = a + b;
    assert(d.drop_last() == seq!['5']);
    assert(seq!['5'].drop_last() == Seq::<char>::empty());
    assert(text::value(d) == 50);
    double::lemma_scaled(5, 1, 10);
}

/// What the default file sets is what is built in for a file that sets nothing.
proof fn lemma_default_values()
    ensures
        ({
            let es = default_entries();
            &&& config::whole(config::lookup(es, "poll_interval_secs"@), 15) == 15
            &&& config::whole(config::lookup(es, "fast_poll_secs"@), 2) == 2
            &&& config::whole(config::lookup(es, "grace_secs"@), 90) == 90
            &&& config::policy(config::lookup(es, "policy_ac"@), "system"@) == "system"@
            &&& config::policy(config::lookup(es, "policy_dc"@), "display"@) == "display"@
            &&& config::switch(config::lookup(es, "never_wake_display"@), true) == true
            &&& config::switch(config::lookup(es, "sleep_on_release"@), false) == false
            &&& config::switch(config::lookup(es, "audio_enabled"@), true) == true
            &&& config::number(
                config::lookup(es, "audio_peak_threshold"@),
                double::rounded(1, 10_000),
            ) == (Number::Signed { negative: false, size: double::rounded(1, 10_000) })
            &&& config::whole(config::lookup(es, "audio_hold_secs"@), 20) == 20
            &&& config::switch(config::lookup(es, "net_enabled"@), true) == true
            &&& config::whole(config::lookup(es, "net_threshold_kbps"@), 1024) == 1024
            &&& config::whole(config::lookup(es, "net_min_consecutive_tick"@), 2) == 2
            &&& config::switch(config::lookup(es, "proc_enabled"@), true) == true
            &&& config::number(
                config::lookup(es, "proc_cpu_percent_1core"@),
                double::rounded(5, 1),
            ) == (Number::Signed { negative: false, size: double::rounded(5, 1) })
            &&& config::switch(config::lookup(es, "dl_enabled"@), true) == true
            &&& config::whole(config::lookup(es, "dl_io_kbps"@), 50) == 50
            &&& config::whole(config::lookup(es, "dl_tcp_conns"@), 4) == 4
            &&& config::switch(config::lookup(es, "hint_enabled"@), true) == true
            &&& config::whole(config::lookup(es, "hint_ttl_secs"@), 60) == 60
        }),
{
    lemma_default_lookups();
    lemma_default_wholes();
    lemma_default_words();
    lemma_default_fractions();
}

/// What is read where a key is not set.
proof fn lemma_unset()
    ensures
        forall|n: u64| #[trigger] config::whole(Seq::empty(), n) == n,
        forall|b: bool| #[trigger] config::switch(Seq::empty(), b) == b,
        forall|p: Seq<char>| #[trigger] config::policy(Seq::empty(), p) == p,
        forall|n: Double| #[trigger]
            config::number(Seq::empty(), n) == (Number::Signed { negative: false, size: n }),
{
    lemma_default_words();
    let e = Seq::<char>::empty();
    assert(fixed::unsigned(e) == e);
    text::lemma_find(text::lower(e), 'e');
    assert(fixed::mantissa(e) == e);
    text::lemma_find(e, '.');
    assert(fixed::whole_digits(e) == e);
    assert(!fixed::is_decimal(e));
}

/// The default file gives the settings that are built in, but for the lists of names,
/// which are empty without it.
pub proof fn law_the_default_file_gives_the_defaults()
    ensures
        same_but_lists(
            config::settings_of(default_entries()),
            config::settings_of(Seq::empty()),
        ),
        config::settings_of(Seq::empty()).audio_ignore.len() == 0,
        config::settings_of(Seq::empty()).proc_busy_when_cpu.len() == 0,
        config::settings_of(Seq::empty()).dl_processes.len() == 0,
{
    lemma_default_values();
    lemma_unset();
    let e = Seq::<char>::empty();
    text::lemma_find(e, ',');
    assert(e.take(0) == e);
    assert(text::trim(e) == e);
    assert(config::parse_list(e).len() == 0);
}

/// What becomes of a key when missing ones are added.
proof fn lemma_kept(source: Seq<char>, key: Seq<char>)
    ensures
        ({
            let es = config::entries(text::lines(source));
            let after = config::entries(text::lines(config::migrated(source)));
            ||| config::lookup(after, key) == config::lookup(es, key)
            ||| config::lookup(es, key) == Seq::<char>::empty() && config::lookup(after, key)
                == config::lookup(default_entries(), key)
        }),
{
    let es = config::entries(text::lines(source));
    config_laws::law_migration_keeps_values(source, key);
    if !config::has_key(es, key) {
        config_laws::lemma_lookup_none(es, key);
    }
}

/// A list after missing keys were added: that of the file where it sets it, or else that
/// of the default file.
pub open spec fn list_kept(source: Seq<char>, key: Seq<char>, list: Seq<Seq<char>>) -> bool {
    let es = config::entries(text::lines(source));
    list == config::parse_list(
        config::lookup(
            if config::has_key(es, key) {
                es
            } else {
                default_entries()
            },
            key,
        ),
    )
}

/// Adding keys to an older file changes none of its settings, whether it sets them or
/// leaves them to what is built in. Only a list that the file does not set becomes that
/// of the default file.
pub proof fn law_migration_keeps_settings(source: Seq<char>)
    ensures
        ({
            let before = config::settings_of(config::entries(text::lines(source)));
            let after = config::settings_of(
                config::entries(text::lines(config::migrated(source))),
            );
            &&& same_but_lists(after, before)
            &&& list_kept(source, "audio_ignore"@, after.audio_ignore)
            &&& list_kept(source, "proc_busy_when_cpu"@, after.proc_busy_when_cpu)
            &&& list_kept(source, "dl_processes"@, after.dl_processes)
        }),
{
    lemma_default_values();
    lemma_unset();
    lemma_kept(source, "poll_interval_secs"@);
    lemma_kept(source, "fast_poll_secs"@);
    lemma_kept(source, "grace_secs"@);
    lemma_kept(source, "policy_ac"@);
    lemma_kept(source, "policy_dc"@);
    lemma_kept(source, "never_wake_display"@);
    lemma_kept(source, "sleep_on_release"@);
    lemma_kept(source, "audio_enabled"@);
    lemma_kept(source, "audio_peak_threshold"@);
    lemma_kept(source, "audio_hold_secs"@);
    lemma_kept(source, "net_enabled"@);
    lemma_kept(source, "net_threshold_kbps"@);
    lemma_kept(source, "net_min_consecutive_tick"@);
    lemma_kept(source, "proc_enabled"@);
    lemma_kept(source, "proc_cpu_percent_1core"@);
    lemma_kept(source, "dl_enabled"@);
    lemma_kept(source, "dl_io_kbps"@);
    lemma_kept(source, "dl_tcp_conns"@);
    lemma_kept(source, "hint_enabled"@);
    lemma_kept(source, "hint_ttl_secs"@);
    config_laws::law_migration_keeps_values(source, "audio_ignore"@);
    config_laws::law_migration_keeps_values(source, "proc_busy_when_cpu"@);
    config_laws::law_migration_keeps_values(source, "dl_processes"@);
}

} // verus!
