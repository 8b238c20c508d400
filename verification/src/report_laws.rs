//! What holds of what the user gets to read.
use vstd::prelude::*;

use crate::config::Config;
use crate::daemon;
use crate::daemon::Report;
use crate::detect::audio;
use crate::detect::audio::{AudioState, SessionView};
use crate::detect::dl;
use crate::detect::dl::DlRead;
use crate::detect::hint;
use crate::detect::hint::HintView;
use crate::detect::net;
use crate::detect::net::NetState;
use crate::detect::proc;
use crate::double;
use crate::double::{Double, Number};
use crate::engine::{Mode, Snapshot};
use crate::power::LocalTime;
use crate::text;
use crate::tray;

verus! {

/// Whether a text stands in a line.
pub open spec fn holds(line: Seq<char>, piece: Seq<char>) -> bool {
    exists|a: Seq<char>, b: Seq<char>| line == #[trigger] (a + piece + b)
}

proof fn lemma_holds(a: Seq<char>, piece: Seq<char>, b: Seq<char>)
    ensures
        holds(a + piece + b, piece),
{
}

/// A text that stands in the first part of a line, or in the second, stands in the line.
proof fn lemma_holds_joined(a: Seq<char>, b: Seq<char>, piece: Seq<char>)
    ensures
        holds(a, piece) ==> holds(a + b, piece),
        holds(b, piece) ==> holds(a + b, piece),
{
    if holds(a, piece) {
        let (x, y) = choose|x: Seq<char>, y: Seq<char>| a == #[trigger] (x + piece + y);
        assert(a + b == x + piece + (y + b));
    }
    if holds(b, piece) {
        let (x, y) = choose|x: Seq<char>, y: Seq<char>| b == #[trigger] (x + piece + y);
        assert(a + b == (a + x) + piece + y);
    }
}

proof fn lemma_holds_itself(piece: Seq<char>)
    ensures
        holds(piece, piece),
{
    assert(piece == Seq::<char>::empty() + piece + Seq::<char>::empty());
}

/// Padding keeps the text and fills it up with the character, to the width.
pub proof fn law_padding_fills_up(s: Seq<char>, width: nat)
    ensures
        text::pad_right(s, width).len() == if s.len() < width {
            width
        } else {
            s.len()
        },
        text::pad_right(s, width).take(s.len() as int) == s,
        text::pad_left(s, ' ', width).len() == text::pad_right(s, width).len(),
        text::pad_left(s, ' ', width).skip(text::pad_left(s, ' ', width).len() - s.len()) == s,
        holds(text::pad_right(s, width), s),
        holds(text::pad_left(s, ' ', width), s),
{
    let (r, l) = (text::pad_right(s, width), text::pad_left(s, ' ', width));
    assert(r == Seq::<char>::empty() + s + r.skip(s.len() as int));
    assert(l == l.take(l.len() - s.len()) + s + Seq::<char>::empty());
    assert(r.take(s.len() as int) == s);
    assert(l.skip(l.len() - s.len()) == s);
}

proof fn lemma_padded(a: Seq<char>, s: Seq<char>, width: nat, b: Seq<char>)
    ensures
        holds(a + text::pad_right(s, width) + b, s),
        holds(a + text::pad_left(s, ' ', width) + b, s),
{
    law_padding_fills_up(s, width);
    let (r, l) = (text::pad_right(s, width), text::pad_left(s, ' ', width));
    lemma_holds_joined(a, r, s);
    lemma_holds_joined(a + r, b, s);
    lemma_holds_joined(a, l, s);
    lemma_holds_joined(a + l, b, s);
}

// ───────────────────────── readings ─────────────────────────

/// The row of a program tells its name and its use.
pub proof fn law_program_rows_tell_the_use(name: Seq<char>, percent: Double)
    ensures
        holds(proc::status_row(name, percent), name),
        holds(proc::status_row(name, percent), percent.text(1)),
{
    let p = text::pad_left(percent.text(1), ' ', 7);
    let head = "    "@ + text::pad_right(name, 24);
    lemma_padded("    "@, name, 24, " cpu="@ + p + "%/core"@);
    assert(proc::status_row(name, percent) == head + (" cpu="@ + p + "%/core"@));
    lemma_padded(head + " cpu="@, percent.text(1), 7, "%/core"@);
}

/// The row of a downloader tells its name, its rate, its connections and what of it could
/// not be read.
pub proof fn law_downloader_rows_tell_the_measures(name: Seq<char>, r: DlRead)
    ensures
        ({
            let row = dl::status_row(name, r);
            &&& holds(row, name)
            &&& holds(row, r.kbps.text(1))
            &&& holds(row, text::dec(r.conns as nat))
            &&& r.io_unreadable > 0 ==> holds(row, text::dec(r.io_unreadable as nat))
        }),
{
    let row = dl::status_row(name, r);
    let rate = text::pad_left(r.kbps.text(1), ' ', 9);
    let conns = text::dec(r.conns as nat);
    let unread = text::dec(r.io_unreadable as nat);
    let tail = if r.io_unreadable > 0 {
        "  ["@ + unread + " proc io unreadable]"@
    } else {
        Seq::empty()
    };
    let a = "    "@ + text::pad_right(name, 24);
    let b = a + " io="@;
    let c = b + rate + " KB/s  established_tcp="@;
    lemma_padded(
        "    "@,
        name,
        24,
        " io="@ + rate + " KB/s  established_tcp="@ + conns + tail,
    );
    assert(row == a + (" io="@ + rate + " KB/s  established_tcp="@ + conns + tail));
    lemma_padded(b, r.kbps.text(1), 9, " KB/s  established_tcp="@ + conns + tail);
    assert(row == b + rate + (" KB/s  established_tcp="@ + conns + tail));
    lemma_holds(c, conns, tail);
    assert(row == c + conns + tail);
    lemma_holds("  ["@, unread, " proc io unreadable]"@);
    lemma_holds_joined(c + conns, tail, unread);
}

/// The row of a hint tells its name, its age, whether it counts, and its note.
pub proof fn law_hint_rows_tell_the_age(h: HintView)
    ensures
        ({
            let row = hint::status_row(h);
            &&& holds(row, h.name)
            &&& holds(row, text::dec(h.age_secs as nat))
            &&& holds(row, h.note)
            &&& h.future ==> holds(row, "FUTURE"@)
            &&& !h.future && h.fresh ==> holds(row, "fresh "@)
            &&& !h.future && !h.fresh ==> holds(row, "STALE "@)
        }),
{
    let row = hint::status_row(h);
    let age = text::pad_left(text::dec(h.age_secs as nat), ' ', 4);
    let word = hint::state_word(h);
    let a = "    "@ + text::pad_right(h.name, 28);
    let b = a + " age="@;
    let c = b + age + "s "@;
    lemma_padded("    "@, h.name, 28, " age="@ + age + "s "@ + word + " "@ + h.note);
    assert(row == a + (" age="@ + age + "s "@ + word + " "@ + h.note));
    lemma_padded(b, text::dec(h.age_secs as nat), 4, "s "@ + word + " "@ + h.note);
    assert(row == b + age + ("s "@ + word + " "@ + h.note));
    lemma_holds(c, word, " "@ + h.note);
    assert(row == c + word + (" "@ + h.note));
    lemma_holds(c + word + " "@, h.note, Seq::empty());
    assert(row == c + word + " "@ + h.note + Seq::<char>::empty());
}

/// The row of an interface tells its name and its bytes.
pub proof fn law_interface_rows_tell_the_bytes(alias: Seq<char>, bytes: u64)
    ensures
        holds(net::status_row(alias, bytes), alias),
        holds(net::status_row(alias, bytes), text::dec(bytes as nat)),
{
    let row = net::status_row(alias, bytes);
    let n = text::dec(bytes as nat);
    let a = "    "@ + text::pad_right(alias, 34);
    lemma_padded("    "@, alias, 34, " total="@ + n + " B"@);
    assert(row == a + (" total="@ + n + " B"@));
    lemma_holds(a + " total="@, n, " B"@);
}

/// What stands in a part of a line stands in the line.
proof fn lemma_extended(a: Seq<char>, b: Seq<char>)
    ensures
        forall|piece: Seq<char>| #[trigger] holds(a, piece) ==> holds(a + b, piece),
        forall|piece: Seq<char>| #[trigger] holds(b, piece) ==> holds(a + b, piece),
{
    assert forall|piece: Seq<char>| #[trigger] holds(a, piece) implies holds(a + b, piece) by {
        lemma_holds_joined(a, b, piece);
    }
    assert forall|piece: Seq<char>| #[trigger] holds(b, piece) implies holds(a + b, piece) by {
        lemma_holds_joined(a, b, piece);
    }
}

proof fn lemma_active(a: Seq<char>, active: bool)
    ensures
        active ==> holds(
            a + " active="@ + text::pad_right(text::truth(active), 5),
            " active=true"@,
        ),
        !active ==> holds(
            a + " active="@ + text::pad_right(text::truth(active), 5),
            " active=false"@,
        ),
{
    let act = text::pad_right(text::truth(active), 5);
    let said = " active="@ + text::truth(active);
    let fill = act.skip(text::truth(active).len() as int);
    assert(a + " active="@ + act == a + said + fill);
    lemma_holds(a, said, fill);
    reveal_strlit(" active=");
    reveal_strlit("true");
    reveal_strlit("false");
    reveal_strlit(" active=true");
    reveal_strlit(" active=false");
    if active {
        assert(said == " active=true"@);
    } else {
        assert(said == " active=false"@);
    }
}

proof fn lemma_shown_peak(size: Double)
    ensures
        audio::peak_text(Some(Number::Signed { negative: false, size })) == (Number::Signed {
            negative: false,
            size,
        }).text(3),
{
    let (n, w) = (size.num(), double::nothing().den());
    assert(n * w >= 0) by (nonlinear_arith)
        requires
            n >= 0,
            w >= 0,
    ;
    assert(0 * size.den() == 0) by (nonlinear_arith);
}

/// The row of a session tells its program, whether it is active, its peak and how long it
/// has been quiet, and marks it where it is ignored.
pub proof fn law_session_rows_tell_the_state(r: SessionView)
    ensures
        ({
            let row = audio::status_row(r);
            &&& holds(row, r.name)
            &&& holds(row, text::dec(r.endpoint as nat))
            &&& holds(row, text::dec(r.pid as nat))
            &&& r.active ==> holds(row, " active=true"@)
            &&& !r.active ==> holds(row, " active=false"@)
            &&& (r.peak matches Some(p) ==> p matches Number::Signed { negative, size } ==> (
            !negative ==> holds(row, p.text(3))))
            &&& r.peak is None ==> holds(row, "n/a"@)
            &&& r.quiet_for is None ==> holds(row, "never"@)
            &&& (r.quiet_for matches Some(q) ==> holds(row, double::seconds(q).text(1) + "s"@))
            &&& r.ignored ==> holds(row, "[ignored]"@)
        }),
{
    let ep = text::dec(r.endpoint as nat);
    let name = text::pad_right(r.name, 22);
    let pid = text::pad_right(text::dec(r.pid as nat), 6);
    let act = text::pad_right(text::truth(r.active), 5);
    let peak = text::pad_left(audio::peak_text(r.peak), ' ', 7);
    let quiet = text::pad_left(audio::quiet_text(r.quiet_for), ' ', 6);
    let mark = if r.ignored {
        "[ignored]"@
    } else {
        ""@
    };
    let p1 = "    ep"@ + ep;
    let p2 = p1 + " "@;
    let p3 = p2 + name;
    let p4 = p3 + " pid="@;
    let p5 = p4 + pid;
    let p6 = p5 + " active="@;
    let p7 = p6 + act;
    let p8 = p7 + " peak="@;
    let p9 = p8 + peak;
    let p10 = p9 + " quiet="@;
    let p11 = p10 + quiet;
    let p12 = p11 + " "@;
    assert(audio::status_row(r) == p12 + mark);
    lemma_holds_itself(ep);
    lemma_holds_itself(mark);
    law_padding_fills_up(r.name, 22);
    law_padding_fills_up(text::dec(r.pid as nat), 6);
    law_padding_fills_up(audio::peak_text(r.peak), 7);
    law_padding_fills_up(audio::quiet_text(r.quiet_for), 6);
    lemma_active(p5, r.active);
    if r.peak is Some && r.peak->0 is Signed && !r.peak->0->negative {
        lemma_shown_peak(r.peak->0->size);
    }
    lemma_extended("    ep"@, ep);
    lemma_extended(p1, " "@);
    lemma_extended(p2, name);
    lemma_extended(p3, " pid="@);
    lemma_extended(p4, pid);
    lemma_extended(p5, " active="@);
    lemma_extended(p6, act);
    lemma_extended(p7, " peak="@);
    lemma_extended(p8, peak);
    lemma_extended(p9, " quiet="@);
    lemma_extended(p10, quiet);
    lemma_extended(p11, " "@);
    lemma_extended(p12, mark);
}

/// Each reading has its row, in order. A detector that is switched off has one line.
pub proof fn law_every_reading_has_its_row(
    cfg: Config,
    a: AudioState,
    n: NetState,
    p: Seq<(Seq<char>, Double)>,
    d: Seq<(Seq<char>, DlRead)>,
    h: Seq<HintView>,
    dir: Seq<char>,
    i: int,
)
    requires
        0 <= i,
    ensures
        !cfg.audio_enabled ==> audio::status(a, cfg).len() == 1,
        !cfg.net_enabled ==> net::status(n, cfg).len() == 1,
        !cfg.proc_enabled ==> proc::status(cfg, p).len() == 1,
        !cfg.dl_enabled ==> dl::status(cfg, d).len() == 1,
        !cfg.hint_enabled ==> hint::status(cfg, dir, h).len() == 1,
        cfg.audio_enabled && i < a.last.len() ==> audio::status(a, cfg).len() == 2 + a.last.len()
            && audio::status(a, cfg)[2 + i] == audio::status_row(a.last[i]),
        cfg.net_enabled && i < n.ifaces.len() ==> net::status(n, cfg).len() == 1 + n.ifaces.len()
            && net::status(n, cfg)[1 + i] == net::status_row(n.ifaces[i].0, n.ifaces[i].1),
        cfg.proc_enabled && i < p.len() ==> proc::status(cfg, p).len() == 1 + p.len()
            && proc::status(cfg, p)[1 + i] == proc::status_row(p[i].0, p[i].1),
        cfg.dl_enabled && i < d.len() ==> dl::status(cfg, d).len() == 1 + d.len() && dl::status(
            cfg,
            d,
        )[1 + i] == dl::status_row(d[i].0, d[i].1),
        cfg.hint_enabled && i < h.len() ==> hint::status(cfg, dir, h).len() == 1 + h.len()
            && hint::status(cfg, dir, h)[1 + i] == hint::status_row(h[i]),
{
}

// ───────────────────────── the report ─────────────────────────

/// The report names the power source, and ends with what is to be held.
pub proof fn law_the_report_ends_with_the_decision(
    now: LocalTime,
    cfg: Config,
    r: Report,
    status: Seq<Seq<char>>,
    reasons: Seq<(Seq<char>, Seq<char>)>,
    i: int,
)
    requires
        0 <= i,
    ensures
        ({
            let lines = daemon::report_lines(now, cfg, r, status, reasons);
            let n = lines.len() as int;
            &&& n >= 6
            &&& lines[0] == "=== stayawake --status   "@ + now.stamp()
            &&& lines[n - 1] == "  desired = "@ + r.desired.name()
            &&& i < reasons.len() ==> lines[n - 1 - reasons.len() + i] == "  "@ + reasons[i].0
                + ": "@ + reasons[i].1
            &&& reasons.len() == 0 ==> lines[n - 2] == "  本轮无活动命中"@
            &&& i < status.len() ==> lines.contains(status[i])
            &&& holds(lines[1], text::dec(r.processes as nat))
            &&& r.ac ==> holds(lines[1], "AC"@)
            &&& !r.ac ==> holds(lines[1], "DC"@)
        }),
{
    let lines = daemon::report_lines(now, cfg, r, status, reasons);
    let found = crate::warnings::warnings_of(
        crate::config::entries(cfg.raw_lines()),
        cfg.settings(),
    );
    if i < status.len() {
        let k = 4 + daemon::warnings_part(found).len() + i;
        assert(lines[k] == status[i]);
    }
    let n = text::dec(r.processes as nat);
    let source = if r.ac {
        "AC"@
    } else {
        "DC"@
    };
    let screen = if r.display_on {
        "on"@
    } else {
        "off"@
    };
    let rest = "  display≈"@ + screen + "  processes="@ + n;
    assert(lines[1] == "power="@ + source + rest);
    lemma_holds("power="@, source, rest);
    let head = "power="@ + source + "  display≈"@ + screen + "  processes="@;
    assert(lines[1] == head + n + Seq::<char>::empty());
    lemma_holds(head, n, Seq::empty());
}

// ───────────────────────── details ─────────────────────────

/// The details tell what is held, in which mode and why.
pub proof fn law_details_tell_the_state(cfg: Config, s: Snapshot, deadline: Seq<char>)
    ensures
        ({
            let lines = tray::details(cfg, Some(s), deadline);
            &&& lines[3] == "持有: "@ + s.held.name()
            &&& s.mode == Mode::Auto ==> lines[4] == "模式: "@ + "Auto"@
            &&& s.mode == Mode::Paused ==> lines[4] == "模式: "@ + "Paused"@
            &&& s.mode is Force ==> lines[4] == "模式: "@ + ("Force("@ + deadline + ")"@)
            &&& s.reasons@.len() > 0 ==> lines[5] == "原因: "@ + text::join(
                text::views(s.reasons@),
                "\r\n      "@,
            )
            &&& s.reasons@.len() == 0 && s.in_grace ==> lines[5] == "原因: "@ + "(宽限期内)"@
            &&& s.reasons@.len() == 0 && !s.in_grace ==> lines[5] == "原因: "@ + "(无)"@
            &&& s.ac ==> holds(lines[2], "AC (插电)"@)
            &&& !s.ac ==> holds(lines[2], "DC (电池)"@)
            &&& s.display_on ==> lines[2].last() == '开'
            &&& !s.display_on ==> lines[2].last() == '关'
            &&& lines.len() == 12
        }),
{
    let lines = tray::details(cfg, Some(s), deadline);
    let source = if s.ac {
        "AC (插电)"@
    } else {
        "DC (电池)"@
    };
    let screen = if s.display_on {
        "开"@
    } else {
        "关"@
    };
    assert(lines[2] == "供电: "@ + source + ("      显示器: "@ + screen));
    lemma_holds("供电: "@, source, "      显示器: "@ + screen);
    reveal_strlit("开");
    reveal_strlit("关");
    assert(lines[2].last() == screen.last());
}

/// The details tell the settings: the interval and the grace period, and both policies.
pub proof fn law_details_tell_the_settings(cfg: Config)
    ensures
        ({
            let lines = tray::settings_lines(cfg);
            &&& holds(lines[0], text::dec(cfg.poll_interval_secs as nat) + "s   宽限 "@)
            &&& holds(lines[0], text::dec(cfg.grace_secs as nat))
            &&& holds(lines[1], cfg.policy_ac@ + "  电池="@ + cfg.policy_dc@)
            &&& holds(lines[1], text::truth(cfg.never_wake_display))
        }),
{
    let lines = tray::settings_lines(cfg);
    let (p, g) = (text::dec(cfg.poll_interval_secs as nat), text::dec(cfg.grace_secs as nat));
    assert(lines[0] == "轮询 "@ + (p + "s   宽限 "@) + (g + "s"@));
    lemma_holds("轮询 "@, p + "s   宽限 "@, g + "s"@);
    assert(lines[0] == "轮询 "@ + p + "s   宽限 "@ + g + "s"@);
    lemma_holds("轮询 "@ + p + "s   宽限 "@, g, "s"@);
    let both = cfg.policy_ac@ + "  电池="@ + cfg.policy_dc@;
    let wake = text::truth(cfg.never_wake_display);
    assert(lines[1] == "策略  插电="@ + both + ("  never_wake_display="@ + wake));
    lemma_holds("策略  插电="@, both, "  never_wake_display="@ + wake);
    assert(lines[1] == "策略  插电="@ + both + "  never_wake_display="@ + wake
        + Seq::<char>::empty());
    lemma_holds("策略  插电="@ + both + "  never_wake_display="@, wake, Seq::empty());
}

/// The details mark each detector that is on.
pub proof fn law_details_mark_the_detectors(cfg: Config)
    ensures
        ({
            let line = tray::settings_lines(cfg)[2];
            &&& line.len() == 24
            &&& line[6] == '✓' <==> cfg.audio_enabled
            &&& line[10] == '✓' <==> cfg.net_enabled
            &&& line[14] == '✓' <==> cfg.proc_enabled
            &&& line[19] == '✓' <==> cfg.dl_enabled
            &&& line[23] == '✓' <==> cfg.hint_enabled
        }),
{
    reveal_strlit("检测  音频");
    reveal_strlit(" 网络");
    reveal_strlit(" 进程");
    reveal_strlit(" 下载器");
    reveal_strlit(" 提示");
    reveal_strlit("✓");
    reveal_strlit("✗");
}

} // verus!
