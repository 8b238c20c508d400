//! The resident process: when to look, what to log, how long to sleep, and the report.
use vstd::prelude::*;

use crate::config::Config;
use crate::detect;
use crate::detect::{ProcessTable, Reason};
use crate::double::SECOND;
use crate::engine;
use crate::engine::{Engine, Mode, Pending, QuickReadings, Readings, Settled, Snapshot};
use crate::power::{Held, LocalTime, PowerSource};
use crate::power;
use crate::text;
use crate::warnings;

verus! {

// ───────────────────────── the command line ─────────────────────────

/// What the program is asked to do.
#[derive(Clone, Copy, Debug, PartialEq, Eq, Structural)]
pub enum Command {
    Run,
    Status,
    InstallAutostart,
    UninstallAutostart,
    Help,
    Unknown,
}

pub open spec fn command_of(arg: Option<Seq<char>>) -> Command {
    match arg {
        None => Command::Run,
        Some(a) => if a == "--status"@ {
            Command::Status
        } else if a == "--install-autostart"@ {
            Command::InstallAutostart
        } else if a == "--uninstall-autostart"@ {
            Command::UninstallAutostart
        } else if a == "--help"@ || a == "-h"@ {
            Command::Help
        } else {
            Command::Unknown
        },
    }
}

/// The command that the first argument stands for.
pub fn command(arg: Option<&str>) -> (c: Command)
    ensures
        c == command_of(
            match arg {
                Some(a) => Some(a@),
                None => None,
            },
        ),
{
    match arg {
        None => Command::Run,
        Some(a) => if text::same(a, "--status") {
            Command::Status
        } else if text::same(a, "--install-autostart") {
            Command::InstallAutostart
        } else if text::same(a, "--uninstall-autostart") {
            Command::UninstallAutostart
        } else if text::same(a, "--help") || text::same(a, "-h") {
            Command::Help
        } else {
            Command::Unknown
        },
    }
}

/// What the program tells of itself.
pub const HELP: &'static str = r#"stayawake - 基于真实活动检测的休眠抑制守护进程

用法:
  stayawake                       以守护进程运行(托盘图标)
  stayawake --status              打印一轮全部检测器读数后退出
  stayawake --install-autostart   注册开机自启(登录触发的计划任务)
  stayawake --uninstall-autostart 移除开机自启

路径:
  配置  %LOCALAPPDATA%\stayawake\config.ini   (首次运行自动生成)
  日志  %LOCALAPPDATA%\stayawake\stayawake.log (仅记录状态跃变)
  提示  %LOCALAPPDATA%\stayawake\hints\*.hint  (touch 即保持唤醒, 删除即释放)
"#;

/// The first line of a run in the log: whether the process could be made to run on slow
/// cores, and at a low priority.
pub fn started_line(eco: bool, priority: bool) -> (r: String)
    ensures
        r@ == "=== stayawake started === (EcoQoS="@ + text::truth(eco) + " priority="@ + text::truth(
            priority,
        ) + ")"@,
{
    let mut r = "=== stayawake started === (EcoQoS=".to_owned();
    r.append(text::truth_word(eco));
    r.append(" priority=");
    r.append(text::truth_word(priority));
    r.append(")");
    r
}

// ───────────────────────── when to look, how long to sleep ─────────────────────────

/// Seconds that cover a time, rounded up.
pub open spec fn seconds_up(nanos: nat) -> nat {
    (nanos + SECOND - 1) as nat / SECOND as nat
}

/// The seconds to sleep: no longer than to the deadline of a forced mode, so that it is
/// released in time, and never zero, which would spin.
pub open spec fn clamped_sleep(base_secs: u64, mode: Mode, now: u64) -> nat {
    match mode {
        Mode::Force(until) => {
            let left = seconds_up(detect::elapsed(now, until));
            let shorter = if left < base_secs {
                left
            } else {
                base_secs as nat
            };
            if shorter < 1 {
                1
            } else {
                shorter
            }
        },
        _ => base_secs as nat,
    }
}

pub fn clamp_to_force_deadline(base_secs: u64, mode: Mode, now: u64) -> (r: u64)
    ensures
        r == clamped_sleep(base_secs, mode, now),
{
    match mode {
        Mode::Force(until) => {
            let left: u64 = detect::since(now, until);
            let unit: u64 = SECOND as u64;
            let left_secs: u64 = left / unit + if left % unit > 0 {
                1
            } else {
                0
            };
            assert(left_secs == seconds_up(left as nat));
            let shorter: u64 = if left_secs < base_secs {
                left_secs
            } else {
                base_secs
            };
            if shorter < 1 {
                1
            } else {
                shorter
            }
        },
        _ => base_secs,
    }
}

/// Reads the mode, and turns a forced one that has run out into the automatic one on the
/// way. This comes before a round, so that none shows a forced mode with nothing left.
pub fn take_mode(mode: &mut Mode, now: u64) -> (r: Mode)
    ensures
        r == old(mode).current(now),
        *final(mode) == old(mode).current(now),
{
    let r = mode.effective(now);
    *mode = r;
    r
}

/// Whether quick looks are made: in the automatic mode, while nothing is held, and where
/// they come more often than full rounds.
pub open spec fn watches(cfg: Config, held: Held, mode: Mode) -> bool {
    0 < cfg.fast_poll_secs < cfg.poll_interval_secs && held == Held::Nothing && mode == Mode::Auto
}

pub fn watching(cfg: &Config, held: Held, mode: Mode) -> (r: bool)
    ensures
        r == watches(*cfg, held, mode),
{
    cfg.fast_poll_secs > 0 && cfg.fast_poll_secs < cfg.poll_interval_secs && held == Held::Nothing
        && mode == Mode::Auto
}

/// Whether a full round is due: there was none yet, or the last is an interval ago.
pub open spec fn round_due(cfg: Config, last_full: Option<u64>, now: u64) -> bool {
    match last_full {
        Some(t) => detect::elapsed(t, now) >= cfg.poll_interval_secs * SECOND,
        None => true,
    }
}

pub fn full_due(cfg: &Config, last_full: Option<u64>, now: u64) -> (r: bool)
    ensures
        r == round_due(*cfg, last_full, now),
{
    assert(cfg.poll_interval_secs * SECOND <= 0xFFFF_FFFF_FFFF_FFFF * SECOND) by (nonlinear_arith)
        requires
            0 <= cfg.poll_interval_secs <= 0xFFFF_FFFF_FFFF_FFFF,
            SECOND >= 0,
    ;
    match last_full {
        Some(t) => detect::since(t, now) as u128 >= (cfg.poll_interval_secs as u128) * SECOND,
        None => true,
    }
}

/// How a wait ended.
#[derive(Clone, Copy, Debug, PartialEq, Eq, Structural)]
pub enum Waited {
    /// The timer could not be set.
    NoTimer,
    /// The wait failed.
    Failed,
    /// The time is over.
    Expired,
    /// The user interface wants a round.
    Kicked,
}

/// What follows a wait.
pub struct AfterWait {
    /// What goes into the log.
    pub log: Option<&'static str>,
    /// How long to sleep instead, so that a failed wait does not spin.
    pub sleep_secs: u64,
    /// Whether a round is wanted.
    pub kicked: bool,
}

/// How long to sleep after a wait of so many seconds, so that a failed one does not spin.
pub open spec fn slept_instead(waited: Waited, secs: u64) -> u64 {
    match waited {
        Waited::NoTimer => secs,
        Waited::Failed => if secs < 5 {
            secs
        } else {
            5
        },
        _ => 0,
    }
}

/// Whether the user interface ended a wait.
pub open spec fn calls_for_a_round(waited: Waited) -> bool {
    waited == Waited::Kicked
}

/// What follows a wait of so many seconds.
pub fn after_wait(waited: Waited, secs: u64) -> (r: AfterWait)
    ensures
        r.kicked == (waited == Waited::Kicked),
        r.sleep_secs == match waited {
            Waited::NoTimer => secs,
            Waited::Failed => if secs < 5 {
                secs
            } else {
                5
            },
            _ => 0,
        },
        match r.log {
            Some(line) => match waited {
                Waited::NoTimer => line@ == "warn: SetWaitableTimer 失败, 退化为 sleep"@,
                Waited::Failed => line@ == "warn: WaitForMultipleObjects 失败"@,
                _ => false,
            },
            None => waited == Waited::Expired || waited == Waited::Kicked,
        },
        r.sleep_secs == slept_instead(waited, secs),
        r.kicked == calls_for_a_round(waited),
{
    match waited {
        Waited::NoTimer => AfterWait {
            log: Some("warn: SetWaitableTimer 失败, 退化为 sleep"),
            sleep_secs: secs,
            kicked: false,
        },
        Waited::Failed => AfterWait {
            log: Some("warn: WaitForMultipleObjects 失败"),
            sleep_secs: if secs < 5 {
                secs
            } else {
                5
            },
            kicked: false,
        },
        Waited::Expired => AfterWait { log: None, sleep_secs: 0, kicked: false },
        Waited::Kicked => AfterWait { log: None, sleep_secs: 0, kicked: true },
    }
}

/// The longest wait in seconds that a timer can be set to.
pub const MAX_WAIT: u64 = 922_337_203_685;

/// The due time of a timer that ends in so many seconds: tenths of a microsecond, negative
/// for a time from now on.
pub fn due_time(secs: u64) -> (r: i64)
    requires
        secs <= MAX_WAIT,
    ensures
        r == -(secs * 10_000_000),
{
    -((secs * 10_000_000) as i64)
}

// ───────────────────────── the log ─────────────────────────

/// The warnings among the first `n` that were not seen, nor before in the list.
pub open spec fn new_ones(seen: Seq<Seq<char>>, all: Seq<Seq<char>>, n: nat) -> Seq<Seq<char>>
    decreases n,
{
    if n == 0 {
        Seq::empty()
    } else {
        let before = new_ones(seen, all, (n - 1) as nat);
        let w = all[n - 1];
        if seen.contains(w) || before.contains(w) {
            before
        } else {
            before.push(w)
        }
    }
}

pub open spec fn warn_lines(v: Seq<Seq<char>>) -> Seq<Seq<char>> {
    Seq::new(v.len(), |i: int| "warn: "@ + v[i])
}

fn holds_text(v: &Vec<String>, s: &str) -> (r: bool)
    ensures
        r == text::views(v@).contains(s@),
{
    let ghost all = text::views(v@);
    let mut i: usize = 0;
    while i < v.len()
        invariant
            i <= v@.len(),
            all == text::views(v@),
            forall|j: int| 0 <= j < i ==> #[trigger] all[j] != s@,
        decreases v@.len() - i,
    {
        assert(all[i as int] == v@[i as int]@);
        if text::same(v[i].as_str(), s) {
            return true;
        }
        i = i + 1;
    }
    false
}

/// The lines to log for the warnings of a configuration: each warning once, however
/// often the configuration is read again.
pub fn log_config_warnings(found: &Vec<String>, seen: &mut Vec<String>) -> (lines: Vec<String>)
    ensures
        ({
            let added = new_ones(text::views(old(seen)@), text::views(found@), found@.len());
            &&& text::views(final(seen)@) == text::views(old(seen)@) + added
            &&& text::views(lines@) == warn_lines(added)
        }),
{
    let ghost start = text::views(seen@);
    let ghost all = text::views(found@);
    let mut lines: Vec<String> = Vec::new();
    let mut i: usize = 0;
    assert(text::views(lines@) == warn_lines(new_ones(start, all, 0)));
    assert(start == start + new_ones(start, all, 0));
    while i < found.len()
        invariant
            i <= found@.len(),
            all == text::views(found@),
            text::views(seen@) == start + new_ones(start, all, i as nat),
            text::views(lines@) == warn_lines(new_ones(start, all, i as nat)),
        decreases found@.len() - i,
    {
        let w = found[i].as_str();
        let ghost added = new_ones(start, all, i as nat);
        let ghost (old_seen, old_lines) = (text::views(seen@), text::views(lines@));
        proof {
            assert(all[i as int] == w@);
            lemma_contains_sum(start, added, w@);
        }
        if !holds_text(seen, w) {
            let mut line = "warn: ".to_owned();
            line.append(w);
            let ghost said = line@;
            seen.push(w.to_owned());
            lines.push(line);
            assert(text::views(seen@) == old_seen.push(w@));
            assert(text::views(lines@) == old_lines.push(said));
            assert(start + added.push(w@) == (start + added).push(w@));
            assert(warn_lines(added.push(w@)) == warn_lines(added).push(said));
        }
        i = i + 1;
    }
    lines
}

proof fn lemma_contains_sum(a: Seq<Seq<char>>, b: Seq<Seq<char>>, x: Seq<char>)
    ensures
        (a + b).contains(x) <==> a.contains(x) || b.contains(x),
{
    if (a + b).contains(x) {
        let i = choose|i: int| 0 <= i < (a + b).len() && (a + b)[i] == x;
        if i < a.len() {
            assert(a[i] == x);
        } else {
            assert(b[i - a.len()] == x);
        }
    }
    if a.contains(x) {
        let i = choose|i: int| 0 <= i < a.len() && a[i] == x;
        assert((a + b)[i] == x);
    }
    if b.contains(x) {
        let i = choose|i: int| 0 <= i < b.len() && b[i] == x;
        assert((a + b)[a.len() + i] == x);
    }
}

/// A warning that was logged once is not logged again: reading the same configuration a
/// second time logs nothing.
pub proof fn law_warnings_are_logged_once(seen: Seq<Seq<char>>, all: Seq<Seq<char>>, n: nat)
    requires
        n <= all.len(),
    ensures
        new_ones(seen + new_ones(seen, all, all.len()), all, n) == Seq::<Seq<char>>::empty(),
    decreases n,
{
    let added = new_ones(seen, all, all.len());
    if n > 0 {
        law_warnings_are_logged_once(seen, all, (n - 1) as nat);
        lemma_new_ones_cover(seen, all, all.len(), n - 1);
        lemma_contains_sum(seen, added, all[n - 1]);
    }
}

proof fn lemma_new_ones_cover(seen: Seq<Seq<char>>, all: Seq<Seq<char>>, n: nat, k: int)
    requires
        0 <= k < n <= all.len(),
    ensures
        seen.contains(all[k]) || new_ones(seen, all, n).contains(all[k]),
    decreases n,
{
    let p = (n - 1) as nat;
    let before = new_ones(seen, all, p);
    let after = new_ones(seen, all, n);
    if k < p {
        lemma_new_ones_cover(seen, all, p, k);
        if before.contains(all[k]) {
            let i = choose|i: int| 0 <= i < before.len() && before[i] == all[k];
            assert(after[i] == all[k]);
        }
    } else if !seen.contains(all[k]) && !before.contains(all[k]) {
        assert(after == before.push(all[k]));
        assert(after[before.len() as int] == all[k]);
    }
}

/// Why something is held or not, as the log has it.
pub open spec fn cause(reasons: Seq<Seq<char>>, in_grace: bool) -> Seq<char> {
    if reasons.len() > 0 {
        text::join(reasons, " · "@)
    } else if in_grace {
        "(grace)"@
    } else {
        "(idle)"@
    }
}

/// The line of a change.
pub open spec fn change_text(
    held: Held,
    ac: bool,
    display_on: bool,
    reasons: Seq<Seq<char>>,
    in_grace: bool,
) -> Seq<char> {
    text::pad_right(held.name(), 14) + " ac="@ + (if ac {
        "1"@
    } else {
        "0"@
    }) + " disp="@ + (if display_on {
        "on"@
    } else {
        "off"@
    }) + " "@ + cause(reasons, in_grace)
}

pub fn change_line(snap: &Snapshot) -> (r: String)
    ensures
        r@ == change_text(
            snap.held,
            snap.ac,
            snap.display_on,
            text::views(snap.reasons@),
            snap.in_grace,
        ),
{
    let mut r = String::new();
    text::push_right_padded(&mut r, snap.held.label(), 14);
    r.append(" ac=");
    r.append(
        if snap.ac {
            "1"
        } else {
            "0"
        },
    );
    r.append(" disp=");
    r.append(
        if snap.display_on {
            "on"
        } else {
            "off"
        },
    );
    r.append(" ");
    if snap.reasons.len() > 0 {
        r.append(text::join_strings(&snap.reasons, " · ").as_str());
    } else if snap.in_grace {
        r.append("(grace)");
    } else {
        r.append("(idle)");
    }
    assert(r@ == change_text(
        snap.held,
        snap.ac,
        snap.display_on,
        text::views(snap.reasons@),
        snap.in_grace,
    ));
    r
}

// ───────────────────────── the worker ─────────────────────────

/// The state of the thread that holds the requests.
pub struct Worker {
    pub cfg: Config,
    pub engine: Engine,
    /// The warnings that were logged.
    pub seen: Vec<String>,
    /// When the last full round was.
    pub last_full: Option<u64>,
    /// Whether the user interface ended the last wait.
    pub kicked: bool,
}

/// A round whose request has yet to be made, with what was held before.
pub struct Round {
    pub pending: Pending,
    pub prev_held: Held,
    pub prev_in_grace: bool,
}

/// What a round leads to.
pub struct RoundEnd {
    pub snapshot: Snapshot,
    /// What goes into the log.
    pub log: Vec<String>,
    /// Whether the machine is to be put to sleep.
    pub suspend: bool,
}

/// Whether a round ends activity in the natural way: the automatic mode is on, the grace
/// period was running and has run out, and nothing was found. Pausing, disabling a
/// detector or pulling the plug release a request as well, but not in this way.
pub open spec fn natural_release(
    mode: Mode,
    prev_in_grace: bool,
    in_grace: bool,
    reasons: nat,
) -> bool {
    mode == Mode::Auto && prev_in_grace && !in_grace && reasons == 0
}

/// Whether the machine is put to sleep after a round.
pub open spec fn suspends(
    cfg: Config,
    changed: bool,
    natural: bool,
    prev_held: Held,
    held: Held,
) -> bool {
    changed && cfg.sleep_on_release && natural && prev_held != Held::Nothing && held
        == Held::Nothing
}

/// Whether the machine is put to sleep after a round with so many reasons, given what was
/// held before it, at its request and after it.
pub open spec fn puts_to_sleep(
    cfg: Config,
    mode: Mode,
    prev_in_grace: bool,
    in_grace: bool,
    reasons: nat,
    prev_held: Held,
    asked_from: Held,
    held: Held,
) -> bool {
    suspends(
        cfg,
        held != asked_from,
        natural_release(mode, prev_in_grace, in_grace, reasons),
        prev_held,
        held,
    )
}

/// What a round writes into the log: that a request was refused, the change, and that
/// the machine is put to sleep.
pub open spec fn round_log(warn: bool, changed: bool, change: Seq<char>, suspend: bool) -> Seq<
    Seq<char>,
> {
    let first = if warn {
        seq![REFUSED@]
    } else {
        Seq::empty()
    };
    let second = if changed {
        seq![change]
    } else {
        Seq::empty()
    };
    let third = if suspend {
        seq!["sleep_on_release -> SetSuspendState"@]
    } else {
        Seq::empty()
    };
    first + second + third
}

/// What goes into the log where a request was refused.
pub const REFUSED: &'static str = "warn: SetThreadExecutionState failed (后续不再重复告警)";

/// What goes into the log where the machine could not be put to sleep.
pub const SUSPEND_FAILED: &'static str =
    "warn: SetSuspendState failed (需要 SE_SHUTDOWN_NAME 权限?)";

/// The last line of a run in the log.
pub const STOPPED: &'static str = "=== stayawake stopped ===";

/// The warnings of a configuration that were not seen yet.
pub open spec fn fresh_warnings(cfg: Config, seen: Seq<Seq<char>>) -> Seq<Seq<char>> {
    let all = warnings::warnings_of(crate::config::entries(cfg.raw_lines()), cfg.settings());
    new_ones(seen, all, all.len())
}

impl Worker {
    /// Whether what the engine keeps is in order.
    pub open spec fn wf(self) -> bool {
        self.engine.wf()
    }

    /// The state at the start, and what goes into the log.
    pub fn start(cfg: Config) -> (r: (Worker, Vec<String>))
        ensures
            r.0.wf(),
            r.0.cfg == cfg,
            r.0.engine.detectors() == engine::untried(),
            r.0.engine.last_active is None,
            !r.0.engine.in_grace,
            r.0.engine.held == Held::Nothing,
            !r.0.engine.hold_warned,
            r.0.last_full is None,
            !r.0.kicked,
            text::views(r.0.seen@) == fresh_warnings(cfg, Seq::empty()),
            text::views(r.1@) == warn_lines(fresh_warnings(cfg, Seq::empty())),
    {
        let mut seen: Vec<String> = Vec::new();
        assert(text::views(seen@) == Seq::<Seq<char>>::empty());
        let found = cfg.warnings();
        assert(text::views(found@).len() == found@.len());
        let lines = log_config_warnings(&found, &mut seen);
        assert(Seq::<Seq<char>>::empty() + fresh_warnings(cfg, Seq::empty()) == fresh_warnings(
            cfg,
            Seq::empty(),
        ));
        let worker = Worker { cfg, engine: Engine::new(), seen, last_full: None, kicked: false };
        (worker, lines)
    }

    /// Takes a configuration that was read again: a full round follows at once.
    pub fn reload(&mut self, cfg: Config) -> (lines: Vec<String>)
        ensures
            final(self).cfg == cfg,
            final(self).last_full is None,
            final(self).engine == old(self).engine,
            final(self).kicked == old(self).kicked,
            text::views(final(self).seen@) == text::views(old(self).seen@) + fresh_warnings(
                cfg,
                text::views(old(self).seen@),
            ),
            text::views(lines@) == seq!["config reloaded"@] + warn_lines(
                fresh_warnings(cfg, text::views(old(self).seen@)),
            ),
    {
        let mut lines: Vec<String> = Vec::new();
        text::push_text(&mut lines, "config reloaded");
        let found = cfg.warnings();
        assert(text::views(found@).len() == found@.len());
        let more = log_config_warnings(&found, &mut self.seen);
        text::move_texts(&mut lines, more);
        self.cfg = cfg;
        self.last_full = None;
        lines
    }

    /// Whether a quick look comes first: full rounds are not due, and nobody asked for one.
    pub open spec fn looks_first(self, mode: Mode, now: u64) -> bool {
        watches(self.cfg, self.engine.held, mode) && !round_due(self.cfg, self.last_full, now)
            && !self.kicked
    }

    pub fn quick_look_first(&self, mode: Mode, now: u64) -> (r: bool)
        ensures
            r == self.looks_first(mode, now),
    {
        watching(&self.cfg, self.engine.held(), mode) && !full_due(&self.cfg, self.last_full, now)
            && !self.kicked
    }

    /// A quick look: whether a full round is called for.
    pub fn quick_look(&mut self, q: &QuickReadings) -> (r: bool)
        ensures
            old(self).wf() ==> final(self).wf(),
            r == engine::quick_look(old(self).engine.detectors(), old(self).cfg, *q),
            final(self).engine.detectors() == engine::detectors_probed(
                old(self).engine.detectors(),
                old(self).cfg,
                *q,
            ),
            final(self).engine.held == old(self).engine.held,
            final(self).engine.in_grace == old(self).engine.in_grace,
            final(self).engine.last_active == old(self).engine.last_active,
            final(self).engine.hold_warned == old(self).engine.hold_warned,
            final(self).cfg == old(self).cfg,
            final(self).seen == old(self).seen,
            final(self).last_full == old(self).last_full,
            final(self).kicked == old(self).kicked,
    {
        self.engine.probe(&self.cfg, q)
    }

    /// Begins a full round: what is to be held.
    pub fn begin_round(
        &mut self,
        mode: Mode,
        display_on: bool,
        table: &ProcessTable,
        readings: &Readings,
        source: PowerSource,
        now: u64,
    ) -> (r: Round)
        ensures
            final(self).wf(),
            ({
                let d = old(self).engine.detectors();
                let cfg = old(self).cfg;
                let reasons = engine::round_reasons(d, cfg, table.rows(), *readings);
                let found = reasons.len() > 0;
                let active = engine::active_after(old(self).engine.last_active, found, now);
                let grace = !found && engine::within_grace(active, now, cfg);
                let p = r.pending;
                &&& final(self).engine.detectors() == engine::detectors_after(
                    d,
                    cfg,
                    table.rows(),
                    *readings,
                )
                &&& final(self).engine.last_active == active
                &&& final(self).engine.in_grace == grace
                &&& p.ac == (source != PowerSource::Dc)
                &&& p.desired == engine::wanted(cfg, mode, p.ac, display_on, found || grace, now)
                &&& p.changed == (p.desired != old(self).engine.held)
                &&& p.mode == mode
                &&& text::views(p.reasons@) == engine::reason_texts(reasons)
                &&& p.in_grace == grace
                &&& p.display_on == display_on
                &&& p.force_left == engine::left_of(mode, now)
            }),
            ({
                let reasons = engine::round_reasons(
                    old(self).engine.detectors(),
                    old(self).cfg,
                    table.rows(),
                    *readings,
                );
                &&& r.pending.ac == engine::plugged_in(source)
                &&& r.pending.in_grace == engine::lingers(
                    old(self).cfg,
                    reasons.len() > 0,
                    old(self).engine.last_active,
                    now,
                )
                &&& r.pending.desired == engine::asked_for(
                    old(self).cfg,
                    mode,
                    source,
                    display_on,
                    reasons.len() > 0,
                    old(self).engine.last_active,
                    now,
                )
            }),
            r.prev_held == old(self).engine.held,
            r.prev_in_grace == old(self).engine.in_grace,
            !final(self).kicked,
            final(self).engine.held == old(self).engine.held,
            final(self).engine.hold_warned == old(self).engine.hold_warned,
            final(self).cfg == old(self).cfg,
            final(self).seen == old(self).seen,
            final(self).last_full == old(self).last_full,
    {
        self.kicked = false;
        let prev_held = self.engine.held();
        let prev_in_grace = self.engine.in_grace();
        let reasons = self.engine.detect(&self.cfg, table, readings);
        assert(detect::pairs(reasons@).len() == reasons@.len());
        let pending = self.engine.step(&self.cfg, mode, display_on, &reasons, source, now);
        Round { pending, prev_held, prev_in_grace }
    }

    /// Ends a full round, given whether its request was accepted.
    pub fn end_round(&mut self, round: Round, accepted: bool, now: u64) -> (r: RoundEnd)
        ensures
            old(self).wf() ==> final(self).wf(),
            ({
                let p = round.pending;
                let held = if p.changed && accepted {
                    p.desired
                } else {
                    old(self).engine.held
                };
                let changed = p.changed && held == p.desired;
                let warn = p.changed && !accepted && !old(self).engine.hold_warned;
                let natural = natural_release(
                    p.mode,
                    round.prev_in_grace,
                    p.in_grace,
                    p.reasons@.len(),
                );
                let suspend = suspends(old(self).cfg, changed, natural, round.prev_held, held);
                let change = change_text(
                    held,
                    p.ac,
                    p.display_on,
                    text::views(p.reasons@),
                    p.in_grace,
                );
                &&& final(self).engine.held == held
                &&& final(self).engine.hold_warned == if p.changed {
                    !accepted
                } else {
                    old(self).engine.hold_warned
                }
                &&& r.suspend == suspend
                &&& text::views(r.log@) == round_log(warn, changed, change, suspend)
                &&& r.snapshot.held == held
                &&& r.snapshot.mode == p.mode
                &&& r.snapshot.reasons@ == p.reasons@
                &&& r.snapshot.in_grace == p.in_grace
                &&& r.snapshot.ac == p.ac
                &&& r.snapshot.display_on == p.display_on
                &&& r.snapshot.force_left == p.force_left
            }),
            round.pending.changed == (round.pending.desired != old(self).engine.held) ==> {
                let p = round.pending;
                let held = engine::held_after(old(self).engine.held, p.desired, accepted);
                &&& final(self).engine.held == held
                &&& r.suspend == puts_to_sleep(
                    old(self).cfg,
                    p.mode,
                    round.prev_in_grace,
                    p.in_grace,
                    p.reasons@.len(),
                    round.prev_held,
                    old(self).engine.held,
                    held,
                )
            },
            final(self).engine.detectors() == old(self).engine.detectors(),
            final(self).engine.last_active == old(self).engine.last_active,
            final(self).engine.in_grace == old(self).engine.in_grace,
            final(self).last_full == Some(now),
            final(self).kicked == old(self).kicked,
            final(self).cfg == old(self).cfg,
            final(self).seen == old(self).seen,
    {
        let s: Settled = self.engine.settle(round.pending, accepted);
        self.last_full = Some(now);
        let mut log: Vec<String> = Vec::new();
        assert(text::views(log@) == Seq::<Seq<char>>::empty());
        if s.warn {
            text::push_text(&mut log, REFUSED);
        }
        let snap = s.snapshot;
        let mut suspend = false;
        if s.changed {
            text::push_text(&mut log, change_line(&snap).as_str());
            let natural = snap.mode == Mode::Auto && round.prev_in_grace && !snap.in_grace
                && snap.reasons.len() == 0;
            if self.cfg.sleep_on_release && natural && round.prev_held != Held::Nothing
                && snap.held == Held::Nothing {
                text::push_text(&mut log, "sleep_on_release -> SetSuspendState");
                suspend = true;
            }
        }
        assert(text::views(log@) == round_log(
            s.warn,
            s.changed,
            change_text(
                snap.held,
                snap.ac,
                snap.display_on,
                text::views(snap.reasons@),
                snap.in_grace,
            ),
            suspend,
        ));
        RoundEnd { snapshot: snap, log, suspend }
    }

    /// How long to wait after a full round.
    pub open spec fn rest_secs(self, mode: Mode, now: u64) -> nat {
        clamped_sleep(
            if watches(self.cfg, self.engine.held, mode) {
                self.cfg.fast_poll_secs
            } else {
                self.cfg.poll_interval_secs
            },
            mode,
            now,
        )
    }

    pub fn rest(&self, mode: Mode, now: u64) -> (r: u64)
        ensures
            r == self.rest_secs(mode, now),
    {
        let base: u64 = if watching(&self.cfg, self.engine.held(), mode) {
            self.cfg.fast_poll_secs
        } else {
            self.cfg.poll_interval_secs
        };
        clamp_to_force_deadline(base, mode, now)
    }
}

/// Only the automatic mode puts the machine to sleep: pausing or forcing never does.
pub proof fn law_only_natural_ends_suspend(
    cfg: Config,
    changed: bool,
    mode: Mode,
    prev_in_grace: bool,
    in_grace: bool,
    reasons: nat,
    prev_held: Held,
    held: Held,
)
    requires
        suspends(
            cfg,
            changed,
            natural_release(mode, prev_in_grace, in_grace, reasons),
            prev_held,
            held,
        ),
    ensures
        mode == Mode::Auto,
        cfg.sleep_on_release,
        prev_in_grace && !in_grace,
        reasons == 0,
{
}

/// The wait after a round is never zero, and never longer than the interval of full
/// rounds.
pub proof fn law_waits_are_bounded(w: Worker, mode: Mode, now: u64)
    requires
        w.cfg.poll_interval_secs >= 1,
    ensures
        1 <= w.rest_secs(mode, now) <= w.cfg.poll_interval_secs,
{
}

/// While nothing is held in the automatic mode, the next look comes after the fast
/// interval.
pub proof fn law_idle_waits_are_short(w: Worker, now: u64)
    requires
        0 < w.cfg.fast_poll_secs < w.cfg.poll_interval_secs,
        w.engine.held == Held::Nothing,
    ensures
        w.rest_secs(Mode::Auto, now) == w.cfg.fast_poll_secs,
{
}

/// Quick looks do not put a full round off: none comes first once the interval of full
/// rounds is over.
pub proof fn law_rounds_are_not_put_off(w: Worker, mode: Mode, last: u64, now: u64)
    requires
        w.last_full == Some(last),
        now - last >= w.cfg.poll_interval_secs * SECOND,
    ensures
        !w.looks_first(mode, now),
{
}

/// A forced mode is released in time: the wait before its deadline ends no later than
/// the first whole second at or after it.
pub proof fn law_force_is_released_in_time(base_secs: u64, until: u64, now: u64)
    requires
        now < until,
    ensures
        clamped_sleep(base_secs, Mode::Force(until), now) * SECOND < until - now + SECOND,
{
    let left = detect::elapsed(now, until);
    assert(seconds_up(left) * SECOND < left + SECOND);
    assert(clamped_sleep(base_secs, Mode::Force(until), now) <= seconds_up(left));
}

/// When the user interface asks for a round, no quick look comes first.
pub proof fn law_a_kick_is_not_swallowed(w: Worker, mode: Mode, now: u64)
    requires
        w.kicked,
    ensures
        !w.looks_first(mode, now),
{
}

// ───────────────────────── the report ─────────────────────────

/// What the report is about.
pub struct Report {
    pub ac: bool,
    pub display_on: bool,
    pub processes: usize,
    /// What is held once a round was tried.
    pub desired: Held,
}

pub open spec fn power_text(r: Report) -> Seq<char> {
    "power="@ + (if r.ac {
        "AC"@
    } else {
        "DC"@
    }) + "  display≈"@ + (if r.display_on {
        "on"@
    } else {
        "off"@
    }) + "  processes="@ + text::dec(r.processes as nat)
}

pub open spec fn settings_text(cfg: Config) -> Seq<char> {
    "poll="@ + text::dec(cfg.poll_interval_secs as nat) + "s fast="@ + (if cfg.fast_poll_secs > 0 {
        text::dec(cfg.fast_poll_secs as nat)
    } else {
        "off"@
    }) + "s grace="@ + text::dec(cfg.grace_secs as nat) + "s policy_ac="@ + cfg.policy_ac@
        + " policy_dc="@ + cfg.policy_dc@ + " never_wake_display="@ + text::truth(
        cfg.never_wake_display,
    ) + " sleep_on_release="@ + text::truth(cfg.sleep_on_release)
}

/// The warnings, indented, under a heading; nothing where there are none.
pub open spec fn warnings_part(found: Seq<Seq<char>>) -> Seq<Seq<char>> {
    if found.len() == 0 {
        Seq::empty()
    } else {
        seq!["[配置告警]"@] + Seq::new(found.len(), |i: int| "  "@ + found[i]) + seq![""@]
    }
}

pub open spec fn reason_line(r: (Seq<char>, Seq<char>)) -> Seq<char> {
    "  "@ + r.0 + ": "@ + r.1
}

/// The reasons, or that there are none.
pub open spec fn reasons_part(found: Seq<(Seq<char>, Seq<char>)>) -> Seq<Seq<char>> {
    if found.len() == 0 {
        seq!["  本轮无活动命中"@]
    } else {
        Seq::new(found.len(), |i: int| reason_line(found[i]))
    }
}

/// All lines of the report.
pub open spec fn report_lines(
    now: LocalTime,
    cfg: Config,
    r: Report,
    status: Seq<Seq<char>>,
    reasons: Seq<(Seq<char>, Seq<char>)>,
) -> Seq<Seq<char>> {
    seq![
        "=== stayawake --status   "@ + now.stamp(),
        power_text(r),
        settings_text(cfg),
        ""@,
    ] + warnings_part(
        warnings::warnings_of(crate::config::entries(cfg.raw_lines()), cfg.settings()),
    ) + status + seq![""@, "[结论]"@] + reasons_part(reasons) + seq![
        "  desired = "@ + r.desired.name(),
    ]
}

fn power_string(r: &Report) -> (s: String)
    ensures
        s@ == power_text(*r),
{
    let mut s = "power=".to_owned();
    s.append(
        if r.ac {
            "AC"
        } else {
            "DC"
        },
    );
    s.append("  display≈");
    s.append(
        if r.display_on {
            "on"
        } else {
            "off"
        },
    );
    s.append("  processes=");
    text::push_dec(&mut s, r.processes as u128);
    assert(s@ == power_text(*r));
    s
}

fn settings_string(cfg: &Config) -> (s: String)
    ensures
        s@ == settings_text(*cfg),
{
    let mut s = "poll=".to_owned();
    text::push_dec(&mut s, cfg.poll_interval_secs as u128);
    s.append("s fast=");
    if cfg.fast_poll_secs > 0 {
        text::push_dec(&mut s, cfg.fast_poll_secs as u128);
    } else {
        s.append("off");
    }
    s.append("s grace=");
    text::push_dec(&mut s, cfg.grace_secs as u128);
    s.append("s policy_ac=");
    s.append(cfg.policy_ac.as_str());
    s.append(" policy_dc=");
    s.append(cfg.policy_dc.as_str());
    s.append(" never_wake_display=");
    s.append(text::truth_word(cfg.never_wake_display));
    s.append(" sleep_on_release=");
    s.append(text::truth_word(cfg.sleep_on_release));
    assert(s@ == settings_text(*cfg));
    s
}

fn push_warnings(out: &mut Vec<String>, found: &Vec<String>)
    ensures
        text::views(final(out)@) == text::views(old(out)@) + warnings_part(text::views(found@)),
{
    let ghost start = text::views(out@);
    let ghost all = text::views(found@);
    if found.len() == 0 {
        assert(start + Seq::<Seq<char>>::empty() == start);
        return;
    }
    text::push_text(out, "[配置告警]");
    let ghost part = Seq::new(all.len(), |k: int| "  "@ + all[k]);
    let mut i: usize = 0;
    assert(text::views(out@) == start.push("[配置告警]"@) + part.take(0));
    while i < found.len()
        invariant
            i <= found@.len(),
            all == text::views(found@),
            part == Seq::new(all.len(), |k: int| "  "@ + all[k]),
            text::views(out@) == start.push("[配置告警]"@) + part.take(i as int),
        decreases found@.len() - i,
    {
        let mut line = "  ".to_owned();
        line.append(found[i].as_str());
        text::push_text(out, line.as_str());
        assert(part.take(i + 1) == part.take(i as int).push(part[i as int]));
        i = i + 1;
        assert(text::views(out@) == start.push("[配置告警]"@) + part.take(i as int));
    }
    text::push_text(out, "");
    assert(part.take(i as int) == part);
    assert(text::views(out@) == start + warnings_part(all));
}

fn push_reasons(out: &mut Vec<String>, found: &Vec<Reason>)
    ensures
        text::views(final(out)@) == text::views(old(out)@) + reasons_part(detect::pairs(found@)),
{
    let ghost start = text::views(out@);
    let ghost all = detect::pairs(found@);
    if found.len() == 0 {
        text::push_text(out, "  本轮无活动命中");
        assert(text::views(out@) == start + reasons_part(all));
        return;
    }
    let ghost part = reasons_part(all);
    let mut i: usize = 0;
    assert(text::views(out@) == start + part.take(0));
    while i < found.len()
        invariant
            i <= found@.len(),
            found@.len() > 0,
            all == detect::pairs(found@),
            part == reasons_part(all),
            text::views(out@) == start + part.take(i as int),
        decreases found@.len() - i,
    {
        let mut line = "  ".to_owned();
        line.append(found[i].kind);
        line.append(": ");
        line.append(found[i].detail.as_str());
        text::push_text(out, line.as_str());
        assert(part[i as int] == reason_line(all[i as int]));
        assert(part.take(i + 1) == part.take(i as int).push(part[i as int]));
        i = i + 1;
        assert(text::views(out@) == start + part.take(i as int));
    }
    assert(part.take(i as int) == part);
}

/// The report that `--status` prints: the power, the settings, the warnings, the readings
/// of all detectors (the lines that [`Engine::status_lines`] gives), and the conclusion.
pub fn status_report(
    now: LocalTime,
    cfg: &Config,
    readings: Vec<String>,
    r: Report,
    reasons: &Vec<Reason>,
) -> (s: String)
    ensures
        s@ == text::join(
            report_lines(
                now,
                *cfg,
                r,
                text::views(readings@),
                detect::pairs(reasons@),
            ),
            "\n"@,
        ) + "\n"@,
{
    let mut out: Vec<String> = Vec::new();
    assert(text::views(out@) == Seq::<Seq<char>>::empty());
    let mut title = "=== stayawake --status   ".to_owned();
    title.append(power::now_local(now).as_str());
    text::push_text(&mut out, title.as_str());
    text::push_text(&mut out, power_string(&r).as_str());
    text::push_text(&mut out, settings_string(cfg).as_str());
    text::push_text(&mut out, "");
    push_warnings(&mut out, &cfg.warnings());
    text::move_texts(&mut out, readings);
    text::push_text(&mut out, "");
    text::push_text(&mut out, "[结论]");
    push_reasons(&mut out, reasons);
    let mut last = "  desired = ".to_owned();
    last.append(r.desired.label());
    text::push_text(&mut out, last.as_str());
    assert(text::views(out@) == report_lines(
        now,
        *cfg,
        r,
        text::views(readings@),
        detect::pairs(reasons@),
    ));
    let mut s = text::join_strings(&out, "\n");
    s.append("\n");
    s
}

} // verus!
