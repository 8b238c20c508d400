//! The decision: what the detectors found, the grace period, the power policy, and what
//! is to be held.
use std::collections::HashMap;

use vstd::prelude::*;

use crate::config::Config;
use crate::detect;
use crate::detect::audio;
use crate::detect::audio::{AudioDetector, Outputs, SessionInput};
use crate::detect::dl;
use crate::detect::dl::{DlDetector, IoReading};
use crate::detect::hint;
use crate::detect::hint::{HintDetector, HintFile};
use crate::detect::net;
use crate::detect::net::{NetDetector, NetRow};
use crate::detect::proc;
use crate::detect::proc::ProcDetector;
use crate::detect::{CpuReading, ProcessTable, Reason};
use crate::double::{Number, SECOND};
use crate::power::{Held, PowerSource};
use crate::text;

verus! {

/// What the user has chosen.
#[derive(Clone, Copy, Debug, PartialEq, Eq, Structural)]
pub enum Mode {
    /// Activity decides.
    Auto,
    /// Nothing is held: the system sleeps as it likes.
    Paused,
    /// The screen is kept on until a time.
    Force(u64),
}

impl Mode {
    /// The mode with a forced one that has run out turned into the automatic one.
    pub open spec fn current(self, now: u64) -> Mode {
        match self {
            Mode::Force(until) => if now < until {
                self
            } else {
                Mode::Auto
            },
            _ => self,
        }
    }

    pub fn effective(self, now: u64) -> (r: Mode)
        ensures
            r == self.current(now),
    {
        match self {
            Mode::Force(until) => if now < until {
                self
            } else {
                Mode::Auto
            },
            _ => self,
        }
    }
}

/// The outcome of a round.
#[derive(Clone)]
pub struct Snapshot {
    pub held: Held,
    pub mode: Mode,
    pub reasons: Vec<String>,
    pub in_grace: bool,
    pub ac: bool,
    pub display_on: bool,
    /// How long the forced mode lasts, in nanoseconds.
    pub force_left: Option<u64>,
}

pub open spec fn left_text(secs: nat) -> Seq<char> {
    "强制常亮 · 剩余 "@ + text::dec(secs / 60) + "分"@ + text::dec(secs % 60) + "秒"@
}

/// One line that says why the machine does not sleep.
pub open spec fn description(
    mode: Mode,
    held: Held,
    reasons: Seq<Seq<char>>,
    force_left: Option<u64>,
) -> Seq<char> {
    match mode {
        Mode::Paused => "已暂停 · 允许正常休眠"@,
        Mode::Force(_) => left_text(
            match force_left {
                Some(n) => n as nat / SECOND as nat,
                None => 0,
            },
        ),
        Mode::Auto => if held == Held::Nothing {
            "空闲 · 未持有请求"@
        } else {
            let how = if held == Held::SystemDisplay {
                "保持屏幕"@
            } else {
                "仅防睡"@
            };
            let what = if reasons.len() == 0 {
                "宽限期"@
            } else {
                text::join(reasons, " · "@)
            };
            how + " · "@ + what
        },
    }
}

impl Snapshot {
    pub open spec fn described(self) -> Seq<char> {
        description(self.mode, self.held, text::views(self.reasons@), self.force_left)
    }

    pub fn describe(&self) -> (r: String)
        ensures
            r@ == self.described(),
    {
        describe_as(self.mode, self.held, &self.reasons, self.force_left)
    }
}

/// The line for a mode that may be newer than the rest.
pub fn describe_as(mode: Mode, held: Held, reasons: &Vec<String>, force_left: Option<u64>) -> (r:
    String)
    ensures
        r@ == description(mode, held, text::views(reasons@), force_left),
{
    match mode {
        Mode::Paused => "已暂停 · 允许正常休眠".to_owned(),
        Mode::Force(_) => {
            let secs: u128 = match force_left {
                Some(n) => n as u128 / SECOND,
                None => 0,
            };
            let mut r = "强制常亮 · 剩余 ".to_owned();
            text::push_dec(&mut r, secs / 60);
            r.append("分");
            text::push_dec(&mut r, secs % 60);
            r.append("秒");
            r
        },
        Mode::Auto => {
            if held == Held::Nothing {
                return "空闲 · 未持有请求".to_owned();
            }
            let mut r = if held == Held::SystemDisplay {
                "保持屏幕".to_owned()
            } else {
                "仅防睡".to_owned()
            };
            r.append(" · ");
            if reasons.len() == 0 {
                r.append("宽限期");
            } else {
                r.append(text::join_strings(reasons, " · ").as_str());
            }
            r
        },
    }
}

// ───────────────────────── policy ─────────────────────────

/// What is to be held. Plugged in, preventing sleep is enough and the screen may turn
/// off. On battery the system drops that request after some minutes, and only one that
/// keeps the screen on lasts. A screen that is off is not turned on.
pub open spec fn policy(cfg: Config, ac: bool, display_on: bool, busy: bool) -> Held {
    let wanted = if ac {
        cfg.policy_ac@
    } else {
        cfg.policy_dc@
    };
    if !busy {
        Held::Nothing
    } else if wanted != "display"@ {
        Held::System
    } else if cfg.never_wake_display && !display_on {
        Held::System
    } else {
        Held::SystemDisplay
    }
}

pub fn decide(cfg: &Config, ac: bool, display_on: bool, busy: bool) -> (r: Held)
    ensures
        r == policy(*cfg, ac, display_on, busy),
{
    if !busy {
        return Held::Nothing;
    }
    let wanted = if ac {
        cfg.policy_ac.as_str()
    } else {
        cfg.policy_dc.as_str()
    };
    if !text::same(wanted, "display") {
        return Held::System;
    }
    if cfg.never_wake_display && !display_on {
        return Held::System;
    }
    Held::SystemDisplay
}

/// What a mode wants held: nothing while paused, the screen while forced, and what the
/// policy says otherwise.
pub open spec fn wanted(
    cfg: Config,
    mode: Mode,
    ac: bool,
    display_on: bool,
    busy: bool,
    now: u64,
) -> Held {
    match mode {
        Mode::Paused => Held::Nothing,
        Mode::Force(until) => if now < until {
            Held::SystemDisplay
        } else {
            policy(cfg, ac, display_on, busy)
        },
        Mode::Auto => policy(cfg, ac, display_on, busy),
    }
}

/// Whether the last activity is so recent that it still counts.
pub open spec fn within_grace(last_active: Option<u64>, now: u64, cfg: Config) -> bool {
    match last_active {
        Some(t) => detect::elapsed(t, now) < cfg.grace_secs * SECOND,
        None => false,
    }
}

fn is_within_grace(last_active: Option<u64>, now: u64, cfg: &Config) -> (r: bool)
    ensures
        r == within_grace(last_active, now, *cfg),
{
    assert(cfg.grace_secs * SECOND <= 0xFFFF_FFFF_FFFF_FFFF * SECOND) by (nonlinear_arith)
        requires
            0 <= cfg.grace_secs <= 0xFFFF_FFFF_FFFF_FFFF,
            SECOND >= 0,
    ;
    match last_active {
        Some(t) => (detect::since(t, now) as u128) < (cfg.grace_secs as u128) * SECOND,
        None => false,
    }
}

// ───────────────────────── merging ─────────────────────────

/// Whether a text takes fewer bytes than a limit.
fn is_shorter(s: &str, limit: u32) -> (r: bool)
    requires
        limit <= 1000,
    ensures
        r == (text::utf8_length(s@) < limit),
{
    let chars = text::chars_of(s);
    let mut n: u32 = 0;
    let mut i: usize = 0;
    while i < chars.len()
        invariant
            i <= chars@.len(),
            chars@ == s@,
            n == text::utf8_length(s@.take(i as int)),
            n < limit || i == 0,
            limit <= 1000,
        decreases chars@.len() - i,
    {
        n = n + text::width_of(chars[i]);
        proof {
            assert(s@.take(i + 1).drop_last() == s@.take(i as int));
            text::lemma_utf8_grows(s@, i + 1);
        }
        i = i + 1;
        if n >= limit {
            return false;
        }
    }
    assert(s@.take(i as int) == s@);
    n < limit
}

/// From how many bytes on a detail takes nothing more.
pub const MERGE_LIMIT: u32 = 80;

/// Where a kind stands among reasons, or their number where it does not.
pub open spec fn kind_at(v: Seq<(Seq<char>, Seq<char>)>, kind: Seq<char>) -> int
    decreases v.len(),
{
    if v.len() == 0 || v.first().0 == kind {
        0
    } else {
        1 + kind_at(v.drop_first(), kind)
    }
}

/// The reasons with one more: put to the one of its kind, unless that is long already.
pub open spec fn merged_with(
    v: Seq<(Seq<char>, Seq<char>)>,
    r: (Seq<char>, Seq<char>),
) -> Seq<(Seq<char>, Seq<char>)> {
    let i = kind_at(v, r.0);
    if i >= v.len() {
        v.push(r)
    } else if text::utf8_length(v[i].1) < MERGE_LIMIT {
        v.update(i, (v[i].0, v[i].1 + ", "@ + r.1))
    } else {
        v
    }
}

/// The first `n` reasons, one for each kind.
pub open spec fn merged(all: Seq<(Seq<char>, Seq<char>)>, n: nat) -> Seq<(Seq<char>, Seq<char>)>
    decreases n,
{
    if n == 0 {
        Seq::empty()
    } else {
        merged_with(merged(all, (n - 1) as nat), all[n - 1])
    }
}

pub proof fn lemma_kind_at(v: Seq<(Seq<char>, Seq<char>)>, kind: Seq<char>)
    ensures
        0 <= kind_at(v, kind) <= v.len(),
        forall|j: int| 0 <= j < kind_at(v, kind) ==> (#[trigger] v[j]).0 != kind,
        kind_at(v, kind) < v.len() ==> v[kind_at(v, kind)].0 == kind,
    decreases v.len(),
{
    if v.len() > 0 && v.first().0 != kind {
        let rest = v.drop_first();
        lemma_kind_at(rest, kind);
        assert forall|j: int| 0 <= j < kind_at(v, kind) implies (#[trigger] v[j]).0 != kind by {
            if j > 0 {
                assert(rest[j - 1] == v[j]);
            }
        }
    }
}

fn find_kind(v: &Vec<Reason>, kind: &str) -> (r: usize)
    ensures
        r == kind_at(detect::pairs(v@), kind@),
        r <= v@.len(),
{
    let ghost all = detect::pairs(v@);
    let mut i: usize = 0;
    while i < v.len() && !text::same(v[i].kind, kind)
        invariant
            i <= v@.len(),
            all == detect::pairs(v@),
            forall|j: int| 0 <= j < i ==> (#[trigger] all[j]).0 != kind@,
        decreases v@.len() - i,
    {
        assert(all[i as int].0 != kind@);
        i = i + 1;
    }
    proof {
        lemma_kind_at(all, kind@);
        let k = kind_at(all, kind@);
        if k < i {
            assert(all[k].0 != kind@);
        }
        if k > i {
            assert(all[i as int].0 != kind@);
        }
    }
    i
}

/// One reason for each kind: three programs that play sound make one line.
pub fn merge(all: &Vec<Reason>) -> (out: Vec<Reason>)
    ensures
        detect::pairs(out@) == merged(detect::pairs(all@), all@.len()),
{
    let ghost view = detect::pairs(all@);
    let mut out: Vec<Reason> = Vec::new();
    let mut i: usize = 0;
    assert(detect::pairs(out@) == merged(view, 0));
    while i < all.len()
        invariant
            i <= all@.len(),
            view == detect::pairs(all@),
            detect::pairs(out@) == merged(view, i as nat),
        decreases all@.len() - i,
    {
        let r = &all[i];
        let ghost done = detect::pairs(out@);
        let k: usize = find_kind(&out, r.kind);
        if k == out.len() {
            out.push(Reason { kind: r.kind, detail: r.detail.as_str().to_owned() });
            assert(detect::pairs(out@) == done.push(r.pair()));
        } else if is_shorter(out[k].detail.as_str(), MERGE_LIMIT) {
            let mut detail = out[k].detail.as_str().to_owned();
            detail.append(", ");
            detail.append(r.detail.as_str());
            let kind = out[k].kind;
            let ghost text = detail@;
            out.set(k, Reason { kind, detail });
            assert(detect::pairs(out@) == done.update(k as int, (kind@, text)));
        }
        i = i + 1;
    }
    out
}

// ───────────────────────── the engine ─────────────────────────

/// What was read of the system for one round.
pub struct Readings {
    pub audio: Outputs<Vec<SessionInput>>,
    pub net: Vec<NetRow>,
    pub cpu: Vec<CpuReading>,
    pub conns: HashMap<u32, u32>,
    pub io: Vec<IoReading>,
    pub hints: Option<Vec<HintFile>>,
    /// The time of the clock that never goes back.
    pub now: u64,
    /// The time of the clock that dates files.
    pub wall: u64,
}

/// What was read of the system for a quick look.
pub struct QuickReadings {
    pub audio: Outputs<Option<Number>>,
    pub net: Vec<NetRow>,
    pub hints: Option<Vec<HintFile>>,
    pub now: u64,
    pub wall: u64,
}

pub struct Engine {
    pub audio: AudioDetector,
    pub net: NetDetector,
    pub proc: ProcDetector,
    pub dl: DlDetector,
    pub hint: HintDetector,
    /// When there was last activity.
    pub last_active: Option<u64>,
    pub in_grace: bool,
    pub held: Held,
    /// Whether a refused request was reported, so that it is not reported again.
    pub hold_warned: bool,
}

/// What the detectors know.
pub struct Detectors {
    pub audio: audio::AudioState,
    pub net: net::NetState,
    pub proc: proc::ProcState,
    pub dl: dl::DlState,
    pub hint: Seq<hint::HintView>,
}

/// What the detectors know before the first round: nothing.
pub open spec fn untried() -> Detectors {
    Detectors {
        audio: audio::AudioState {
            available: false,
            last: Seq::empty(),
            endpoints: 0,
            heard: Map::empty(),
            device_peaks: Seq::empty(),
            device_heard: None,
        },
        net: net::initial(),
        proc: proc::ProcState { cache: Map::empty(), last: Seq::empty() },
        dl: dl::cleared(),
        hint: Seq::empty(),
    }
}

/// What the detectors know after a round.
pub open spec fn detectors_after(
    d: Detectors,
    cfg: Config,
    rows: Seq<(u32, Seq<char>)>,
    r: Readings,
) -> Detectors {
    Detectors {
        audio: audio::after_tick(
            d.audio,
            cfg,
            rows,
            r.audio.available,
            r.audio.count,
            audio::sessions_view(r.audio.readings@),
            r.now,
        ),
        net: net::after_tick(d.net, cfg, r.net@, r.now),
        proc: proc::after_tick(d.proc, cfg, rows, r.cpu@),
        dl: dl::after_tick(d.dl, cfg, rows, r.conns@, r.io@),
        hint: hint::after_tick(cfg, hint::files_of(r.hints), r.wall),
    }
}

/// All reasons of a round, those of one detector behind those of the other.
pub open spec fn all_reasons(
    d: Detectors,
    cfg: Config,
    rows: Seq<(u32, Seq<char>)>,
    r: Readings,
) -> Seq<(Seq<char>, Seq<char>)> {
    let t = detectors_after(d, cfg, rows, r);
    audio::reasons(t.audio.last, cfg, t.audio.last.len()) + net::reasons(d.net, cfg, r.net@, r.now)
        + (if proc::watches(cfg) {
        proc::reasons(t.proc.last, proc::threshold(cfg), t.proc.last.len())
    } else {
        Seq::empty()
    }) + dl::reasons(t.dl.last, cfg, t.dl.last.len()) + hint::reasons(t.hint, t.hint.len())
}

/// The reasons of a round, one for each kind.
pub open spec fn round_reasons(
    d: Detectors,
    cfg: Config,
    rows: Seq<(u32, Seq<char>)>,
    r: Readings,
) -> Seq<(Seq<char>, Seq<char>)> {
    merged(all_reasons(d, cfg, rows, r), all_reasons(d, cfg, rows, r).len())
}

/// Whether a quick look sees a sign of activity: sound, traffic or a hint.
pub open spec fn quick_look(d: Detectors, cfg: Config, q: QuickReadings) -> bool {
    let hints = hint::after_tick(cfg, hint::files_of(q.hints), q.wall);
    ||| audio::probed(d.audio, cfg, q.audio.readings@, q.now)
    ||| net::probed(d.net, cfg, q.net@, q.now)
    ||| hint::reasons(hints, hints.len()).len() > 0
}

/// What the detectors know after a quick look. The first sign ends it: the detectors
/// behind are left as they are.
pub open spec fn detectors_probed(d: Detectors, cfg: Config, q: QuickReadings) -> Detectors {
    let heard = audio::probed(d.audio, cfg, q.audio.readings@, q.now);
    let busy = net::probed(d.net, cfg, q.net@, q.now);
    Detectors {
        audio: audio::after_probe(
            d.audio,
            cfg,
            q.audio.available,
            q.audio.count,
            q.audio.readings@,
            q.now,
        ),
        net: if heard {
            d.net
        } else {
            net::after_probe(d.net, cfg, q.net@, q.now)
        },
        hint: if heard || busy {
            d.hint
        } else {
            hint::after_tick(cfg, hint::files_of(q.hints), q.wall)
        },
        ..d
    }
}

/// A reason as one text.
pub open spec fn reason_text(r: (Seq<char>, Seq<char>)) -> Seq<char> {
    r.0 + ":"@ + r.1
}

pub open spec fn reason_texts(v: Seq<(Seq<char>, Seq<char>)>) -> Seq<Seq<char>> {
    Seq::new(v.len(), |i: int| reason_text(v[i]))
}

/// A round that is decided but whose request has yet to be made.
pub struct Pending {
    /// What is to be held.
    pub desired: Held,
    /// Whether that is something else than what is held.
    pub changed: bool,
    pub mode: Mode,
    pub reasons: Vec<String>,
    pub in_grace: bool,
    pub ac: bool,
    pub display_on: bool,
    pub force_left: Option<u64>,
}

/// A round after its request.
pub struct Settled {
    pub snapshot: Snapshot,
    /// Whether what is held has changed.
    pub changed: bool,
    /// Whether a refused request is to be reported.
    pub warn: bool,
}

/// What is left of a forced mode.
pub open spec fn left_of(mode: Mode, now: u64) -> Option<u64> {
    match mode {
        Mode::Force(until) => Some(detect::elapsed(now, until) as u64),
        _ => None,
    }
}

/// When there was last activity, after a round.
pub open spec fn active_after(last_active: Option<u64>, found: bool, now: u64) -> Option<u64> {
    if found {
        Some(now)
    } else {
        last_active
    }
}

/// Whether the machine counts as plugged in.
pub open spec fn plugged_in(source: PowerSource) -> bool {
    source != PowerSource::Dc
}

/// What a round asks for, given what was found in it and when there was activity before.
pub open spec fn asked_for(
    cfg: Config,
    mode: Mode,
    source: PowerSource,
    display_on: bool,
    found: bool,
    last_active: Option<u64>,
    now: u64,
) -> Held {
    let grace = within_grace(active_after(last_active, found, now), now, cfg);
    wanted(cfg, mode, plugged_in(source), display_on, found || grace, now)
}

/// Whether a round is in the grace period.
pub open spec fn lingers(cfg: Config, found: bool, last_active: Option<u64>, now: u64) -> bool {
    !found && within_grace(active_after(last_active, found, now), now, cfg)
}

/// What is held after a round that asks for something.
pub open spec fn held_after(held: Held, asked: Held, accepted: bool) -> Held {
    if asked != held && accepted {
        asked
    } else {
        held
    }
}

/// Whether a refused request has been reported, after a round that asks for something.
pub open spec fn warned_after(held: Held, asked: Held, accepted: bool, warned: bool) -> bool {
    if asked != held {
        !accepted
    } else {
        warned
    }
}

/// Whether a round reports that its request was refused.
pub open spec fn warns(held: Held, asked: Held, accepted: bool, warned: bool) -> bool {
    asked != held && !accepted && !warned
}

/// The lines of all detectors.
pub open spec fn status_of(d: Detectors, cfg: Config, hints_dir: Seq<char>) -> Seq<Seq<char>> {
    seq!["[audio]"@] + audio::status(d.audio, cfg) + seq!["[net]"@] + net::status(d.net, cfg)
        + seq!["[proc]"@] + proc::status(cfg, d.proc.last) + seq!["[dl]"@] + dl::status(
        cfg,
        d.dl.last,
    ) + seq!["[hint]"@] + hint::status(cfg, hints_dir, d.hint)
}

fn move_reasons(to: &mut Vec<Reason>, from: Vec<Reason>)
    ensures
        detect::pairs(final(to)@) == detect::pairs(old(to)@) + detect::pairs(from@),
{
    let mut from = from;
    let ghost before = to@;
    let ghost added = from@;
    to.append(&mut from);
    assert(to@ == before + added);
    assert(detect::pairs(to@) == detect::pairs(before) + detect::pairs(added));
}

fn reason_strings(v: &Vec<Reason>) -> (out: Vec<String>)
    ensures
        text::views(out@) == reason_texts(detect::pairs(v@)),
{
    let ghost all = detect::pairs(v@);
    let mut out: Vec<String> = Vec::new();
    let mut i: usize = 0;
    assert(text::views(out@) == reason_texts(all).take(0));
    while i < v.len()
        invariant
            i <= v@.len(),
            all == detect::pairs(v@),
            text::views(out@) == reason_texts(all).take(i as int),
        decreases v@.len() - i,
    {
        let mut s = v[i].kind.to_owned();
        s.append(":");
        s.append(v[i].detail.as_str());
        let ghost done = text::views(out@);
        out.push(s);
        assert(text::views(out@) == done.push(reason_text(all[i as int])));
        i = i + 1;
        assert(text::views(out@) == reason_texts(all).take(i as int));
    }
    assert(reason_texts(all).take(i as int) == reason_texts(all));
    out
}

impl Engine {
    pub open spec fn detectors(self) -> Detectors {
        Detectors {
            audio: self.audio.state(),
            net: self.net.state(),
            proc: self.proc.state(),
            dl: self.dl.state(),
            hint: self.hint.state(),
        }
    }

    /// Whether the programs that the detectors keep stand in their order, each once.
    pub open spec fn wf(self) -> bool {
        self.proc.wf() && self.dl.wf()
    }

    pub fn new() -> (e: Engine)
        ensures
            e.wf(),
            e.last_active is None,
            !e.in_grace,
            e.held == Held::Nothing,
            !e.hold_warned,
            e.detectors() == untried(),
    {
        Engine {
            audio: AudioDetector::new(),
            net: NetDetector::new(),
            proc: ProcDetector::new(),
            dl: DlDetector::new(),
            hint: HintDetector::new(),
            last_active: None,
            in_grace: false,
            held: Held::Nothing,
            hold_warned: false,
        }
    }

    pub fn held(&self) -> (h: Held)
        ensures
            h == self.held,
    {
        self.held
    }

    /// Whether the last round was in the grace period.
    pub fn in_grace(&self) -> (r: bool)
        ensures
            r == self.in_grace,
    {
        self.in_grace
    }

    /// Runs all detectors.
    pub fn detect(&mut self, cfg: &Config, table: &ProcessTable, r: &Readings) -> (out: Vec<Reason>)
        ensures
            final(self).wf(),
            final(self).detectors() == detectors_after(
                old(self).detectors(),
                *cfg,
                table.rows(),
                *r,
            ),
            detect::pairs(out@) == round_reasons(old(self).detectors(), *cfg, table.rows(), *r),
            final(self).last_active == old(self).last_active,
            final(self).in_grace == old(self).in_grace,
            final(self).held == old(self).held,
            final(self).hold_warned == old(self).hold_warned,
    {
        let ghost d = self.detectors();
        let mut all = self.audio.tick(cfg, table, &r.audio, r.now);
        let found = self.net.tick(cfg, &r.net, r.now);
        move_reasons(&mut all, found);
        let found = self.proc.tick(cfg, table, &r.cpu);
        move_reasons(&mut all, found);
        let found = self.dl.tick(cfg, table, &r.conns, &r.io);
        move_reasons(&mut all, found);
        let found = self.hint.tick(cfg, &r.hints, r.wall);
        move_reasons(&mut all, found);
        assert(detect::pairs(all@) == all_reasons(d, *cfg, table.rows(), *r));
        assert(detect::pairs(all@).len() == all@.len());
        merge(&all)
    }

    /// A quick look, without listing the processes: whether a full round is called for.
    pub fn probe(&mut self, cfg: &Config, q: &QuickReadings) -> (r: bool)
        ensures
            old(self).wf() ==> final(self).wf(),
            r == quick_look(old(self).detectors(), *cfg, *q),
            final(self).detectors() == detectors_probed(old(self).detectors(), *cfg, *q),
            final(self).last_active == old(self).last_active,
            final(self).in_grace == old(self).in_grace,
            final(self).held == old(self).held,
            final(self).hold_warned == old(self).hold_warned,
    {
        self.audio.probe(cfg, &q.audio, q.now) || self.net.probe(cfg, &q.net, q.now)
            || self.proc.probe(cfg) || self.dl.probe(cfg) || self.hint.probe(cfg, &q.hints, q.wall)
    }

    /// Decides a round from what was found: the grace period, the mode and the policy.
    pub fn step(
        &mut self,
        cfg: &Config,
        mode: Mode,
        display_on: bool,
        reasons: &Vec<Reason>,
        source: PowerSource,
        now: u64,
    ) -> (p: Pending)
        ensures
            ({
                let found = reasons@.len() > 0;
                let active = active_after(old(self).last_active, found, now);
                let grace = !found && within_grace(active, now, *cfg);
                &&& final(self).last_active == active
                &&& final(self).in_grace == grace
                &&& final(self).held == old(self).held
                &&& final(self).hold_warned == old(self).hold_warned
                &&& final(self).detectors() == old(self).detectors()
                &&& old(self).wf() ==> final(self).wf()
                &&& p.ac == (source != PowerSource::Dc)
                &&& p.desired == wanted(*cfg, mode, p.ac, display_on, found || grace, now)
                &&& p.changed == (p.desired != old(self).held)
                &&& p.mode == mode
                &&& text::views(p.reasons@) == reason_texts(detect::pairs(reasons@))
                &&& p.in_grace == grace
                &&& p.display_on == display_on
                &&& p.force_left == left_of(mode, now)
            }),
            p.ac == plugged_in(source),
            p.in_grace == lingers(*cfg, reasons@.len() > 0, old(self).last_active, now),
            p.desired == asked_for(
                *cfg,
                mode,
                source,
                display_on,
                reasons@.len() > 0,
                old(self).last_active,
                now,
            ),
    {
        let found = reasons.len() > 0;
        if found {
            self.last_active = Some(now);
        }
        let in_grace = !found && is_within_grace(self.last_active, now, cfg);
        self.in_grace = in_grace;
        let busy = found || in_grace;
        let ac = match source {
            PowerSource::Dc => false,
            _ => true,
        };
        let desired = match mode {
            Mode::Paused => Held::Nothing,
            Mode::Force(until) => if now < until {
                Held::SystemDisplay
            } else {
                decide(cfg, ac, display_on, busy)
            },
            Mode::Auto => decide(cfg, ac, display_on, busy),
        };
        let force_left = match mode {
            Mode::Force(until) => Some(detect::since(now, until)),
            _ => None,
        };
        Pending {
            desired,
            changed: desired != self.held,
            mode,
            reasons: reason_strings(reasons),
            in_grace,
            ac,
            display_on,
            force_left,
        }
    }

    /// Ends a round, given whether the request was accepted. One that was refused leaves
    /// what is held as it was and is reported once, until one is accepted again.
    pub fn settle(&mut self, p: Pending, accepted: bool) -> (s: Settled)
        ensures
            final(self).held == if p.changed && accepted {
                p.desired
            } else {
                old(self).held
            },
            final(self).hold_warned == if p.changed {
                !accepted
            } else {
                old(self).hold_warned
            },
            final(self).last_active == old(self).last_active,
            final(self).in_grace == old(self).in_grace,
            final(self).detectors() == old(self).detectors(),
            old(self).wf() ==> final(self).wf(),
            s.warn == (p.changed && !accepted && !old(self).hold_warned),
            s.changed == (p.changed && final(self).held == p.desired),
            s.snapshot.held == final(self).held,
            s.snapshot.mode == p.mode,
            s.snapshot.reasons@ == p.reasons@,
            s.snapshot.in_grace == p.in_grace,
            s.snapshot.ac == p.ac,
            s.snapshot.display_on == p.display_on,
            s.snapshot.force_left == p.force_left,
            p.changed == (p.desired != old(self).held) ==> {
                &&& final(self).held == held_after(old(self).held, p.desired, accepted)
                &&& final(self).hold_warned == warned_after(
                    old(self).held,
                    p.desired,
                    accepted,
                    old(self).hold_warned,
                )
                &&& s.warn == warns(old(self).held, p.desired, accepted, old(self).hold_warned)
                &&& s.changed == (final(self).held != old(self).held)
            },
    {
        let mut warn = false;
        if p.changed {
            if accepted {
                self.held = p.desired;
                self.hold_warned = false;
            } else {
                warn = !self.hold_warned;
                self.hold_warned = true;
            }
        }
        let changed = p.changed && self.held == p.desired;
        let snapshot = Snapshot {
            held: self.held,
            mode: p.mode,
            reasons: p.reasons,
            in_grace: p.in_grace,
            ac: p.ac,
            display_on: p.display_on,
            force_left: p.force_left,
        };
        Settled { snapshot, changed, warn }
    }

    /// The lines of all detectors, with the directory of the hints.
    pub fn status_lines(&self, cfg: &Config, hints_dir: &str) -> (lines: Vec<String>)
        ensures
            text::views(lines@) == status_of(self.detectors(), *cfg, hints_dir@),
    {
        let ghost d = self.detectors();
        let mut lines: Vec<String> = Vec::new();
        assert(text::views(lines@) == Seq::<Seq<char>>::empty());
        text::push_text(&mut lines, "[audio]");
        text::move_texts(&mut lines, self.audio.status_lines(cfg));
        text::push_text(&mut lines, "[net]");
        text::move_texts(&mut lines, self.net.status_lines(cfg));
        text::push_text(&mut lines, "[proc]");
        text::move_texts(&mut lines, self.proc.status_lines(cfg));
        text::push_text(&mut lines, "[dl]");
        text::move_texts(&mut lines, self.dl.status_lines(cfg));
        text::push_text(&mut lines, "[hint]");
        text::move_texts(&mut lines, self.hint.status_lines(cfg, hints_dir));
        assert(text::views(lines@) == status_of(d, *cfg, hints_dir@));
        lines
    }
}

} // verus!
