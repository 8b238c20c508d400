//! Programs that play sound, session by session on every output.
//!
//! A program counts while its session is active and has been heard within the hold
//! window. A peak is a momentary reading: quiet passages and the gaps between songs read
//! zero, and without the window the state would flicker.
use std::collections::HashMap;

use vstd::prelude::*;

use crate::config::Config;
use crate::detect;
use crate::detect::{ProcessTable, Reason};
use crate::double;
use crate::double::{Double, Number};
use crate::text;

verus! {

broadcast use vstd::std_specs::hash::group_hash_axioms;

/// What the system says of one audio session.
#[derive(Clone, Copy, Debug)]
pub struct SessionInput {
    /// Zero for the session of the system sounds.
    pub system_sounds: i32,
    /// Nothing where it could not be read.
    pub pid: Option<u32>,
    /// Nothing where it could not be read.
    pub state: Option<i32>,
    /// The peak; nothing where it could not be read, as in exclusive mode.
    pub peak: Option<Number>,
}

/// The outputs and what was read of each.
pub struct Outputs<T> {
    /// Whether the system could be asked at all.
    pub available: bool,
    /// How many outputs there are; nothing where that could not be read.
    pub count: Option<u32>,
    /// What was read of each output.
    pub readings: Vec<T>,
}

/// One session as it was seen.
pub struct SessionRead {
    pub endpoint: u32,
    pub pid: u32,
    pub name: String,
    pub active: bool,
    /// The peak; nothing where it could not be read.
    pub peak: Option<Number>,
    /// How long ago it was last heard, in nanoseconds; nothing where it never was.
    pub quiet_for: Option<u64>,
    pub ignored: bool,
}

/// One session, with its name as a character sequence.
pub struct SessionView {
    pub endpoint: u32,
    pub pid: u32,
    pub name: Seq<char>,
    pub active: bool,
    pub peak: Option<Number>,
    pub quiet_for: Option<u64>,
    pub ignored: bool,
}

impl SessionRead {
    pub open spec fn seen(self) -> SessionView {
        SessionView {
            endpoint: self.endpoint,
            pid: self.pid,
            name: self.name@,
            active: self.active,
            peak: self.peak,
            quiet_for: self.quiet_for,
            ignored: self.ignored,
        }
    }
}

pub open spec fn seen_all(v: Seq<SessionRead>) -> Seq<SessionView> {
    Seq::new(v.len(), |i: int| v[i].seen())
}

/// `windows::Win32::Media::Audio::AudioSessionStateActive`: the state of a session with a
/// running stream. Its value is 1.
#[verifier::external_body]
fn audio_session_state_active() -> (r: i32)
    ensures
        r == 1i32,
{
    windows::Win32::Media::Audio::AudioSessionStateActive.0
}

/// The least peak that is heard.
pub open spec fn threshold(cfg: Config) -> Double {
    cfg.audio_peak_threshold.at_least(double::rounded(1, 1_000_000))
}

fn least_peak(cfg: &Config) -> (r: Double)
    ensures
        r == threshold(*cfg),
{
    cfg.audio_peak_threshold.floored(Double::ratio(1, 1_000_000))
}

/// Whether a session is heard. One whose peak cannot be read is taken to be; a peak below
/// zero says as much.
pub open spec fn loud(peak: Option<Number>, cfg: Config) -> bool {
    match peak {
        Some(p) => p.below_zero() || p.reaches(threshold(cfg)),
        None => true,
    }
}

fn is_loud(peak: Option<Number>, cfg: &Config) -> (r: bool)
    ensures
        r == loud(peak, *cfg),
{
    match peak {
        Some(p) => p.is_below_zero() || p.is_at_least(least_peak(cfg)),
        None => true,
    }
}

/// Whether an output is heard. One whose peak cannot be read is taken to be.
pub open spec fn device_loud(peak: Option<Number>, cfg: Config) -> bool {
    match peak {
        Some(p) => p.reaches(threshold(cfg)),
        None => true,
    }
}

fn is_device_loud(peak: Option<Number>, cfg: &Config) -> (r: bool)
    ensures
        r == device_loud(peak, *cfg),
{
    match peak {
        Some(p) => p.is_at_least(least_peak(cfg)),
        None => true,
    }
}

/// Whether a time in nanoseconds is shorter than the hold window.
pub open spec fn recent(nanos: u64, cfg: Config) -> bool {
    double::seconds(nanos).under(double::rounded(cfg.audio_hold_secs as nat, 1))
}

fn is_recent(nanos: u64, cfg: &Config) -> (r: bool)
    ensures
        r == recent(nanos, *cfg),
{
    double::seconds_of(nanos).less(Double::whole(cfg.audio_hold_secs))
}

/// A window that has room for anything has room for nothing.
proof fn lemma_just_now_is_recent(nanos: u64, cfg: Config)
    requires
        recent(nanos, cfg),
    ensures
        recent(0, cfg),
{
    double::lemma_rounded_nothing(1);
    double::lemma_seconds_of_nothing();
    if cfg.audio_hold_secs == 0 {
        let (n, d) = (double::seconds(nanos).num(), double::seconds(nanos).den());
        let w = double::nothing().den();
        assert(n * w >= 0 * d) by (nonlinear_arith);
    } else {
        double::lemma_fraction_positive(cfg.audio_hold_secs as nat, 1);
    }
}

// ───────────────────────── scanning ─────────────────────────

/// Whether a session is that of a program.
pub open spec fn is_program(s: SessionInput) -> bool {
    s.system_sounds != 0 && s.pid is Some && s.pid->0 != 0
}

/// When each program was last heard, after a session was looked at.
pub open spec fn heard_after(
    heard: Map<u32, u64>,
    s: SessionInput,
    cfg: Config,
    now: u64,
) -> Map<u32, u64> {
    if loud(s.peak, cfg) {
        heard.insert(s.pid->0, now)
    } else {
        heard
    }
}

/// The name of a process, or its id where it is not in the table.
pub open spec fn program_name(rows: Seq<(u32, Seq<char>)>, pid: u32) -> Seq<char> {
    match detect::first_name(rows, pid) {
        Some(name) => name,
        None => "pid"@ + text::dec(pid as nat),
    }
}

/// How long ago a program was heard.
pub open spec fn quiet(heard: Map<u32, u64>, pid: u32, now: u64) -> Option<u64> {
    if heard.contains_key(pid) {
        Some(detect::elapsed(heard[pid], now) as u64)
    } else {
        None
    }
}

/// What is seen of a session, given when each program was last heard.
pub open spec fn session_view(
    heard: Map<u32, u64>,
    s: SessionInput,
    endpoint: u32,
    cfg: Config,
    rows: Seq<(u32, Seq<char>)>,
    now: u64,
) -> SessionView {
    let pid = s.pid->0;
    let name = program_name(rows, pid);
    SessionView {
        endpoint,
        pid,
        name,
        active: s.state == Some(1i32),
        peak: s.peak,
        quiet_for: quiet(heard, pid, now),
        ignored: detect::listed(text::views(cfg.audio_ignore@), name),
    }
}

/// What a scan has gathered so far.
pub struct Scan {
    pub heard: Map<u32, u64>,
    pub reads: Seq<SessionView>,
}

/// The scan after the first `n` sessions of an output.
pub open spec fn scanned_sessions(
    scan: Scan,
    sessions: Seq<SessionInput>,
    endpoint: u32,
    cfg: Config,
    rows: Seq<(u32, Seq<char>)>,
    now: u64,
    n: nat,
) -> Scan
    decreases n,
{
    if n == 0 {
        scan
    } else {
        let before = scanned_sessions(scan, sessions, endpoint, cfg, rows, now, (n - 1) as nat);
        let s = sessions[n - 1];
        if is_program(s) {
            let heard = heard_after(before.heard, s, cfg, now);
            Scan {
                heard,
                reads: before.reads.push(session_view(heard, s, endpoint, cfg, rows, now)),
            }
        } else {
            before
        }
    }
}

/// The scan after the first `n` outputs.
pub open spec fn scanned_outputs(
    scan: Scan,
    outputs: Seq<Seq<SessionInput>>,
    cfg: Config,
    rows: Seq<(u32, Seq<char>)>,
    now: u64,
    n: nat,
) -> Scan
    decreases n,
{
    if n == 0 {
        scan
    } else {
        let before = scanned_outputs(scan, outputs, cfg, rows, now, (n - 1) as nat);
        let sessions = outputs[n - 1];
        scanned_sessions(before, sessions, (n - 1) as u32, cfg, rows, now, sessions.len())
    }
}

/// The programs of the sessions that were seen.
pub open spec fn programs(reads: Seq<SessionView>) -> Set<u32> {
    Seq::new(reads.len(), |i: int| reads[i].pid).to_set()
}

pub open spec fn sessions_view(v: Seq<Vec<SessionInput>>) -> Seq<Seq<SessionInput>> {
    Seq::new(v.len(), |i: int| v[i]@)
}

pub struct AudioDetector {
    /// Whether the system could be asked the last time.
    pub available: bool,
    pub last: Vec<SessionRead>,
    pub endpoints: u32,
    /// When each program was last heard.
    pub last_loud: HashMap<u32, u64>,
    /// The peaks of the outputs at the last quick look.
    pub last_device_peaks: Vec<Number>,
    /// When a quick look last heard anything.
    pub device_last_loud: Option<u64>,
}

/// What a detector knows.
pub struct AudioState {
    pub available: bool,
    pub last: Seq<SessionView>,
    pub endpoints: u32,
    pub heard: Map<u32, u64>,
    pub device_peaks: Seq<Number>,
    pub device_heard: Option<u64>,
}

/// The state after the outputs were listed.
pub open spec fn after_listing(s: AudioState, available: bool, count: Option<u32>) -> AudioState {
    AudioState {
        available,
        endpoints: match count {
            Some(n) => n,
            None => s.endpoints,
        },
        ..s
    }
}

/// The state after a round. A disabled detector forgets the programs.
pub open spec fn after_tick(
    s: AudioState,
    cfg: Config,
    rows: Seq<(u32, Seq<char>)>,
    available: bool,
    count: Option<u32>,
    outputs: Seq<Seq<SessionInput>>,
    now: u64,
) -> AudioState {
    if !cfg.audio_enabled {
        AudioState { last: Seq::empty(), heard: Map::empty(), ..s }
    } else {
        let scan = scanned_outputs(
            Scan { heard: s.heard, reads: Seq::empty() },
            outputs,
            cfg,
            rows,
            now,
            outputs.len(),
        );
        AudioState {
            last: scan.reads,
            heard: scan.heard.restrict(programs(scan.reads)),
            ..after_listing(s, available, count)
        }
    }
}

/// Whether a session counts: it is active, not ignored, and was heard within the window.
pub open spec fn playing(r: SessionView, cfg: Config) -> bool {
    !r.ignored && r.active && match r.quiet_for {
        Some(q) => recent(q, cfg),
        None => false,
    }
}

pub open spec fn detail(r: SessionView) -> Seq<char> {
    match r.peak {
        Some(p) if p.reaches(double::nothing()) => r.name + "("@ + p.text(2) + ")"@,
        _ => r.name + "(exclusive)"@,
    }
}

/// The reasons that the first `n` sessions give.
pub open spec fn reasons(last: Seq<SessionView>, cfg: Config, n: nat) -> Seq<(Seq<char>, Seq<char>)>
    decreases n,
{
    if n == 0 {
        Seq::empty()
    } else {
        let before = reasons(last, cfg, (n - 1) as nat);
        if playing(last[n - 1], cfg) {
            before.push(("audio"@, detail(last[n - 1])))
        } else {
            before
        }
    }
}

/// Whether some output is heard.
pub open spec fn any_loud(peaks: Seq<Option<Number>>, cfg: Config) -> bool {
    exists|i: int| 0 <= i < peaks.len() && device_loud(#[trigger] peaks[i], cfg)
}

/// A peak as it is shown: one that cannot be read as full.
pub open spec fn shown_peak(peak: Option<Number>) -> Number {
    match peak {
        Some(p) => p,
        None => Number::Signed { negative: false, size: double::rounded(1, 1) },
    }
}

/// The state after a quick look.
pub open spec fn after_probe(
    s: AudioState,
    cfg: Config,
    available: bool,
    count: Option<u32>,
    peaks: Seq<Option<Number>>,
    now: u64,
) -> AudioState {
    if !cfg.audio_enabled {
        s
    } else {
        AudioState {
            device_peaks: Seq::new(peaks.len(), |i: int| shown_peak(peaks[i])),
            device_heard: if any_loud(peaks, cfg) {
                Some(now)
            } else {
                s.device_heard
            },
            ..after_listing(s, available, count)
        }
    }
}

/// Whether a quick look hears anything, or has within the window.
pub open spec fn probed(s: AudioState, cfg: Config, peaks: Seq<Option<Number>>, now: u64) -> bool {
    cfg.audio_enabled && (any_loud(peaks, cfg) || match s.device_heard {
        Some(t) => recent(detect::elapsed(t, now) as u64, cfg),
        None => false,
    })
}

// ───────────────────────── showing ─────────────────────────

pub open spec fn peak_text(peak: Option<Number>) -> Seq<char> {
    match peak {
        Some(p) if p.reaches(double::nothing()) => p.text(3),
        _ => "n/a"@,
    }
}

pub open spec fn quiet_text(quiet: Option<u64>) -> Seq<char> {
    match quiet {
        Some(q) => double::seconds(q).text(1) + "s"@,
        None => "never"@,
    }
}

pub open spec fn status_row(r: SessionView) -> Seq<char> {
    "    ep"@ + text::dec(r.endpoint as nat) + " "@ + text::pad_right(r.name, 22) + " pid="@
        + text::pad_right(text::dec(r.pid as nat), 6) + " active="@ + text::pad_right(
        text::truth(r.active),
        5,
    ) + " peak="@ + text::pad_left(peak_text(r.peak), ' ', 7) + " quiet="@ + text::pad_left(
        quiet_text(r.quiet_for),
        ' ',
        6,
    ) + " "@ + if r.ignored {
        "[ignored]"@
    } else {
        ""@
    }
}

pub open spec fn peaks_text(peaks: Seq<Number>) -> Seq<char> {
    if peaks.len() == 0 {
        "-"@
    } else {
        text::join(
            Seq::new(peaks.len(), |i: int| peaks[i].text(3)),
            " "@,
        )
    }
}

pub open spec fn status_head(s: AudioState, cfg: Config) -> Seq<char> {
    "  render endpoints="@ + text::dec(s.endpoints as nat) + "  sessions="@ + text::dec(s.last.len())
        + "  hold="@ + text::dec(cfg.audio_hold_secs as nat) + "s  ignore=["@ + text::join(
        text::views(cfg.audio_ignore@),
        ", "@,
    ) + "]"@
}

/// The lines that show the detector.
pub open spec fn status(s: AudioState, cfg: Config) -> Seq<Seq<char>> {
    if !cfg.audio_enabled {
        seq!["  (disabled)"@]
    } else if !s.available && s.last.len() == 0 {
        seq!["  (enumerator unavailable)"@]
    } else {
        seq![
            status_head(s, cfg),
            "  device peaks (fast probe)="@ + peaks_text(s.device_peaks),
        ] + Seq::new(s.last.len(), |i: int| status_row(s.last[i]))
    }
}

fn detail_string(r: &SessionRead) -> (s: String)
    ensures
        s@ == detail(r.seen()),
{
    let mut s = r.name.as_str().to_owned();
    match r.peak {
        Some(p) => {
            if p.is_at_least(Double::zero()) {
                s.append("(");
                s.append(p.show(2).as_str());
                s.append(")");
            } else {
                s.append("(exclusive)");
            }
        },
        None => {
            s.append("(exclusive)");
        },
    }
    s
}

fn peak_string(peak: Option<Number>) -> (s: String)
    ensures
        s@ == peak_text(peak),
{
    match peak {
        Some(p) => if p.is_at_least(Double::zero()) {
            p.show(3)
        } else {
            "n/a".to_owned()
        },
        None => "n/a".to_owned(),
    }
}

fn quiet_string(quiet: Option<u64>) -> (s: String)
    ensures
        s@ == quiet_text(quiet),
{
    match quiet {
        Some(q) => {
            let mut s = double::seconds_of(q).show(1);
            s.append("s");
            s
        },
        None => "never".to_owned(),
    }
}

fn row_string(r: &SessionRead) -> (s: String)
    ensures
        s@ == status_row(r.seen()),
{
    let mut s = "    ep".to_owned();
    text::push_dec(&mut s, r.endpoint as u128);
    s.append(" ");
    text::push_right_padded(&mut s, r.name.as_str(), 22);
    s.append(" pid=");
    text::push_right_padded(&mut s, text::dec_string(r.pid as u128).as_str(), 6);
    s.append(" active=");
    text::push_right_padded(
        &mut s,
        text::truth_word(r.active),
        5,
    );
    s.append(" peak=");
    text::push_left_padded(&mut s, peak_string(r.peak).as_str(), ' ', 7);
    s.append(" quiet=");
    text::push_left_padded(&mut s, quiet_string(r.quiet_for).as_str(), ' ', 6);
    s.append(" ");
    s.append(
        if r.ignored {
            "[ignored]"
        } else {
            ""
        },
    );
    s
}

fn peaks_string(peaks: &Vec<Number>) -> (s: String)
    ensures
        s@ == peaks_text(peaks@),
{
    if peaks.len() == 0 {
        return "-".to_owned();
    }
    let mut parts: Vec<String> = Vec::new();
    let mut i: usize = 0;
    let ghost all = Seq::new(peaks@.len(), |k: int| peaks@[k].text(3));
    while i < peaks.len()
        invariant
            i <= peaks@.len(),
            all == Seq::new(peaks@.len(), |k: int| peaks@[k].text(3)),
            text::views(parts@) == all.take(i as int),
        decreases peaks@.len() - i,
    {
        let ghost done = text::views(parts@);
        parts.push(peaks[i].show(3));
        assert(text::views(parts@) == done.push(all[i as int]));
        assert(all.take(i + 1) == all.take(i as int).push(all[i as int]));
        i = i + 1;
    }
    assert(all.take(i as int) == all);
    text::join_strings(&parts, " ")
}

fn head_string(endpoints: u32, sessions: usize, cfg: &Config) -> (s: String)
    ensures
        s@ == "  render endpoints="@ + text::dec(endpoints as nat) + "  sessions="@ + text::dec(
            sessions as nat,
        ) + "  hold="@ + text::dec(cfg.audio_hold_secs as nat) + "s  ignore=["@ + text::join(
            text::views(cfg.audio_ignore@),
            ", "@,
        ) + "]"@,
{
    let mut s = "  render endpoints=".to_owned();
    text::push_dec(&mut s, endpoints as u128);
    s.append("  sessions=");
    text::push_dec(&mut s, sessions as u128);
    s.append("  hold=");
    text::push_dec(&mut s, cfg.audio_hold_secs as u128);
    s.append("s  ignore=[");
    s.append(text::join_strings(&cfg.audio_ignore, ", ").as_str());
    s.append("]");
    s
}

// ───────────────────────── the detector ─────────────────────────

fn name_string(table: &ProcessTable, pid: u32) -> (s: String)
    ensures
        s@ == program_name(table.rows(), pid),
{
    match table.name_of(pid) {
        Some(name) => name.to_owned(),
        None => {
            let mut s = "pid".to_owned();
            text::push_dec(&mut s, pid as u128);
            s
        },
    }
}

impl AudioDetector {
    pub open spec fn state(self) -> AudioState {
        AudioState {
            available: self.available,
            last: seen_all(self.last@),
            endpoints: self.endpoints,
            heard: self.last_loud@,
            device_peaks: self.last_device_peaks@,
            device_heard: self.device_last_loud,
        }
    }

    pub fn new() -> (d: AudioDetector)
        ensures
            d.state() == (AudioState {
                available: false,
                last: Seq::empty(),
                endpoints: 0,
                heard: Map::empty(),
                device_peaks: Seq::empty(),
                device_heard: None,
            }),
    {
        let d = AudioDetector {
            available: false,
            last: Vec::new(),
            endpoints: 0,
            last_loud: HashMap::new(),
            last_device_peaks: Vec::new(),
            device_last_loud: None,
        };
        assert(d.state().last == Seq::<SessionView>::empty());
        d
    }

    fn note_outputs(&mut self, available: bool, count: Option<u32>)
        ensures
            final(self).state() == after_listing(old(self).state(), available, count),
    {
        self.available = available;
        if let Some(n) = count {
            self.endpoints = n;
        }
    }

    /// Looks at one session of a program.
    fn read_session(
        &mut self,
        s: SessionInput,
        pid: u32,
        endpoint: u32,
        cfg: &Config,
        table: &ProcessTable,
        now: u64,
    ) -> (r: SessionRead)
        requires
            s.pid == Some(pid),
        ensures
            final(self).last_loud@ == heard_after(old(self).last_loud@, s, *cfg, now),
            r.seen() == session_view(final(self).last_loud@, s, endpoint, *cfg, table.rows(), now),
            final(self).available == old(self).available,
            final(self).last == old(self).last,
            final(self).endpoints == old(self).endpoints,
            final(self).last_device_peaks == old(self).last_device_peaks,
            final(self).device_last_loud == old(self).device_last_loud,
    {
        if is_loud(s.peak, cfg) {
            self.last_loud.insert(pid, now);
        }
        let quiet_for = match self.last_loud.get(&pid) {
            Some(t) => Some(detect::since(*t, now)),
            None => None,
        };
        let name = name_string(table, pid);
        let ignored = detect::is_listed(&cfg.audio_ignore, name.as_str());
        let active = match s.state {
            Some(n) => n == audio_session_state_active(),
            None => false,
        };
        SessionRead { endpoint, pid, name, active, peak: s.peak, quiet_for, ignored }
    }

    /// Looks at all sessions of all outputs, and forgets the programs without one.
    fn scan(
        &mut self,
        cfg: &Config,
        table: &ProcessTable,
        outputs: &Vec<Vec<SessionInput>>,
        now: u64,
    ) -> (reads: Vec<SessionRead>)
        ensures
            ({
                let scan = scanned_outputs(
                    Scan { heard: old(self).last_loud@, reads: Seq::empty() },
                    sessions_view(outputs@),
                    *cfg,
                    table.rows(),
                    now,
                    outputs@.len(),
                );
                &&& seen_all(reads@) == scan.reads
                &&& final(self).last_loud@ == scan.heard.restrict(programs(scan.reads))
            }),
            final(self).available == old(self).available,
            final(self).last == old(self).last,
            final(self).endpoints == old(self).endpoints,
            final(self).last_device_peaks == old(self).last_device_peaks,
            final(self).device_last_loud == old(self).device_last_loud,
    {
        let ghost start = Scan { heard: self.last_loud@, reads: Seq::empty() };
        let ghost views = sessions_view(outputs@);
        let ghost rows = table.rows();
        let mut reads: Vec<SessionRead> = Vec::new();
        let mut seen: Vec<u32> = Vec::new();
        assert(seen_all(reads@) == start.reads);
        let mut ep: usize = 0;
        while ep < outputs.len()
            invariant
                ep <= outputs@.len(),
                views == sessions_view(outputs@),
                rows == table.rows(),
                seen_all(reads@) == scanned_outputs(start, views, *cfg, rows, now, ep as nat).reads,
                self.last_loud@ == scanned_outputs(start, views, *cfg, rows, now, ep as nat).heard,
                seen@ == Seq::new(reads@.len(), |k: int| reads@[k].pid),
                self.available == old(self).available,
                self.last == old(self).last,
                self.endpoints == old(self).endpoints,
                self.last_device_peaks == old(self).last_device_peaks,
                self.device_last_loud == old(self).device_last_loud,
            decreases outputs@.len() - ep,
        {
            let sessions = &outputs[ep];
            let ghost before = scanned_outputs(start, views, *cfg, rows, now, ep as nat);
            let ghost e = ep as u32;
            let mut i: usize = 0;
            while i < sessions.len()
                invariant
                    i <= sessions@.len(),
                    e == ep as u32,
                    rows == table.rows(),
                    seen_all(reads@) == scanned_sessions(
                        before,
                        sessions@,
                        e,
                        *cfg,
                        rows,
                        now,
                        i as nat,
                    ).reads,
                    self.last_loud@ == scanned_sessions(
                        before,
                        sessions@,
                        e,
                        *cfg,
                        rows,
                        now,
                        i as nat,
                    ).heard,
                    seen@ == Seq::new(reads@.len(), |k: int| reads@[k].pid),
                    self.available == old(self).available,
                    self.last == old(self).last,
                    self.endpoints == old(self).endpoints,
                    self.last_device_peaks == old(self).last_device_peaks,
                    self.device_last_loud == old(self).device_last_loud,
                decreases sessions@.len() - i,
            {
                let s: SessionInput = sessions[i];
                let ghost done = seen_all(reads@);
                if s.system_sounds != 0 {
                    if let Some(pid) = s.pid {
                        if pid != 0 {
                            let r = self.read_session(s, pid, ep as u32, cfg, table, now);
                            let ghost v = r.seen();
                            seen.push(pid);
                            reads.push(r);
                            assert(seen_all(reads@) == done.push(v));
                            assert(seen@ == Seq::new(reads@.len(), |k: int| reads@[k].pid));
                        }
                    }
                }
                i = i + 1;
            }
            ep = ep + 1;
        }
        let kept = detect::retain(&self.last_loud, &seen);
        self.last_loud = kept;
        proof {
            let all = seen_all(reads@);
            assert(seen@ == Seq::new(all.len(), |k: int| all[k].pid));
        }
        reads
    }

    /// A quick look at the peaks of the outputs. It cannot tell programs apart, so it may
    /// hear one that is ignored; a round sorts that out. What it must not do is miss one,
    /// which is why a peak that cannot be read counts as heard.
    pub fn probe(&mut self, cfg: &Config, outputs: &Outputs<Option<Number>>, now: u64) -> (r: bool)
        ensures
            final(self).state() == after_probe(
                old(self).state(),
                *cfg,
                outputs.available,
                outputs.count,
                outputs.readings@,
                now,
            ),
            r == probed(old(self).state(), *cfg, outputs.readings@, now),
    {
        if !cfg.audio_enabled {
            return false;
        }
        self.note_outputs(outputs.available, outputs.count);
        let mut peaks: Vec<Number> = Vec::new();
        let mut heard = false;
        let mut i: usize = 0;
        while i < outputs.readings.len()
            invariant
                i <= outputs.readings@.len(),
                peaks@ == Seq::new(i as nat, |k: int| shown_peak(outputs.readings@[k])),
                heard == exists|k: int| 0 <= k < i && device_loud(#[trigger] outputs.readings@[k], *cfg),
            decreases outputs.readings@.len() - i,
        {
            let peak: Option<Number> = outputs.readings[i];
            peaks.push(
                match peak {
                    Some(p) => p,
                    None => Number::Signed { negative: false, size: Double::whole(1) },
                },
            );
            assert(device_loud(outputs.readings@[i as int], *cfg) == device_loud(peak, *cfg));
            if is_device_loud(peak, cfg) {
                heard = true;
            }
            i = i + 1;
            assert(peaks@ == Seq::new(i as nat, |k: int| shown_peak(outputs.readings@[k])));
        }
        self.last_device_peaks = peaks;
        if heard {
            self.device_last_loud = Some(now);
            return true;
        }
        match self.device_last_loud {
            Some(t) => is_recent(detect::since(t, now), cfg),
            None => false,
        }
    }

    /// One round over the sessions of all outputs.
    pub fn tick(
        &mut self,
        cfg: &Config,
        table: &ProcessTable,
        outputs: &Outputs<Vec<SessionInput>>,
        now: u64,
    ) -> (out: Vec<Reason>)
        ensures
            final(self).state() == after_tick(
                old(self).state(),
                *cfg,
                table.rows(),
                outputs.available,
                outputs.count,
                sessions_view(outputs.readings@),
                now,
            ),
            detect::pairs(out@) == reasons(
                final(self).state().last,
                *cfg,
                final(self).state().last.len(),
            ),
    {
        let mut out: Vec<Reason> = Vec::new();
        assert(detect::pairs(out@) == Seq::<(Seq<char>, Seq<char>)>::empty());
        if !cfg.audio_enabled {
            self.last = Vec::new();
            self.last_loud = HashMap::new();
            assert(self.state().last == Seq::<SessionView>::empty());
            return out;
        }
        self.note_outputs(outputs.available, outputs.count);
        let reads = self.scan(cfg, table, &outputs.readings, now);
        let ghost view = seen_all(reads@);
        let mut i: usize = 0;
        while i < reads.len()
            invariant
                i <= reads@.len(),
                view == seen_all(reads@),
                detect::pairs(out@) == reasons(view, *cfg, i as nat),
            decreases reads@.len() - i,
        {
            let ghost done = detect::pairs(out@);
            let r = &reads[i];
            let recent = match r.quiet_for {
                Some(q) => is_recent(q, cfg),
                None => false,
            };
            if !r.ignored && r.active && recent {
                out.push(Reason { kind: "audio", detail: detail_string(r) });
                assert(detect::pairs(out@) == done.push(("audio"@, detail(view[i as int]))));
            }
            i = i + 1;
        }
        self.last = reads;
        out
    }

    pub fn status_lines(&self, cfg: &Config) -> (lines: Vec<String>)
        ensures
            text::views(lines@) == status(self.state(), *cfg),
    {
        let ghost view = seen_all(self.last@);
        let mut lines: Vec<String> = Vec::new();
        if !cfg.audio_enabled {
            lines.push("  (disabled)".to_owned());
            assert(text::views(lines@) == seq!["  (disabled)"@]);
            return lines;
        }
        if !self.available && self.last.len() == 0 {
            lines.push("  (enumerator unavailable)".to_owned());
            assert(text::views(lines@) == seq!["  (enumerator unavailable)"@]);
            return lines;
        }
        lines.push(head_string(self.endpoints, self.last.len(), cfg));
        let mut second = "  device peaks (fast probe)=".to_owned();
        second.append(peaks_string(&self.last_device_peaks).as_str());
        lines.push(second);
        let ghost first = seq![
            status_head(self.state(), *cfg),
            "  device peaks (fast probe)="@ + peaks_text(self.last_device_peaks@),
        ];
        let mut i: usize = 0;
        assert(text::views(lines@) == first + Seq::new(0, |k: int| status_row(view[k])));
        while i < self.last.len()
            invariant
                i <= self.last@.len(),
                view == seen_all(self.last@),
                text::views(lines@) == first + Seq::new(i as nat, |k: int| status_row(view[k])),
            decreases self.last@.len() - i,
        {
            let ghost done = text::views(lines@);
            lines.push(row_string(&self.last[i]));
            assert(text::views(lines@) == done.push(status_row(view[i as int])));
            i = i + 1;
            assert(text::views(lines@) == first + Seq::new(i as nat, |k: int| status_row(view[k])));
        }
        lines
    }
}

// ───────────────────────── laws ─────────────────────────

/// A program that was heard less than the hold window ago counts, though it is silent
/// just now.
pub proof fn law_the_window_bridges_pauses(
    heard: Map<u32, u64>,
    s: SessionInput,
    endpoint: u32,
    cfg: Config,
    rows: Seq<(u32, Seq<char>)>,
    now: u64,
)
    requires
        is_program(s),
        s.state == Some(1i32),
        heard.contains_key(s.pid->0),
        recent(detect::elapsed(heard[s.pid->0], now) as u64, cfg),
        !detect::listed(text::views(cfg.audio_ignore@), program_name(rows, s.pid->0)),
    ensures
        playing(session_view(heard_after(heard, s, cfg, now), s, endpoint, cfg, rows, now), cfg),
{
    lemma_just_now_is_recent(detect::elapsed(heard[s.pid->0], now) as u64, cfg);
}

/// Ignored programs give no reason, however loud.
pub proof fn law_ignored_programs_give_no_reason(last: Seq<SessionView>, cfg: Config, n: nat)
    requires
        n <= last.len(),
        forall|i: int| 0 <= i < last.len() ==> (#[trigger] last[i]).ignored,
    ensures
        reasons(last, cfg, n) == Seq::<(Seq<char>, Seq<char>)>::empty(),
    decreases n,
{
    if n > 0 {
        law_ignored_programs_give_no_reason(last, cfg, (n - 1) as nat);
        assert(last[n - 1].ignored);
    }
}

/// A quick look that hears an output says so, and so does every one within the hold
/// window after it, however silent.
pub proof fn law_the_quick_look_holds_too(
    s: AudioState,
    cfg: Config,
    available: bool,
    count: Option<u32>,
    peaks: Seq<Option<Number>>,
    now: u64,
    silence: Seq<Option<Number>>,
    later: u64,
)
    requires
        cfg.audio_enabled,
        any_loud(peaks, cfg),
        recent(detect::elapsed(now, later) as u64, cfg),
    ensures
        probed(s, cfg, peaks, now),
        probed(after_probe(s, cfg, available, count, peaks, now), cfg, silence, later),
{
}

} // verus!
