//! What holds of the programs that play sound.
use vstd::prelude::*;

use crate::config::Config;
use crate::detect;
use crate::detect::audio;
use crate::detect::audio::{AudioState, Scan, SessionInput, SessionView};
use crate::detect::told;
use crate::double;
use crate::double::{Double, Number};
use crate::double_laws;
use crate::text;

verus! {

// ───────────────────────── what is heard ─────────────────────────

/// Whether a level that is not negative is as high as the configuration asks: at least the
/// configured one, if that is a number, and never less than a millionth of full scale.
pub open spec fn high(level: Double, configured: Number) -> bool {
    &&& !level.under(double::rounded(1, 1_000_000))
    &&& match configured {
        Number::Signed { negative, size } => negative || !level.under(size),
        Number::Nan => true,
    }
}

proof fn lemma_high(level: Double, cfg: Config)
    ensures
        !level.under(audio::threshold(cfg)) <==> high(level, cfg.audio_peak_threshold),
{
    let floor = double::rounded(1, 1_000_000);
    match cfg.audio_peak_threshold {
        Number::Signed { negative, size } => {
            if !negative {
                if size.under(floor) {
                    if !level.under(floor) {
                        double_laws::law_order_is_transitive(size, floor, level);
                    }
                } else if !level.under(size) {
                    double_laws::law_order_is_transitive(floor, size, level);
                }
            }
        },
        Number::Nan => {},
    }
}

/// A peak that can be read is heard where it is at least the larger of the configured
/// threshold and a millionth, and not where it is from zero up to below that. A peak that
/// cannot be read, or is below zero, is taken to be heard.
pub proof fn law_a_session_is_heard_from_the_threshold_on(level: Double, cfg: Config)
    ensures
        audio::loud(Some(Number::Signed { negative: false, size: level }), cfg) <==> high(
            level,
            cfg.audio_peak_threshold,
        ),
        !level.is_zero() ==> audio::loud(
            Some(Number::Signed { negative: true, size: level }),
            cfg,
        ),
        audio::loud(None, cfg),
        !audio::loud(Some(Number::Nan), cfg),
{
    lemma_high(level, cfg);
}

/// An output is heard like a session, and where its peak cannot be read.
pub proof fn law_an_output_is_heard_from_the_threshold_on(level: Double, cfg: Config)
    ensures
        audio::device_loud(Some(Number::Signed { negative: false, size: level }), cfg) <==> high(
            level,
            cfg.audio_peak_threshold,
        ),
        audio::device_loud(None, cfg),
        !audio::device_loud(Some(Number::Nan), cfg),
{
    lemma_high(level, cfg);
}

/// A louder session is never less heard than one that is not as loud.
pub proof fn law_louder_is_heard_too(level: Double, louder: Double, cfg: Config)
    requires
        !louder.under(level),
        audio::loud(Some(Number::Signed { negative: false, size: level }), cfg),
    ensures
        audio::loud(Some(Number::Signed { negative: false, size: louder }), cfg),
{
    double_laws::law_order_is_transitive(audio::threshold(cfg), level, louder);
}

/// The hold window is as many seconds as configured, to the nanosecond.
pub proof fn law_the_hold_window_is_as_configured(nanos: u64, cfg: Config)
    requires
        cfg.audio_hold_secs < 0x40_0000,
    ensures
        audio::recent(nanos, cfg) <==> nanos < cfg.audio_hold_secs * 1_000_000_000,
{
    double_laws::law_seconds_compare_like_nanoseconds(nanos, cfg.audio_hold_secs as nat);
}

// ───────────────────────── the reasons ─────────────────────────

/// What is told of a session: its program and its peak, or that it is exclusive where that
/// cannot be read.
pub open spec fn said(r: SessionView) -> (Seq<char>, Seq<char>) {
    (
        "audio"@,
        r.name + match r.peak {
            Some(p) => match p {
                Number::Signed { negative, size } => if !negative || size.is_zero() {
                    "("@ + p.text(2) + ")"@
                } else {
                    "(exclusive)"@
                },
                Number::Nan => "(exclusive)"@,
            },
            None => "(exclusive)"@,
        },
    )
}

/// Every session that is active, not ignored, and of a program heard within the hold
/// window gives one reason, and no other session gives one.
pub proof fn law_every_playing_session_is_told(last: Seq<SessionView>, cfg: Config)
    requires
        cfg.audio_hold_secs < 0x40_0000,
    ensures
        told::one_each(
            last,
            |r: SessionView|
                r.active && !r.ignored && r.quiet_for is Some && r.quiet_for->0
                    < cfg.audio_hold_secs * 1_000_000_000,
            |r: SessionView| said(r),
            audio::reasons(last, cfg, last.len()),
        ),
{
    let counts = |r: SessionView|
        r.active && !r.ignored && r.quiet_for is Some && r.quiet_for->0 < cfg.audio_hold_secs
            * 1_000_000_000;
    let say = |r: SessionView| said(r);
    lemma_reasons(last, cfg, counts, say, last.len());
    told::lemma_one_each(last, counts, say);
}

proof fn lemma_detail(r: SessionView)
    ensures
        said(r) == ("audio"@, audio::detail(r)),
{
    double::lemma_rounded_nothing(1);
    match r.peak {
        Some(p) => {
            match p {
                Number::Signed { negative, size } => {
                    if !negative {
                        lemma_not_under_nothing(size);
                    }
                },
                Number::Nan => {},
            }
            assert(r.name + ("("@ + p.text(2) + ")"@) =~= r.name + "("@ + p.text(2) + ")"@);
        },
        None => {},
    }
}

proof fn lemma_not_under_nothing(d: Double)
    ensures
        !d.under(double::nothing()),
{
    double::lemma_rounded_nothing(1);
    let (n, k, m) = (d.num(), d.den(), double::nothing().den());
    assert(n * m >= 0 * k) by (nonlinear_arith);
}

proof fn lemma_reasons(
    last: Seq<SessionView>,
    cfg: Config,
    counts: spec_fn(SessionView) -> bool,
    say: spec_fn(SessionView) -> (Seq<char>, Seq<char>),
    n: nat,
)
    requires
        n <= last.len(),
        cfg.audio_hold_secs < 0x40_0000,
        forall|r: SessionView| #[trigger]
            counts(r) == (r.active && !r.ignored && r.quiet_for is Some && r.quiet_for->0
                < cfg.audio_hold_secs * 1_000_000_000),
        forall|r: SessionView| #[trigger] say(r) == said(r),
    ensures
        audio::reasons(last, cfg, n) == told::told(last, counts, say, n),
    decreases n,
{
    if n > 0 {
        lemma_reasons(last, cfg, counts, say, (n - 1) as nat);
        let r = last[n - 1];
        lemma_detail(r);
        if r.quiet_for is Some {
            law_the_hold_window_is_as_configured(r.quiet_for->0, cfg);
        }
    }
}

// ───────────────────────── a round ─────────────────────────

/// Whether one of the first `n` sessions of an output is a heard one of a program.
pub open spec fn heard_among(sessions: Seq<SessionInput>, cfg: Config, pid: u32, n: nat) -> bool {
    exists|i: int|
        0 <= i < n && (#[trigger] sessions[i]).system_sounds != 0 && sessions[i].pid == Some(pid)
            && pid != 0 && audio::loud(sessions[i].peak, cfg)
}

/// Whether one of the first `n` outputs has a heard session of a program.
pub open spec fn heard_in(
    outputs: Seq<Seq<SessionInput>>,
    cfg: Config,
    pid: u32,
    n: nat,
) -> bool {
    exists|k: int|
        0 <= k < n && #[trigger] heard_among(outputs[k], cfg, pid, outputs[k].len())
}

proof fn lemma_sessions(
    scan: Scan,
    sessions: Seq<SessionInput>,
    endpoint: u32,
    cfg: Config,
    rows: Seq<(u32, Seq<char>)>,
    now: u64,
    n: nat,
    pid: u32,
)
    requires
        n <= sessions.len(),
    ensures
        ({
            let t = audio::scanned_sessions(scan, sessions, endpoint, cfg, rows, now, n);
            &&& heard_among(sessions, cfg, pid, n) ==> t.heard.contains_key(pid) && t.heard[pid]
                == now
            &&& !heard_among(sessions, cfg, pid, n) ==> t.heard.contains_key(pid)
                == scan.heard.contains_key(pid) && (scan.heard.contains_key(pid) ==> t.heard[pid]
                == scan.heard[pid])
            &&& scan.reads.len() <= t.reads.len()
            &&& forall|k: int| 0 <= k < scan.reads.len() ==> #[trigger] t.reads[k] == scan.reads[k]
        }),
    decreases n,
{
    if n > 0 {
        let p = (n - 1) as nat;
        lemma_sessions(scan, sessions, endpoint, cfg, rows, now, p, pid);
        let s = sessions[n - 1];
        let hit = s.system_sounds != 0 && s.pid == Some(pid) && pid != 0 && audio::loud(s.peak, cfg);
        if hit {
            assert(sessions[n - 1].system_sounds != 0);
            assert(heard_among(sessions, cfg, pid, n));
        } else if heard_among(sessions, cfg, pid, p) {
            let i = choose|i: int|
                0 <= i < p && (#[trigger] sessions[i]).system_sounds != 0 && sessions[i].pid == Some(
                    pid,
                ) && pid != 0 && audio::loud(sessions[i].peak, cfg);
            assert(sessions[i].system_sounds != 0);
            assert(heard_among(sessions, cfg, pid, n));
        } else if heard_among(sessions, cfg, pid, n) {
            let i = choose|i: int|
                0 <= i < n && (#[trigger] sessions[i]).system_sounds != 0 && sessions[i].pid == Some(
                    pid,
                ) && pid != 0 && audio::loud(sessions[i].peak, cfg);
            assert(i < p);
            assert(heard_among(sessions, cfg, pid, p));
        }
    }
}

proof fn lemma_outputs(
    scan: Scan,
    outputs: Seq<Seq<SessionInput>>,
    cfg: Config,
    rows: Seq<(u32, Seq<char>)>,
    now: u64,
    n: nat,
    pid: u32,
)
    requires
        n <= outputs.len(),
    ensures
        ({
            let t = audio::scanned_outputs(scan, outputs, cfg, rows, now, n);
            &&& heard_in(outputs, cfg, pid, n) ==> t.heard.contains_key(pid) && t.heard[pid] == now
            &&& !heard_in(outputs, cfg, pid, n) ==> t.heard.contains_key(pid)
                == scan.heard.contains_key(pid) && (scan.heard.contains_key(pid) ==> t.heard[pid]
                == scan.heard[pid])
            &&& scan.reads.len() <= t.reads.len()
            &&& forall|k: int| 0 <= k < scan.reads.len() ==> #[trigger] t.reads[k] == scan.reads[k]
        }),
    decreases n,
{
    if n > 0 {
        let p = (n - 1) as nat;
        lemma_outputs(scan, outputs, cfg, rows, now, p, pid);
        let before = audio::scanned_outputs(scan, outputs, cfg, rows, now, p);
        let sessions = outputs[n - 1];
        lemma_sessions(before, sessions, (n - 1) as u32, cfg, rows, now, sessions.len(), pid);
        if heard_among(outputs[n - 1], cfg, pid, outputs[n - 1].len()) {
            assert(heard_in(outputs, cfg, pid, n));
        } else if heard_in(outputs, cfg, pid, p) {
            let k = choose|k: int|
                0 <= k < p && #[trigger] heard_among(outputs[k], cfg, pid, outputs[k].len());
            assert(heard_among(outputs[k], cfg, pid, outputs[k].len()));
            assert(heard_in(outputs, cfg, pid, n));
        } else if heard_in(outputs, cfg, pid, n) {
            let k = choose|k: int|
                0 <= k < n && #[trigger] heard_among(outputs[k], cfg, pid, outputs[k].len());
            assert(k < p);
            assert(heard_in(outputs, cfg, pid, p));
        }
    }
}

/// Whether a session was read: what is known of it is what the system says, with the name
/// from the table, and with the time since its program was heard: none where it is heard
/// itself, otherwise the time since then, or since a session before it was heard.
pub open spec fn read_as(
    r: SessionView,
    s: SessionInput,
    endpoint: u32,
    before: Map<u32, u64>,
    cfg: Config,
    rows: Seq<(u32, Seq<char>)>,
    now: u64,
) -> bool {
    &&& r.endpoint == endpoint
    &&& Some(r.pid) == s.pid
    &&& r.name == audio::program_name(rows, r.pid)
    &&& r.active == (s.state == Some(1i32))
    &&& r.peak == s.peak
    &&& r.ignored == (exists|i: int|
        0 <= i < cfg.audio_ignore@.len() && text::same_ignoring_case(
            (#[trigger] cfg.audio_ignore@[i])@,
            r.name,
        ))
    &&& audio::loud(s.peak, cfg) ==> r.quiet_for == Some(0u64)
    &&& r.quiet_for == Some(0u64) || r.quiet_for == (if before.contains_key(r.pid) {
        Some(detect::elapsed(before[r.pid], now) as u64)
    } else {
        None
    })
}

proof fn lemma_listed(cfg: Config, name: Seq<char>)
    ensures
        detect::listed(text::views(cfg.audio_ignore@), name) <==> exists|i: int|
            0 <= i < cfg.audio_ignore@.len() && text::same_ignoring_case(
                (#[trigger] cfg.audio_ignore@[i])@,
                name,
            ),
{
    let all = text::views(cfg.audio_ignore@);
    assert(all.len() == cfg.audio_ignore@.len());
    if detect::listed(all, name) {
        let i = choose|i: int|
            0 <= i < all.len() && text::same_ignoring_case(#[trigger] all[i], name);
        assert(all[i] == cfg.audio_ignore@[i]@);
    }
    if exists|i: int|
        0 <= i < cfg.audio_ignore@.len() && text::same_ignoring_case(
            (#[trigger] cfg.audio_ignore@[i])@,
            name,
        ) {
        let i = choose|i: int|
            0 <= i < cfg.audio_ignore@.len() && text::same_ignoring_case(
                (#[trigger] cfg.audio_ignore@[i])@,
                name,
            );
        assert(all[i] == cfg.audio_ignore@[i]@);
    }
}

proof fn lemma_session_read(
    scan: Scan,
    sessions: Seq<SessionInput>,
    endpoint: u32,
    cfg: Config,
    rows: Seq<(u32, Seq<char>)>,
    now: u64,
    n: nat,
    i: int,
    before: Map<u32, u64>,
) -> (k: int)
    requires
        0 <= i < n <= sessions.len(),
        sessions[i].system_sounds != 0,
        sessions[i].pid is Some,
        sessions[i].pid->0 != 0,
        ({
            let pid = sessions[i].pid->0;
            scan.heard.contains_key(pid) == before.contains_key(pid) && (before.contains_key(pid)
                ==> scan.heard[pid] == before[pid]) || (scan.heard.contains_key(pid)
                && scan.heard[pid] == now)
        }),
    ensures
        ({
            let t = audio::scanned_sessions(scan, sessions, endpoint, cfg, rows, now, n);
            0 <= k < t.reads.len() && read_as(
                t.reads[k],
                sessions[i],
                endpoint,
                before,
                cfg,
                rows,
                now,
            )
        }),
    decreases n,
{
    let p = (n - 1) as nat;
    let s = sessions[n - 1];
    let b = audio::scanned_sessions(scan, sessions, endpoint, cfg, rows, now, p);
    let pid = sessions[i].pid->0;
    lemma_sessions(scan, sessions, endpoint, cfg, rows, now, p, pid);
    if i == n - 1 {
        lemma_listed(cfg, audio::program_name(rows, pid));
        b.reads.len() as int
    } else {
        lemma_session_read(scan, sessions, endpoint, cfg, rows, now, p, i, before)
    }
}

proof fn lemma_output_read(
    scan: Scan,
    outputs: Seq<Seq<SessionInput>>,
    cfg: Config,
    rows: Seq<(u32, Seq<char>)>,
    now: u64,
    n: nat,
    ep: int,
    i: int,
) -> (k: int)
    requires
        0 <= ep < n <= outputs.len(),
        0 <= i < outputs[ep].len(),
        outputs[ep][i].system_sounds != 0,
        outputs[ep][i].pid is Some,
        outputs[ep][i].pid->0 != 0,
    ensures
        ({
            let t = audio::scanned_outputs(scan, outputs, cfg, rows, now, n);
            0 <= k < t.reads.len() && read_as(
                t.reads[k],
                outputs[ep][i],
                ep as u32,
                scan.heard,
                cfg,
                rows,
                now,
            )
        }),
    decreases n,
{
    let p = (n - 1) as nat;
    let b = audio::scanned_outputs(scan, outputs, cfg, rows, now, p);
    let pid = outputs[ep][i].pid->0;
    let sessions = outputs[n - 1];
    lemma_outputs(scan, outputs, cfg, rows, now, p, pid);
    lemma_sessions(b, sessions, (n - 1) as u32, cfg, rows, now, sessions.len(), pid);
    if ep == n - 1 {
        lemma_session_read(
            b,
            sessions,
            (n - 1) as u32,
            cfg,
            rows,
            now,
            sessions.len(),
            i,
            scan.heard,
        )
    } else {
        lemma_output_read(scan, outputs, cfg, rows, now, p, ep, i)
    }
}

/// A round reads every session of a program: what it knows holds the session as the system
/// tells of it.
pub proof fn law_a_round_reads_every_session(
    s: AudioState,
    cfg: Config,
    rows: Seq<(u32, Seq<char>)>,
    available: bool,
    count: Option<u32>,
    outputs: Seq<Seq<SessionInput>>,
    now: u64,
    ep: int,
    i: int,
)
    requires
        cfg.audio_enabled,
        0 <= ep < outputs.len(),
        0 <= i < outputs[ep].len(),
        outputs[ep][i].system_sounds != 0,
        outputs[ep][i].pid is Some,
        outputs[ep][i].pid->0 != 0,
    ensures
        exists|k: int|
            0 <= k < audio::after_tick(s, cfg, rows, available, count, outputs, now).last.len()
                && read_as(
                #[trigger] audio::after_tick(
                    s,
                    cfg,
                    rows,
                    available,
                    count,
                    outputs,
                    now,
                ).last[k],
                outputs[ep][i],
                ep as u32,
                s.heard,
                cfg,
                rows,
                now,
            ),
{
    let start = Scan { heard: s.heard, reads: Seq::empty() };
    let k = lemma_output_read(start, outputs, cfg, rows, now, outputs.len(), ep, i);
    let last = audio::after_tick(s, cfg, rows, available, count, outputs, now).last;
    assert(read_as(last[k], outputs[ep][i], ep as u32, s.heard, cfg, rows, now));
}

/// Whether a session of a program that is not ignored is active.
pub open spec fn active_session(
    s: SessionInput,
    pid: u32,
    cfg: Config,
    rows: Seq<(u32, Seq<char>)>,
) -> bool {
    &&& s.system_sounds != 0
    &&& s.pid == Some(pid)
    &&& pid != 0
    &&& s.state == Some(1i32)
    &&& forall|i: int|
        0 <= i < cfg.audio_ignore@.len() ==> !text::same_ignoring_case(
            (#[trigger] cfg.audio_ignore@[i])@,
            audio::program_name(rows, pid),
        )
}

proof fn lemma_playing(last: Seq<SessionView>, k: int, cfg: Config)
    requires
        cfg.audio_hold_secs < 0x40_0000,
        0 <= k < last.len(),
        last[k].active,
        !last[k].ignored,
        last[k].quiet_for is Some,
        last[k].quiet_for->0 < cfg.audio_hold_secs * 1_000_000_000,
    ensures
        audio::reasons(last, cfg, last.len()).contains(said(last[k])),
{
    law_every_playing_session_is_told(last, cfg);
    let counts = |r: SessionView|
        r.active && !r.ignored && r.quiet_for is Some && r.quiet_for->0 < cfg.audio_hold_secs
            * 1_000_000_000;
    let say = |r: SessionView| said(r);
    assert(counts(last[k]));
    assert(say(last[k]) == said(last[k]));
}

/// A program that is heard keeps the machine awake in the very round that reads it: an
/// active session that is not ignored, with a peak of at least the larger of the configured
/// threshold and a millionth, gives a reason with that peak.
pub proof fn law_a_heard_program_is_told_at_once(
    s: AudioState,
    cfg: Config,
    rows: Seq<(u32, Seq<char>)>,
    available: bool,
    count: Option<u32>,
    outputs: Seq<Seq<SessionInput>>,
    now: u64,
    ep: int,
    i: int,
    pid: u32,
    level: Double,
)
    requires
        cfg.audio_enabled,
        0 < cfg.audio_hold_secs < 0x40_0000,
        0 <= ep < outputs.len(),
        0 <= i < outputs[ep].len(),
        active_session(outputs[ep][i], pid, cfg, rows),
        outputs[ep][i].peak == Some(Number::Signed { negative: false, size: level }),
        high(level, cfg.audio_peak_threshold),
    ensures
        ({
            let last = audio::after_tick(s, cfg, rows, available, count, outputs, now).last;
            audio::reasons(last, cfg, last.len()).contains(
                (
                    "audio"@,
                    audio::program_name(rows, pid) + ("("@ + (Number::Signed {
                        negative: false,
                        size: level,
                    }).text(2) + ")"@),
                ),
            )
        }),
{
    law_a_session_is_heard_from_the_threshold_on(level, cfg);
    law_a_round_reads_every_session(s, cfg, rows, available, count, outputs, now, ep, i);
    let last = audio::after_tick(s, cfg, rows, available, count, outputs, now).last;
    let k = choose|k: int|
        0 <= k < last.len() && read_as(
            #[trigger] last[k],
            outputs[ep][i],
            ep as u32,
            s.heard,
            cfg,
            rows,
            now,
        );
    lemma_playing(last, k, cfg);
}

/// A program whose peak cannot be read counts while its session is active.
pub proof fn law_an_exclusive_program_is_told(
    s: AudioState,
    cfg: Config,
    rows: Seq<(u32, Seq<char>)>,
    available: bool,
    count: Option<u32>,
    outputs: Seq<Seq<SessionInput>>,
    now: u64,
    ep: int,
    i: int,
    pid: u32,
)
    requires
        cfg.audio_enabled,
        0 < cfg.audio_hold_secs < 0x40_0000,
        0 <= ep < outputs.len(),
        0 <= i < outputs[ep].len(),
        active_session(outputs[ep][i], pid, cfg, rows),
        outputs[ep][i].peak is None,
    ensures
        ({
            let last = audio::after_tick(s, cfg, rows, available, count, outputs, now).last;
            audio::reasons(last, cfg, last.len()).contains(
                ("audio"@, audio::program_name(rows, pid) + "(exclusive)"@),
            )
        }),
{
    law_a_session_is_heard_from_the_threshold_on(double::nothing(), cfg);
    law_a_round_reads_every_session(s, cfg, rows, available, count, outputs, now, ep, i);
    let last = audio::after_tick(s, cfg, rows, available, count, outputs, now).last;
    let k = choose|k: int|
        0 <= k < last.len() && read_as(
            #[trigger] last[k],
            outputs[ep][i],
            ep as u32,
            s.heard,
            cfg,
            rows,
            now,
        );
    lemma_playing(last, k, cfg);
}

/// A program that was heard less than the hold window ago still counts, whatever its
/// active session reads now.
pub proof fn law_a_program_heard_before_is_told(
    s: AudioState,
    cfg: Config,
    rows: Seq<(u32, Seq<char>)>,
    available: bool,
    count: Option<u32>,
    outputs: Seq<Seq<SessionInput>>,
    now: u64,
    ep: int,
    i: int,
    pid: u32,
)
    requires
        cfg.audio_enabled,
        cfg.audio_hold_secs < 0x40_0000,
        0 <= ep < outputs.len(),
        0 <= i < outputs[ep].len(),
        active_session(outputs[ep][i], pid, cfg, rows),
        s.heard.contains_key(pid),
        detect::elapsed(s.heard[pid], now) < cfg.audio_hold_secs * 1_000_000_000,
    ensures
        ({
            let last = audio::after_tick(s, cfg, rows, available, count, outputs, now).last;
            exists|k: int|
                0 <= k < last.len() && (#[trigger] last[k]).pid == pid && last[k].peak
                    == outputs[ep][i].peak && last[k].name == audio::program_name(rows, pid)
                    && audio::reasons(last, cfg, last.len()).contains(said(last[k]))
        }),
{
    law_a_round_reads_every_session(s, cfg, rows, available, count, outputs, now, ep, i);
    let last = audio::after_tick(s, cfg, rows, available, count, outputs, now).last;
    let k = choose|k: int|
        0 <= k < last.len() && read_as(
            #[trigger] last[k],
            outputs[ep][i],
            ep as u32,
            s.heard,
            cfg,
            rows,
            now,
        );
    lemma_playing(last, k, cfg);
    assert(last[k].pid == pid);
}

proof fn lemma_quiet_sessions(
    scan: Scan,
    sessions: Seq<SessionInput>,
    endpoint: u32,
    cfg: Config,
    rows: Seq<(u32, Seq<char>)>,
    now: u64,
    n: nat,
    pid: u32,
)
    requires
        n <= sessions.len(),
        !heard_among(sessions, cfg, pid, sessions.len()),
        forall|k: int|
            0 <= k < scan.reads.len() && (#[trigger] scan.reads[k]).pid == pid
                ==> scan.reads[k].quiet_for == audio::quiet(scan.heard, pid, now),
    ensures
        ({
            let t = audio::scanned_sessions(scan, sessions, endpoint, cfg, rows, now, n);
            forall|k: int|
                0 <= k < t.reads.len() && (#[trigger] t.reads[k]).pid == pid ==> t.reads[k].quiet_for
                    == audio::quiet(scan.heard, pid, now)
        }),
    decreases n,
{
    if n > 0 {
        let p = (n - 1) as nat;
        lemma_quiet_sessions(scan, sessions, endpoint, cfg, rows, now, p, pid);
        lemma_sessions(scan, sessions, endpoint, cfg, rows, now, p, pid);
        let b = audio::scanned_sessions(scan, sessions, endpoint, cfg, rows, now, p);
        let t = audio::scanned_sessions(scan, sessions, endpoint, cfg, rows, now, n);
        let s = sessions[n - 1];
        if heard_among(sessions, cfg, pid, p) {
            let i = choose|i: int|
                0 <= i < p && (#[trigger] sessions[i]).system_sounds != 0 && sessions[i].pid == Some(
                    pid,
                ) && pid != 0 && audio::loud(sessions[i].peak, cfg);
            assert(sessions[i].system_sounds != 0);
            assert(heard_among(sessions, cfg, pid, sessions.len()));
        }
        if audio::is_program(s) && s.pid == Some(pid) {
            if audio::loud(s.peak, cfg) {
                assert(sessions[n - 1].system_sounds != 0);
                assert(heard_among(sessions, cfg, pid, sessions.len()));
            }
        }
        assert forall|k: int|
            0 <= k < t.reads.len() && (#[trigger] t.reads[k]).pid == pid implies t.reads[k].quiet_for
            == audio::quiet(scan.heard, pid, now) by {
            if k < b.reads.len() {
                assert(t.reads[k] == b.reads[k]);
            }
        }
    }
}

proof fn lemma_quiet_outputs(
    scan: Scan,
    outputs: Seq<Seq<SessionInput>>,
    cfg: Config,
    rows: Seq<(u32, Seq<char>)>,
    now: u64,
    n: nat,
    pid: u32,
)
    requires
        n <= outputs.len(),
        !heard_in(outputs, cfg, pid, outputs.len()),
        scan.reads.len() == 0,
    ensures
        ({
            let t = audio::scanned_outputs(scan, outputs, cfg, rows, now, n);
            forall|k: int|
                0 <= k < t.reads.len() && (#[trigger] t.reads[k]).pid == pid ==> t.reads[k].quiet_for
                    == audio::quiet(scan.heard, pid, now)
        }),
    decreases n,
{
    if n > 0 {
        let p = (n - 1) as nat;
        lemma_quiet_outputs(scan, outputs, cfg, rows, now, p, pid);
        lemma_outputs(scan, outputs, cfg, rows, now, p, pid);
        let b = audio::scanned_outputs(scan, outputs, cfg, rows, now, p);
        let sessions = outputs[n - 1];
        if heard_in(outputs, cfg, pid, p) {
            let k = choose|k: int|
                0 <= k < p && #[trigger] heard_among(outputs[k], cfg, pid, outputs[k].len());
            assert(heard_among(outputs[k], cfg, pid, outputs[k].len()));
            assert(heard_in(outputs, cfg, pid, outputs.len()));
        }
        if heard_among(outputs[n - 1], cfg, pid, outputs[n - 1].len()) {
            assert(heard_in(outputs, cfg, pid, outputs.len()));
        }
        assert(audio::quiet(b.heard, pid, now) == audio::quiet(scan.heard, pid, now));
        lemma_quiet_sessions(
            b,
            sessions,
            (n - 1) as u32,
            cfg,
            rows,
            now,
            sessions.len(),
            pid,
        );
    }
}

/// A program that is not heard in a round, and was not heard before or not within the hold
/// window, does not count: none of its sessions gives a reason.
pub proof fn law_a_silent_program_is_not_told(
    s: AudioState,
    cfg: Config,
    rows: Seq<(u32, Seq<char>)>,
    available: bool,
    count: Option<u32>,
    outputs: Seq<Seq<SessionInput>>,
    now: u64,
    pid: u32,
)
    requires
        cfg.audio_enabled,
        cfg.audio_hold_secs < 0x40_0000,
        !heard_in(outputs, cfg, pid, outputs.len()),
        !s.heard.contains_key(pid) || detect::elapsed(s.heard[pid], now)
            >= cfg.audio_hold_secs * 1_000_000_000,
    ensures
        ({
            let last = audio::after_tick(s, cfg, rows, available, count, outputs, now).last;
            forall|k: int|
                0 <= k < last.len() && (#[trigger] last[k]).pid == pid ==> audio::reasons(
                    seq![last[k]],
                    cfg,
                    1,
                ).len() == 0
        }),
{
    let start = Scan { heard: s.heard, reads: Seq::empty() };
    lemma_quiet_outputs(start, outputs, cfg, rows, now, outputs.len(), pid);
    let last = audio::after_tick(s, cfg, rows, available, count, outputs, now).last;
    assert forall|k: int| 0 <= k < last.len() && (#[trigger] last[k]).pid == pid implies
        audio::reasons(seq![last[k]], cfg, 1).len() == 0 by {
        let r = last[k];
        reveal_with_fuel(audio::reasons, 2);
        if r.quiet_for is Some {
            law_the_hold_window_is_as_configured(r.quiet_for->0, cfg);
        }
    }
}

/// A session that is inactive, or whose program is ignored, gives no reason.
pub proof fn law_inactive_sessions_are_not_told(r: SessionView, cfg: Config)
    requires
        !r.active || r.ignored || r.quiet_for is None,
    ensures
        audio::reasons(seq![r], cfg, 1).len() == 0,
{
    reveal_with_fuel(audio::reasons, 2);
}

/// When a program was heard is remembered from round to round, for as long as it has a
/// session: this round where it is heard in it, otherwise as before.
pub proof fn law_when_a_program_was_heard_is_remembered(
    s: AudioState,
    cfg: Config,
    rows: Seq<(u32, Seq<char>)>,
    available: bool,
    count: Option<u32>,
    outputs: Seq<Seq<SessionInput>>,
    now: u64,
    ep: int,
    i: int,
    pid: u32,
)
    requires
        cfg.audio_enabled,
        0 <= ep < outputs.len(),
        0 <= i < outputs[ep].len(),
        outputs[ep][i].system_sounds != 0,
        outputs[ep][i].pid == Some(pid),
        pid != 0,
    ensures
        ({
            let heard = audio::after_tick(s, cfg, rows, available, count, outputs, now).heard;
            &&& heard_in(outputs, cfg, pid, outputs.len()) ==> heard.contains_key(pid)
                && heard[pid] == now
            &&& !heard_in(outputs, cfg, pid, outputs.len()) ==> heard.contains_key(pid)
                == s.heard.contains_key(pid) && (s.heard.contains_key(pid) ==> heard[pid]
                == s.heard[pid])
        }),
{
    let start = Scan { heard: s.heard, reads: Seq::empty() };
    lemma_outputs(start, outputs, cfg, rows, now, outputs.len(), pid);
    let k = lemma_output_read(start, outputs, cfg, rows, now, outputs.len(), ep, i);
    let reads = audio::scanned_outputs(start, outputs, cfg, rows, now, outputs.len()).reads;
    let pids = Seq::new(reads.len(), |j: int| reads[j].pid);
    assert(pids[k] == pid);
    assert(pids.to_set().contains(pid));
}

/// A disabled detector reads nothing, gives no reason, and forgets what it has heard.
pub proof fn law_a_disabled_detector_hears_nothing(
    s: AudioState,
    cfg: Config,
    rows: Seq<(u32, Seq<char>)>,
    available: bool,
    count: Option<u32>,
    outputs: Seq<Seq<SessionInput>>,
    peaks: Seq<Option<Number>>,
    now: u64,
)
    requires
        !cfg.audio_enabled,
    ensures
        ({
            let t = audio::after_tick(s, cfg, rows, available, count, outputs, now);
            &&& t.last.len() == 0
            &&& audio::reasons(t.last, cfg, t.last.len()).len() == 0
            &&& t.heard == Map::<u32, u64>::empty()
        }),
        !audio::probed(s, cfg, peaks, now),
        audio::after_probe(s, cfg, available, count, peaks, now) == s,
{
}

/// A quick look says that there is sound where some output is heard, or one was heard in a
/// quick look less than the hold window ago, and not otherwise.
pub proof fn law_the_quick_look_says_what_it_hears(
    s: AudioState,
    cfg: Config,
    peaks: Seq<Option<Number>>,
    now: u64,
)
    requires
        cfg.audio_enabled,
        cfg.audio_hold_secs < 0x40_0000,
    ensures
        ({
            let heard = exists|i: int|
                0 <= i < peaks.len() && audio::device_loud(#[trigger] peaks[i], cfg);
            let held = s.device_heard is Some && detect::elapsed(s.device_heard->0, now) < cfg.audio_hold_secs
                * 1_000_000_000;
            &&& audio::probed(s, cfg, peaks, now) <==> heard || held
            &&& forall|available: bool, count: Option<u32>| #[trigger]
                audio::after_probe(s, cfg, available, count, peaks, now).device_heard == (if heard {
                    Some(now)
                } else {
                    s.device_heard
                })
        }),
{
    if s.device_heard is Some {
        law_the_hold_window_is_as_configured(detect::elapsed(s.device_heard->0, now) as u64, cfg);
    }
}

/// The name of a program is that of its process, and its id where that is not in the
/// table.
pub proof fn law_programs_are_named(rows: Seq<(u32, Seq<char>)>, pid: u32, i: int)
    requires
        0 <= i <= rows.len(),
        forall|j: int| 0 <= j < i ==> (#[trigger] rows[j]).0 != pid,
        i < rows.len() ==> rows[i].0 == pid,
    ensures
        i < rows.len() ==> audio::program_name(rows, pid) == rows[i].1,
        i == rows.len() ==> audio::program_name(rows, pid) == "pid"@ + text::dec(pid as nat),
{
    if i < rows.len() {
        crate::detect::meter_laws::law_a_process_has_its_first_name(rows, pid, i);
    } else {
        crate::detect::meter_laws::law_a_stranger_has_no_name(rows, pid);
    }
}

/// The outputs are those that were counted last, and the peaks of a quick look are kept to
/// be shown; one that cannot be read is shown as full.
pub proof fn law_outputs_are_shown_as_read(
    s: AudioState,
    cfg: Config,
    rows: Seq<(u32, Seq<char>)>,
    available: bool,
    count: Option<u32>,
    outputs: Seq<Seq<SessionInput>>,
    peaks: Seq<Option<Number>>,
    now: u64,
    i: int,
)
    requires
        cfg.audio_enabled,
        0 <= i < peaks.len(),
    ensures
        ({
            let t = audio::after_tick(s, cfg, rows, available, count, outputs, now);
            &&& t.available == available
            &&& count is Some ==> t.endpoints == count->0
            &&& count is None ==> t.endpoints == s.endpoints
            &&& t.device_heard == s.device_heard && t.device_peaks == s.device_peaks
        }),
        ({
            let t = audio::after_probe(s, cfg, available, count, peaks, now);
            &&& t.available == available
            &&& count is Some ==> t.endpoints == count->0
            &&& count is None ==> t.endpoints == s.endpoints
            &&& t.last == s.last && t.heard == s.heard
            &&& t.device_peaks.len() == peaks.len()
            &&& peaks[i] is Some ==> t.device_peaks[i] == peaks[i]->0
            &&& peaks[i] is None ==> t.device_peaks[i] == (Number::Signed {
                negative: false,
                size: double::rounded(1, 1),
            })
        }),
{
}

/// Whether a program has one of the first sessions of an output.
pub open spec fn session_among(sessions: Seq<SessionInput>, pid: u32, n: nat) -> bool {
    exists|i: int|
        0 <= i < n && (#[trigger] sessions[i]).system_sounds != 0 && sessions[i].pid == Some(pid)
            && pid != 0
}

proof fn lemma_rows_of_sessions(
    scan: Scan,
    sessions: Seq<SessionInput>,
    endpoint: u32,
    cfg: Config,
    rows: Seq<(u32, Seq<char>)>,
    now: u64,
    n: nat,
    pid: u32,
)
    requires
        n <= sessions.len(),
        !session_among(sessions, pid, n),
        forall|k: int| 0 <= k < scan.reads.len() ==> (#[trigger] scan.reads[k]).pid != pid,
    ensures
        ({
            let t = audio::scanned_sessions(scan, sessions, endpoint, cfg, rows, now, n);
            forall|k: int| 0 <= k < t.reads.len() ==> (#[trigger] t.reads[k]).pid != pid
        }),
    decreases n,
{
    if n > 0 {
        let p = (n - 1) as nat;
        if session_among(sessions, pid, p) {
            let i = choose|i: int|
                0 <= i < p && (#[trigger] sessions[i]).system_sounds != 0 && sessions[i].pid
                    == Some(pid) && pid != 0;
            assert(sessions[i].system_sounds != 0);
        }
        lemma_rows_of_sessions(scan, sessions, endpoint, cfg, rows, now, p, pid);
        let s = sessions[n - 1];
        if s.system_sounds != 0 && s.pid == Some(pid) && pid != 0 {
            assert(session_among(sessions, pid, n));
        }
    }
}

proof fn lemma_rows_of_outputs(
    scan: Scan,
    outputs: Seq<Seq<SessionInput>>,
    cfg: Config,
    rows: Seq<(u32, Seq<char>)>,
    now: u64,
    n: nat,
    pid: u32,
)
    requires
        n <= outputs.len(),
        forall|k: int|
            0 <= k < n ==> !#[trigger] session_among(outputs[k], pid, outputs[k].len()),
        forall|k: int| 0 <= k < scan.reads.len() ==> (#[trigger] scan.reads[k]).pid != pid,
    ensures
        ({
            let t = audio::scanned_outputs(scan, outputs, cfg, rows, now, n);
            forall|k: int| 0 <= k < t.reads.len() ==> (#[trigger] t.reads[k]).pid != pid
        }),
    decreases n,
{
    if n > 0 {
        let p = (n - 1) as nat;
        lemma_rows_of_outputs(scan, outputs, cfg, rows, now, p, pid);
        let before = audio::scanned_outputs(scan, outputs, cfg, rows, now, p);
        assert(!session_among(outputs[n - 1], pid, outputs[n - 1].len()));
        lemma_rows_of_sessions(
            before,
            outputs[n - 1],
            p as u32,
            cfg,
            rows,
            now,
            outputs[n - 1].len(),
            pid,
        );
    }
}

/// A program without a session has no row, and when it was heard is forgotten.
pub proof fn law_programs_without_a_session_are_forgotten(
    s: AudioState,
    cfg: Config,
    rows: Seq<(u32, Seq<char>)>,
    available: bool,
    count: Option<u32>,
    outputs: Seq<Seq<SessionInput>>,
    now: u64,
    pid: u32,
    k: int,
)
    requires
        forall|k: int|
            0 <= k < outputs.len() ==> !#[trigger] session_among(
                outputs[k],
                pid,
                outputs[k].len(),
            ),
    ensures
        ({
            let t = audio::after_tick(s, cfg, rows, available, count, outputs, now);
            &&& !t.heard.contains_key(pid)
            &&& 0 <= k < t.last.len() ==> t.last[k].pid != pid
        }),
{
    if cfg.audio_enabled {
        let start = Scan { heard: s.heard, reads: Seq::empty() };
        lemma_rows_of_outputs(start, outputs, cfg, rows, now, outputs.len(), pid);
    }
}

} // verus!
