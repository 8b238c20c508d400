//! What the operations do, call by call: each law here speaks of the arguments and of the
//! outcome of a call.
use std::collections::HashMap;

use vstd::prelude::*;

use crate::config::Config;
use crate::detect;
use crate::detect::audio;
use crate::detect::audio::{AudioDetector, Outputs, SessionInput, SessionView};
use crate::detect::audio_laws;
use crate::detect::dl;
use crate::detect::dl::{DlDetector, DlRead, IoReading};
use crate::detect::dl_laws;
use crate::detect::hint;
use crate::detect::hint::{HintDetector, HintFile, HintView};
use crate::detect::hint_laws;
use crate::detect::net;
use crate::detect::net::{NetDetector, NetRow};
use crate::detect::net_laws;
use crate::detect::proc;
use crate::detect::proc::ProcDetector;
use crate::detect::proc_laws;
use crate::detect::told;
use crate::detect::{CpuReading, ProcessTable, RateMeter, Reason};
use crate::double;
use crate::double::{Double, Number, SECOND};
use crate::engine;
use crate::engine::{Engine, Mode, Pending, Settled};
use crate::power::{Held, PowerSource};
use crate::text;

verus! {

// ───────────────────────── deciding ─────────────────────────

/// Activity keeps the machine awake and nothing else does. The screen is kept on where the
/// policy of the power source in use says so, unless it is off and is to stay off.
pub proof fn law_decide(cfg: Config, ac: bool, display_on: bool, busy: bool, r: Held)
    requires
        call_ensures(engine::decide, (&cfg, ac, display_on, busy), r),
    ensures
        r == Held::Nothing <==> !busy,
        r == Held::SystemDisplay <==> {
            &&& busy
            &&& ac ==> cfg.policy_ac@ == "display"@
            &&& !ac ==> cfg.policy_dc@ == "display"@
            &&& display_on || !cfg.never_wake_display
        },
{
}

/// Two configurations that agree on the policy of the power source in use, and on waking
/// the screen, lead to the same decision.
pub proof fn law_decide_reads_one_policy(
    a: Config,
    b: Config,
    ac: bool,
    display_on: bool,
    busy: bool,
    r: Held,
    s: Held,
)
    requires
        a.never_wake_display == b.never_wake_display,
        ac ==> a.policy_ac@ == b.policy_ac@,
        !ac ==> a.policy_dc@ == b.policy_dc@,
        call_ensures(engine::decide, (&a, ac, display_on, busy), r),
        call_ensures(engine::decide, (&b, ac, display_on, busy), s),
    ensures
        r == s,
{
}

/// A round asks for what the mode wants: nothing while paused, the screen while forced, and
/// otherwise what activity of this round, or within the grace period, calls for.
pub proof fn law_step(
    e: &mut Engine,
    cfg: Config,
    mode: Mode,
    display_on: bool,
    reasons: Vec<Reason>,
    source: PowerSource,
    now: u64,
    p: Pending,
)
    requires
        call_ensures(
            Engine::step,
            (e, &cfg, mode, display_on, &reasons, source, now),
            p,
        ),
    ensures
        ({
            let found = reasons@.len() > 0;
            let lately = old(e).last_active is Some && detect::elapsed(
                old(e).last_active->0,
                now,
            ) < cfg.grace_secs * SECOND;
            let auto = mode == Mode::Auto || (mode is Force && mode->0 <= now);
            let on_battery = source == PowerSource::Dc;
            &&& final(e).last_active == if found {
                Some(now)
            } else {
                old(e).last_active
            }
            &&& final(e).held == old(e).held
            &&& p.in_grace == (!found && lately)
            &&& final(e).in_grace == p.in_grace
            &&& p.ac == !on_battery
            &&& mode == Mode::Paused ==> p.desired == Held::Nothing
            &&& mode is Force && now < mode->0 ==> p.desired == Held::SystemDisplay
            &&& auto ==> (p.desired == Held::Nothing <==> !found && !lately)
            &&& auto ==> (p.desired == Held::SystemDisplay <==> {
                &&& found || lately
                &&& on_battery ==> cfg.policy_dc@ == "display"@
                &&& !on_battery ==> cfg.policy_ac@ == "display"@
                &&& display_on || !cfg.never_wake_display
            })
            &&& p.changed <==> p.desired != old(e).held
            &&& p.mode == mode && p.display_on == display_on
            &&& p.reasons@.len() == reasons@.len()
            &&& forall|i: int|
                0 <= i < reasons@.len() ==> (#[trigger] p.reasons@[i])@ == reasons@[i].kind@ + ":"@
                    + reasons@[i].detail@
            &&& mode is Force && now < mode->0 ==> p.force_left == Some((mode->0 - now) as u64)
            &&& mode is Force && now >= mode->0 ==> p.force_left == Some(0u64)
            &&& !(mode is Force) ==> p.force_left is None
        }),
{
    let found = detect::pairs(reasons@);
    assert(text::views(p.reasons@).len() == p.reasons@.len());
    assert forall|i: int| 0 <= i < reasons@.len() implies (#[trigger] p.reasons@[i])@
        == reasons@[i].kind@ + ":"@ + reasons@[i].detail@ by {
        assert(text::views(p.reasons@)[i] == p.reasons@[i]@);
        assert(engine::reason_texts(found)[i] == found[i].0 + ":"@ + found[i].1);
    }
}

/// What was asked for is held once it is accepted. A refusal leaves what is held as it was,
/// and is reported where none was since the last accepted request.
pub proof fn law_settle(e: &mut Engine, p: Pending, accepted: bool, s: Settled)
    requires
        call_ensures(Engine::settle, (e, p, accepted), s),
        p.changed <==> p.desired != old(e).held,
    ensures
        accepted ==> final(e).held == p.desired,
        !accepted ==> final(e).held == old(e).held,
        s.changed <==> final(e).held != old(e).held,
        s.warn <==> !accepted && p.desired != old(e).held && !old(e).hold_warned,
        s.warn ==> final(e).hold_warned,
        accepted && p.desired != old(e).held ==> !final(e).hold_warned,
        p.desired == old(e).held ==> final(e).hold_warned == old(e).hold_warned,
        s.snapshot.held == final(e).held,
        s.snapshot.mode == p.mode,
        s.snapshot.reasons@ == p.reasons@,
        s.snapshot.in_grace == p.in_grace,
        s.snapshot.ac == p.ac,
        s.snapshot.display_on == p.display_on,
        s.snapshot.force_left == p.force_left,
        final(e).last_active == old(e).last_active,
{
}

// ───────────────────────── downloads ─────────────────────────

/// A downloader is busy where it moves as much as is configured, where it has as many
/// connections as are configured and moves five kilobytes a second, and where it has as many
/// and what it moves cannot be read.
pub proof fn law_is_busy(r: DlRead, cfg: Config, b: bool)
    requires
        call_ensures(dl::is_busy, (&r, &cfg), b),
    ensures
        b <==> {
            ||| !r.kbps.under(double::rounded(cfg.dl_io_kbps as nat, 1))
            ||| r.conns >= cfg.dl_tcp_conns && !r.kbps.under(double::rounded(5, 1))
            ||| r.conns >= cfg.dl_tcp_conns && r.io_unreadable > 0 && r.kbps.is_zero()
        },
{
}

/// A downloader that is busy stays so with more connections, and, where all of it can be
/// read, at a higher rate.
pub proof fn law_is_busy_grows(r: DlRead, s: DlRead, cfg: Config, b: bool, c: bool)
    requires
        call_ensures(dl::is_busy, (&r, &cfg), b),
        call_ensures(dl::is_busy, (&s, &cfg), c),
        s.conns >= r.conns,
        s.io_unreadable >= r.io_unreadable,
        s.kbps == r.kbps || (r.io_unreadable == 0 && !s.kbps.under(r.kbps)),
    ensures
        b ==> c,
{
    if b && s.kbps != r.kbps {
        dl_laws::law_a_higher_rate_keeps_a_program_busy(r, s.kbps, cfg);
    }
}

/// A round of downloaders has a reason for each busy program, and for nothing else. A
/// program with a process of its own is measured by what that process moved since the round
/// before, and by its connections.
pub proof fn law_dl_tick(
    d: &mut DlDetector,
    cfg: Config,
    table: ProcessTable,
    conns: HashMap<u32, u32>,
    readings: Vec<IoReading>,
    out: Vec<Reason>,
    k: int,
)
    requires
        call_ensures(DlDetector::tick, (d, &cfg, &table, &conns, &readings), out),
        cfg.dl_enabled,
        ({
            let w = detect::listed_rows(table.rows(), text::views(cfg.dl_processes@));
            0 <= k < w.len() && forall|j: int|
                0 <= j < w.len() && j != k ==> (#[trigger] w[j]).0 != w[k].0 && w[j].1 != w[k].1
        }),
    ensures
        told::one_each(
            final(d).state().last,
            |row: (Seq<char>, DlRead)|
                {
                    let tcp = row.1.conns >= cfg.dl_tcp_conns;
                    ||| !row.1.kbps.under(double::rounded(cfg.dl_io_kbps as nat, 1))
                    ||| tcp && !row.1.kbps.under(double::rounded(5, 1))
                    ||| tcp && row.1.io_unreadable > 0 && row.1.kbps.is_zero()
                },
            |row: (Seq<char>, DlRead)|
                (
                    "dl"@,
                    row.0 + " io="@ + row.1.kbps.text(0) + "KB/s tcp="@ + text::dec(
                        row.1.conns as nat,
                    ),
                ),
            detect::pairs(out@),
        ),
        ({
            let (pid, name) = detect::listed_rows(
                table.rows(),
                text::views(cfg.dl_processes@),
            )[k];
            let none = DlRead { kbps: double::nothing(), conns: 0, io_unreadable: 0 };
            let own = if conns@.contains_key(pid) {
                conns@[pid]
            } else {
                0
            };
            final(d).state().last.contains(
                (
                    name,
                    dl::with_process(
                        none,
                        old(d).state().meters,
                        own,
                        dl::reading_of(readings@, pid),
                    ),
                ),
            )
        }),
{
    let last = final(d).state().last;
    dl_laws::law_every_busy_downloader_is_told(last, cfg);
    dl_laws::law_a_round_measures_a_program(
        old(d).state(),
        cfg,
        table.rows(),
        conns@,
        readings@,
        k,
    );
    let f = |row: (Seq<char>, DlRead)| dl::busy(row.1, cfg);
    let g = |row: (Seq<char>, DlRead)|
        {
            let tcp = row.1.conns >= cfg.dl_tcp_conns;
            ||| !row.1.kbps.under(double::rounded(cfg.dl_io_kbps as nat, 1))
            ||| tcp && !row.1.kbps.under(double::rounded(5, 1))
            ||| tcp && row.1.io_unreadable > 0 && row.1.kbps.is_zero()
        };
    assert(f =~= g);
}

/// A round of a disabled detector of downloads finds nothing and keeps nothing.
pub proof fn law_dl_tick_disabled(
    d: &mut DlDetector,
    cfg: Config,
    table: ProcessTable,
    conns: HashMap<u32, u32>,
    readings: Vec<IoReading>,
    out: Vec<Reason>,
)
    requires
        call_ensures(DlDetector::tick, (d, &cfg, &table, &conns, &readings), out),
        !cfg.dl_enabled,
    ensures
        out@.len() == 0,
        final(d).state().last.len() == 0,
        final(d).state().meters == Map::<u32, RateMeter>::empty(),
{
    dl_laws::law_nothing_watched_is_nothing_known(
        old(d).state(),
        cfg,
        table.rows(),
        conns@,
        readings@,
    );
    assert(detect::pairs(out@).len() == out@.len());
}

// ───────────────────────── programs ─────────────────────────

/// A round of watched programs has a reason for each one that uses at least the configured
/// share of a processor, however much that is, and for nothing else. A program with a
/// process of its own is measured by that process.
pub proof fn law_proc_tick(
    d: &mut ProcDetector,
    cfg: Config,
    table: ProcessTable,
    readings: Vec<CpuReading>,
    out: Vec<Reason>,
    k: int,
)
    requires
        call_ensures(ProcDetector::tick, (d, &cfg, &table, &readings), out),
        cfg.proc_enabled,
        cfg.proc_busy_when_cpu@.len() > 0,
        ({
            let w = detect::listed_rows(table.rows(), text::views(cfg.proc_busy_when_cpu@));
            0 <= k < w.len() && forall|j: int|
                0 <= j < w.len() && j != k ==> (#[trigger] w[j]).0 != w[k].0 && w[j].1 != w[k].1
        }),
    ensures
        told::one_each(
            final(d).state().last,
            |row: (Seq<char>, Double)| proc_laws::high(row.1, cfg.proc_cpu_percent_1core),
            |row: (Seq<char>, Double)| ("proc"@, row.0 + " "@ + row.1.text(0) + "%"@),
            detect::pairs(out@),
        ),
        ({
            let (pid, name) = detect::listed_rows(
                table.rows(),
                text::views(cfg.proc_busy_when_cpu@),
            )[k];
            let seen = detect::cpu_seen(
                old(d).state().cache,
                proc::reading_of(readings@, pid),
            );
            let last = final(d).state().last;
            &&& seen is None ==> last.contains((name, double::nothing()))
            &&& seen is Some ==> last.contains((name, double::nothing().sum(seen->0)))
        }),
{
    proc_laws::law_an_enabled_detector_watches(cfg);
    proc_laws::law_every_busy_program_is_told(final(d).state().last, cfg);
    proc_laws::law_a_round_measures_a_program(old(d).state(), cfg, table.rows(), readings@, k);
}

/// A round that watches no program finds nothing.
pub proof fn law_proc_tick_disabled(
    d: &mut ProcDetector,
    cfg: Config,
    table: ProcessTable,
    readings: Vec<CpuReading>,
    out: Vec<Reason>,
)
    requires
        call_ensures(ProcDetector::tick, (d, &cfg, &table, &readings), out),
        !cfg.proc_enabled || cfg.proc_busy_when_cpu@.len() == 0,
    ensures
        out@.len() == 0,
        final(d).state().last.len() == 0,
{
    proc_laws::law_nothing_watched_is_nothing_measured(
        old(d).state(),
        cfg,
        table.rows(),
        readings@,
    );
    assert(detect::pairs(out@).len() == out@.len());
}

// ───────────────────────── sound ─────────────────────────

/// A round of sound has a reason for each active session that is not ignored and was heard
/// within the hold window, and for nothing else; and a session whose peak reaches the
/// configured threshold is heard.
pub proof fn law_audio_tick(
    d: &mut AudioDetector,
    cfg: Config,
    table: ProcessTable,
    outputs: Outputs<Vec<SessionInput>>,
    now: u64,
    out: Vec<Reason>,
    ep: int,
    i: int,
    pid: u32,
    level: Double,
)
    requires
        call_ensures(AudioDetector::tick, (d, &cfg, &table, &outputs, now), out),
        cfg.audio_enabled,
        0 < cfg.audio_hold_secs < 0x40_0000,
        0 <= ep < outputs.readings@.len(),
        0 <= i < outputs.readings@[ep]@.len(),
        audio_laws::active_session(outputs.readings@[ep]@[i], pid, cfg, table.rows()),
        outputs.readings@[ep]@[i].peak == Some(Number::Signed { negative: false, size: level }),
        audio_laws::high(level, cfg.audio_peak_threshold),
    ensures
        told::one_each(
            final(d).state().last,
            |r: SessionView|
                r.active && !r.ignored && r.quiet_for is Some && r.quiet_for->0
                    < cfg.audio_hold_secs * 1_000_000_000,
            |r: SessionView| audio_laws::said(r),
            detect::pairs(out@),
        ),
        detect::pairs(out@).contains(
            (
                "audio"@,
                audio::program_name(table.rows(), pid) + ("("@ + (Number::Signed {
                    negative: false,
                    size: level,
                }).text(2) + ")"@),
            ),
        ),
{
    let seen = audio::sessions_view(outputs.readings@);
    assert(seen[ep] == outputs.readings@[ep]@);
    audio_laws::law_every_playing_session_is_told(final(d).state().last, cfg);
    audio_laws::law_a_heard_program_is_told_at_once(
        old(d).state(),
        cfg,
        table.rows(),
        outputs.available,
        outputs.count,
        seen,
        now,
        ep,
        i,
        pid,
        level,
    );
}

/// A round whose sessions all stay under the configured threshold has no reason, where no
/// program was heard within the hold window before it.
pub proof fn law_audio_tick_silent(
    d: &mut AudioDetector,
    cfg: Config,
    table: ProcessTable,
    outputs: Outputs<Vec<SessionInput>>,
    now: u64,
    out: Vec<Reason>,
)
    requires
        call_ensures(AudioDetector::tick, (d, &cfg, &table, &outputs, now), out),
        cfg.audio_hold_secs < 0x40_0000,
        forall|ep: int, i: int|
            0 <= ep < outputs.readings@.len() && 0 <= i < outputs.readings@[ep]@.len() ==> {
                let peak = (#[trigger] outputs.readings@[ep]@[i]).peak;
                &&& peak is Some
                &&& peak->0 is Signed
                &&& !peak->0->negative
                &&& !audio_laws::high(peak->0->size, cfg.audio_peak_threshold)
            },
        forall|pid: u32| #[trigger]
            old(d).state().heard.contains_key(pid) ==> detect::elapsed(
                old(d).state().heard[pid],
                now,
            ) >= cfg.audio_hold_secs * 1_000_000_000,
    ensures
        out@.len() == 0,
{
    let last = final(d).state().last;
    assert(detect::pairs(out@).len() == out@.len());
    if cfg.audio_enabled {
        let seen = audio::sessions_view(outputs.readings@);
        audio_laws::law_every_playing_session_is_told(last, cfg);
        let counts = |r: SessionView|
            r.active && !r.ignored && r.quiet_for is Some && r.quiet_for->0 < cfg.audio_hold_secs
                * 1_000_000_000;
        let say = |r: SessionView| audio_laws::said(r);
        if out@.len() > 0 {
            assert(told::founded(last, counts, say, last.len(), detect::pairs(out@), 0));
            let k = choose|k: int|
                0 <= k < last.len() && counts(#[trigger] last[k]) && say(last[k])
                    == detect::pairs(out@)[0];
            let pid = last[k].pid;
            if audio_laws::heard_in(seen, cfg, pid, seen.len()) {
                let e = choose|e: int|
                    0 <= e < seen.len() && #[trigger] audio_laws::heard_among(
                        seen[e],
                        cfg,
                        pid,
                        seen[e].len(),
                    );
                let i = choose|i: int|
                    0 <= i < seen[e].len() && (#[trigger] seen[e][i]).system_sounds != 0
                        && seen[e][i].pid == Some(pid) && pid != 0 && audio::loud(
                        seen[e][i].peak,
                        cfg,
                    );
                assert(seen[e][i] == outputs.readings@[e]@[i]);
                audio_laws::law_a_session_is_heard_from_the_threshold_on(
                    seen[e][i].peak->0->size,
                    cfg,
                );
                assert(false);
            }
            audio_laws::law_a_silent_program_is_not_told(
                old(d).state(),
                cfg,
                table.rows(),
                outputs.available,
                outputs.count,
                seen,
                now,
                pid,
            );
            let one = seq![last[k]];
            audio_laws::law_every_playing_session_is_told(one, cfg);
            assert(counts(one[0]));
            assert(audio::reasons(one, cfg, one.len()).contains(say(one[0])));
        }
    }
}

/// A disabled detector of sound finds nothing.
pub proof fn law_audio_tick_disabled(
    d: &mut AudioDetector,
    cfg: Config,
    table: ProcessTable,
    outputs: Outputs<Vec<SessionInput>>,
    now: u64,
    out: Vec<Reason>,
)
    requires
        call_ensures(AudioDetector::tick, (d, &cfg, &table, &outputs, now), out),
        !cfg.audio_enabled,
    ensures
        out@.len() == 0,
        final(d).state().last.len() == 0,
{
    assert(detect::pairs(out@).len() == out@.len());
}

// ───────────────────────── traffic ─────────────────────────

/// A round of traffic counts the rounds in a row whose rate reaches the configured one, and
/// has a reason from the configured number of them on.
pub proof fn law_net_tick(
    d: &mut NetDetector,
    cfg: Config,
    rows: Vec<NetRow>,
    now: u64,
    out: Vec<Reason>,
    before: u64,
    at: u64,
)
    requires
        call_ensures(NetDetector::tick, (d, &cfg, &rows, now), out),
        cfg.net_enabled,
        old(d).state().meter == Some((before, at)),
        detect::elapsed(at, now) > 50_000_000,
        old(d).state().consec < u32::MAX,
    ensures
        ({
            let total = net::total(net::interfaces(rows@, rows@.len()));
            let rate = net_laws::kilobytes_per_second(before, total, detect::elapsed(at, now) as u64);
            let fast = !rate.under(double::rounded(cfg.net_threshold_kbps as nat, 1));
            let (s, t) = (old(d).state(), final(d).state());
            &&& t.kbps == rate
            &&& t.meter == Some((total, now))
            &&& t.consec == if fast {
                s.consec + 1
            } else {
                0
            }
            &&& out@.len() == if fast && s.consec + 1 >= cfg.net_min_consecutive_tick {
                1int
            } else {
                0
            }
            &&& out@.len() == 1 ==> out@[0].kind@ == "net"@ && out@[0].detail@ == net::detail(rate)
        }),
{
    net_laws::law_rounds_count_traffic_in_a_row(old(d).state(), cfg, rows@, before, at, now);
    assert(detect::pairs(out@).len() == out@.len());
    if out@.len() > 0 {
        net_laws::law_the_reason_is_about_this_round(old(d).state(), cfg, rows@, now);
        assert(detect::pairs(out@)[0] == out@[0].pair());
    }
}

/// A quick look at the traffic calls for a round where the rate since the last one reaches
/// the configured rate.
pub proof fn law_net_probe(
    d: &mut NetDetector,
    cfg: Config,
    rows: Vec<NetRow>,
    now: u64,
    r: bool,
    before: u64,
    at: u64,
)
    requires
        call_ensures(NetDetector::probe, (d, &cfg, &rows, now), r),
        old(d).state().probe_meter == Some((before, at)),
        detect::elapsed(at, now) > 50_000_000,
    ensures
        r <==> cfg.net_enabled && !net_laws::kilobytes_per_second(
            before,
            net::total(net::interfaces(rows@, rows@.len())),
            detect::elapsed(at, now) as u64,
        ).under(double::rounded(cfg.net_threshold_kbps as nat, 1)),
{
    if cfg.net_enabled {
        net_laws::law_the_quick_look_sees_traffic(old(d).state(), cfg, rows@, before, at, now);
    } else {
        net_laws::law_a_disabled_detector_is_blind(old(d).state(), cfg, rows@, now);
    }
}

// ───────────────────────── hints ─────────────────────────

/// A round of hints has a reason for each fresh one, and for nothing else.
pub proof fn law_hint_tick(
    d: &mut HintDetector,
    cfg: Config,
    files: Vec<HintFile>,
    now: u64,
    out: Vec<Reason>,
    i: int,
)
    requires
        call_ensures(HintDetector::tick, (d, &cfg, &Some(files), now), out),
        cfg.hint_enabled,
        0 <= i < files@.len(),
        hint::is_hint(files@[i].name@),
        files@[i].modified is Some,
        files@[i].modified->0 <= now,
        now - files@[i].modified->0 <= cfg.hint_ttl_secs * 10_000_000,
    ensures
        told::one_each(
            final(d).state(),
            |h: HintView| h.fresh,
            |h: HintView|
                (
                    "hint"@,
                    if h.note.len() > 0 {
                        h.name + "("@ + h.note + ")"@
                    } else {
                        h.name
                    },
                ),
            detect::pairs(out@),
        ),
        ({
            let note = hint::note(hint::content_view(files@[i].content));
            detect::pairs(out@).contains(
                (
                    "hint"@,
                    if note.len() == 0 {
                        files@[i].name@
                    } else {
                        files@[i].name@ + "("@ + note + ")"@
                    },
                ),
            )
        }),
{
    hint_laws::law_every_fresh_hint_is_told(final(d).state());
    hint_laws::law_a_touched_hint_is_told(cfg, files@, now, i);
}

/// A round in which no hint is fresh finds nothing.
pub proof fn law_hint_tick_stale(
    d: &mut HintDetector,
    cfg: Config,
    files: Vec<HintFile>,
    now: u64,
    out: Vec<Reason>,
)
    requires
        call_ensures(HintDetector::tick, (d, &cfg, &Some(files), now), out),
        !cfg.hint_enabled || forall|i: int|
            0 <= i < files@.len() ==> !hint::is_hint((#[trigger] files@[i]).name@)
                || files@[i].modified is None || files@[i].modified->0 > now || now
                - files@[i].modified->0 > cfg.hint_ttl_secs * 10_000_000,
    ensures
        out@.len() == 0,
{
    hint_laws::law_without_a_fresh_hint_nothing_is_told(cfg, files@, now);
    assert(detect::pairs(out@).len() == out@.len());
}

/// A hint is fresh as long as it is to live, to the tick; one from the future is not.
pub proof fn law_classify(now: u64, modified: u64, ttl_secs: u64, r: (u64, bool, bool))
    requires
        call_ensures(hint::classify, (now, modified, ttl_secs), r),
    ensures
        r.1 <==> modified <= now && now - modified <= ttl_secs * 10_000_000,
        r.2 <==> modified > now,
        modified <= now ==> r.0 * 10_000_000 <= now - modified < (r.0 + 1) * 10_000_000,
        modified > now ==> r.0 == 0,
{
    hint_laws::law_hints_are_fresh_for_their_time_to_live(now, modified, ttl_secs);
}

// ───────────────────────── quick looks ─────────────────────────

/// A quick look hears sound where the peak of an output reaches the configured threshold or
/// cannot be read, and within the hold window of such a one.
pub proof fn law_audio_probe(
    d: &mut AudioDetector,
    cfg: Config,
    outputs: Outputs<Option<Number>>,
    now: u64,
    r: bool,
)
    requires
        call_ensures(AudioDetector::probe, (d, &cfg, &outputs, now), r),
        cfg.audio_hold_secs < 0x40_0000,
    ensures
        ({
            let heard = exists|i: int|
                0 <= i < outputs.readings@.len() && audio::device_loud(
                    #[trigger] outputs.readings@[i],
                    cfg,
                );
            let at = old(d).state().device_heard;
            let lately = at is Some && detect::elapsed(at->0, now) < cfg.audio_hold_secs
                * 1_000_000_000;
            &&& r <==> cfg.audio_enabled && (heard || lately)
            &&& cfg.audio_enabled && heard ==> final(d).state().device_heard == Some(now)
            &&& !(cfg.audio_enabled && heard) ==> final(d).state().device_heard == at
        }),
{
    if cfg.audio_enabled {
        audio_laws::law_the_quick_look_says_what_it_hears(
            old(d).state(),
            cfg,
            outputs.readings@,
            now,
        );
    }
}

/// A quick look at the hints calls for a round where one is fresh.
pub proof fn law_hint_probe(
    d: &mut HintDetector,
    cfg: Config,
    files: Vec<HintFile>,
    now: u64,
    r: bool,
    i: int,
)
    requires
        call_ensures(HintDetector::probe, (d, &cfg, &Some(files), now), r),
        0 <= i < files@.len(),
        hint::is_hint(files@[i].name@),
        files@[i].modified is Some,
        files@[i].modified->0 <= now,
        now - files@[i].modified->0 <= cfg.hint_ttl_secs * 10_000_000,
    ensures
        r <==> cfg.hint_enabled,
{
    if cfg.hint_enabled {
        hint_laws::law_a_touched_hint_is_told(cfg, files@, now, i);
    } else {
        hint_laws::law_without_a_fresh_hint_nothing_is_told(cfg, files@, now);
    }
}

/// Programs and downloads are left to full rounds.
pub proof fn law_other_probes(
    p: &mut ProcDetector,
    d: &mut DlDetector,
    cfg: Config,
    r: bool,
    s: bool,
)
    requires
        call_ensures(ProcDetector::probe, (p, &cfg), r),
        call_ensures(DlDetector::probe, (d, &cfg), s),
    ensures
        !r && !s,
        *final(p) == *old(p),
        *final(d) == *old(d),
{
}

} // verus!
