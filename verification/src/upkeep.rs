//! What the operations around the engine do, call by call: waiting and rounds, the power
//! source, the log, the configuration, the readings, the tray and the start with the
//! session.
use std::collections::HashMap;

use vstd::prelude::*;

use crate::autostart;
use crate::autostart::Install;
use crate::config;
use crate::config::{Config, Found, Loaded};
use crate::config_laws;
use crate::daemon;
use crate::daemon::{AfterWait, Command, Round, RoundEnd, Waited, Worker};
use crate::daemon_laws;
use crate::detect;
use crate::detect::dl;
use crate::detect::dl::TcpFetch;
use crate::detect::dl_laws;
use crate::detect::meter_laws;
use crate::detect::{CpuReading, CpuTracker, ProcessTable, RateMeter, Reason};
use crate::double;
use crate::double::{Double, SECOND};
use crate::engine;
use crate::engine::{Mode, QuickReadings, Readings};
use crate::engine_laws;
use crate::icon::Look;
use crate::log;
use crate::log::Rotation;
use crate::power;
use crate::power::{Held, LastInput, PowerSource};
use crate::settings_laws;
use crate::text;
use crate::tray;
use crate::tray::{Action, Click, Message, Reaction};
use crate::tray_laws;

verus! {

// ───────────────────────── waiting ─────────────────────────

/// The worker sleeps for its interval, and no longer than a forced mode lasts, but for a
/// second at least.
pub proof fn law_clamp_to_force_deadline(base_secs: u64, mode: Mode, now: u64, r: u64)
    requires
        call_ensures(daemon::clamp_to_force_deadline, (base_secs, mode, now), r),
        base_secs >= 1,
    ensures
        1 <= r <= base_secs,
        !(mode is Force) ==> r == base_secs,
        mode matches Mode::Force(until) ==> {
            &&& until <= now ==> r == 1
            &&& now < until ==> (r == base_secs || until - now <= r * SECOND) && (r - 1) * SECOND
                < until - now
        },
{
}

/// A forced mode that has run out becomes the automatic one, also where it is kept; any
/// other is left as it is.
pub proof fn law_take_mode(mode: &mut Mode, now: u64, r: Mode)
    requires
        call_ensures(daemon::take_mode, (mode, now), r),
    ensures
        r == *final(mode),
        *old(mode) is Force && old(mode)->0 <= now ==> r == Mode::Auto,
        !(*old(mode) is Force && old(mode)->0 <= now) ==> r == *old(mode),
{
}

/// What follows a wait: only a kick calls for a round, and one that failed is made up for.
pub proof fn law_after_wait(waited: Waited, secs: u64, r: AfterWait)
    requires
        call_ensures(daemon::after_wait, (waited, secs), r),
    ensures
        r.kicked <==> waited == Waited::Kicked,
        waited == Waited::NoTimer ==> r.sleep_secs == secs,
        waited == Waited::Failed ==> r.sleep_secs <= 5 && r.sleep_secs <= secs && (r.sleep_secs
            == secs || r.sleep_secs == 5),
        waited == Waited::Expired || waited == Waited::Kicked ==> r.sleep_secs == 0,
        r.log is Some <==> waited == Waited::NoTimer || waited == Waited::Failed,
{
}

/// A timer is set to tenths of a microsecond, below zero for a time from now on.
pub proof fn law_due_time(secs: u64, r: i64)
    requires
        call_ensures(daemon::due_time, (secs,), r),
    ensures
        r + secs * 10_000_000 == 0,
{
}

/// Quick looks are made in the automatic mode while nothing is held, where they come more
/// often than full rounds.
pub proof fn law_watching(cfg: Config, held: Held, mode: Mode, r: bool)
    requires
        call_ensures(daemon::watching, (&cfg, held, mode), r),
    ensures
        r <==> {
            &&& mode == Mode::Auto
            &&& held == Held::Nothing
            &&& cfg.fast_poll_secs != 0
            &&& cfg.fast_poll_secs < cfg.poll_interval_secs
        },
{
}

/// A full round is due an interval after the last one, and where there was none.
pub proof fn law_full_due(cfg: Config, last: u64, now: u64, r: bool, first: bool)
    requires
        call_ensures(daemon::full_due, (&cfg, Some(last), now), r),
        call_ensures(daemon::full_due, (&cfg, None, now), first),
    ensures
        r <==> detect::elapsed(last, now) >= cfg.poll_interval_secs * SECOND,
        first,
{
}

/// The first argument tells the command.
pub proof fn law_command(arg: &str, c: Command, none: Command)
    requires
        call_ensures(daemon::command, (Some(arg),), c),
        call_ensures(daemon::command, (None,), none),
    ensures
        none == Command::Run,
        arg@ == "--status"@ ==> c == Command::Status,
        arg@ == "--install-autostart"@ ==> c == Command::InstallAutostart,
        arg@ == "--uninstall-autostart"@ ==> c == Command::UninstallAutostart,
        arg@ == "--help"@ || arg@ == "-h"@ ==> c == Command::Help,
        c != Command::Run,
        c == Command::Unknown ==> arg@ != "--status"@ && arg@ != "--install-autostart"@ && arg@
            != "--uninstall-autostart"@ && arg@ != "--help"@ && arg@ != "-h"@,
        c == Command::Status ==> arg@ == "--status"@,
        c == Command::InstallAutostart ==> arg@ == "--install-autostart"@,
        c == Command::UninstallAutostart ==> arg@ == "--uninstall-autostart"@,
        c == Command::Help ==> arg@ == "--help"@ || arg@ == "-h"@,
{
    daemon_laws::law_options_mean_what_they_say(arg@);
}

/// Each warning that was not seen before is logged, and seen from then on.
pub proof fn law_log_config_warnings(
    found: Vec<String>,
    seen: &mut Vec<String>,
    lines: Vec<String>,
    k: int,
)
    requires
        call_ensures(daemon::log_config_warnings, (&found, seen), lines),
        0 <= k < found@.len(),
    ensures
        ({
            let (before, after) = (text::views(old(seen)@), text::views(final(seen)@));
            &&& after.contains(found@[k]@)
            &&& before.is_prefix_of(after)
            &&& lines@.len() == after.len() - before.len()
            &&& forall|i: int|
                0 <= i < lines@.len() ==> (#[trigger] lines@[i])@ == "warn: "@ + after[before.len()
                    + i] && !before.contains(after[before.len() + i]) && text::views(
                    found@,
                ).contains(after[before.len() + i])
        }),
{
    let (before, all) = (text::views(old(seen)@), text::views(found@));
    let added = daemon::new_ones(before, all, found@.len());
    let after = text::views(final(seen)@);
    daemon_laws::law_every_new_warning_is_logged(before, all, found@.len());
    assert(all[k] == found@[k]@);
    if before.contains(all[k]) {
        let i = choose|i: int| 0 <= i < before.len() && before[i] == all[k];
        assert(after[i] == all[k]);
    } else {
        let i = choose|i: int| 0 <= i < added.len() && added[i] == all[k];
        assert(after[before.len() + i] == all[k]);
    }
    let shown = text::views(lines@);
    assert(shown.len() == lines@.len());
    assert forall|i: int| 0 <= i < lines@.len() implies (#[trigger] lines@[i])@ == "warn: "@
        + after[before.len() + i] && !before.contains(after[before.len() + i]) && text::views(
        found@,
    ).contains(after[before.len() + i]) by {
        assert(shown[i] == lines@[i]@);
        assert(after[before.len() + i] == added[i]);
    }
}

// ───────────────────────── rounds ─────────────────────────

/// A quick look comes first while nothing is held in the automatic mode, full rounds are
/// not due, and nobody asked for one.
pub proof fn law_quick_look_first(w: Worker, mode: Mode, now: u64, r: bool)
    requires
        call_ensures(Worker::quick_look_first, (&w, mode, now), r),
    ensures
        r <==> {
            &&& mode == Mode::Auto
            &&& w.engine.held == Held::Nothing
            &&& 0 < w.cfg.fast_poll_secs < w.cfg.poll_interval_secs
            &&& w.last_full is Some
            &&& detect::elapsed(w.last_full->0, now) < w.cfg.poll_interval_secs * SECOND
            &&& !w.kicked
        },
{
}

/// The worker rests for the interval in use, and no longer than a forced mode lasts.
pub proof fn law_rest(w: Worker, mode: Mode, now: u64, r: u64)
    requires
        call_ensures(Worker::rest, (&w, mode, now), r),
        w.cfg.poll_interval_secs >= 1,
    ensures
        r <= w.cfg.poll_interval_secs,
        mode == Mode::Auto && w.engine.held == Held::Nothing && 0 < w.cfg.fast_poll_secs
            < w.cfg.poll_interval_secs ==> r == w.cfg.fast_poll_secs,
        mode == Mode::Auto && w.engine.held != Held::Nothing ==> r == w.cfg.poll_interval_secs,
        mode == Mode::Paused ==> r == w.cfg.poll_interval_secs,
        mode matches Mode::Force(until) ==> {
            now < until ==> (r == w.cfg.poll_interval_secs || until - now <= r * SECOND) && (r - 1)
                * SECOND < until - now
        },
{
}

/// A round that finds something keeps the machine awake in the automatic mode; so does one
/// within the grace period of what was found before.
pub proof fn law_begin_round(
    w: &mut Worker,
    mode: Mode,
    display_on: bool,
    table: ProcessTable,
    readings: Readings,
    source: PowerSource,
    now: u64,
    r: Round,
)
    requires
        call_ensures(
            Worker::begin_round,
            (w, mode, display_on, &table, &readings, source, now),
            r,
        ),
    ensures
        ({
            let cfg = old(w).cfg;
            let last = old(w).engine.last_active;
            let found = engine::all_reasons(
                old(w).engine.detectors(),
                cfg,
                table.rows(),
                readings,
            ).len() > 0;
            let lately = last is Some && detect::elapsed(last->0, now) < cfg.grace_secs * SECOND;
            let p = r.pending;
            &&& r.prev_held == old(w).engine.held
            &&& r.prev_in_grace == old(w).engine.in_grace
            &&& p.in_grace <==> !found && lately
            &&& mode == Mode::Auto ==> (p.desired == Held::Nothing <==> !found && !lately)
            &&& mode == Mode::Auto && source != PowerSource::Dc ==> (p.desired
                == Held::SystemDisplay <==> (found || lately) && cfg.policy_ac@ == "display"@ && (
            display_on || !cfg.never_wake_display))
            &&& mode == Mode::Auto && source == PowerSource::Dc ==> (p.desired
                == Held::SystemDisplay <==> (found || lately) && cfg.policy_dc@ == "display"@ && (
            display_on || !cfg.never_wake_display))
            &&& mode == Mode::Paused ==> p.desired == Held::Nothing
            &&& mode is Force && now < mode->0 ==> p.desired == Held::SystemDisplay
            &&& p.changed <==> p.desired != old(w).engine.held
            &&& found ==> final(w).engine.last_active == Some(now)
            &&& !found ==> final(w).engine.last_active == last
            &&& !final(w).kicked
            &&& final(w).cfg == cfg
        }),
{
    let all = engine::all_reasons(
        old(w).engine.detectors(),
        old(w).cfg,
        table.rows(),
        readings,
    );
    let merged = engine::round_reasons(
        old(w).engine.detectors(),
        old(w).cfg,
        table.rows(),
        readings,
    );
    engine_laws::law_merging_keeps_the_kinds(all);
    let (a, b) = (engine_laws::kinds(all), engine_laws::kinds(merged));
    if all.len() > 0 {
        assert(a.to_set().contains(a[0]));
        assert(b.contains(a[0]));
    }
    if merged.len() > 0 {
        assert(b.to_set().contains(b[0]));
        assert(a.contains(b[0]));
    }
}

/// A round ends with what was accepted, logs it where it is a change, and puts the machine
/// to sleep only where activity has come to its natural end and that is wanted.
pub proof fn law_end_round(w: &mut Worker, round: Round, accepted: bool, now: u64, r: RoundEnd)
    requires
        call_ensures(Worker::end_round, (w, round, accepted, now), r),
        round.prev_held == old(w).engine.held,
        round.pending.changed <==> round.pending.desired != old(w).engine.held,
    ensures
        ({
            let (p, before, held) = (round.pending, old(w).engine.held, final(w).engine.held);
            let warned = !accepted && p.desired != before && !old(w).engine.hold_warned;
            &&& accepted ==> held == p.desired
            &&& !accepted ==> held == before
            &&& r.suspend <==> {
                &&& old(w).cfg.sleep_on_release
                &&& p.mode == Mode::Auto
                &&& round.prev_in_grace && !p.in_grace
                &&& p.reasons@.len() == 0
                &&& before != Held::Nothing && held == Held::Nothing
            }
            &&& r.log@.len() == (if warned {
                1int
            } else {
                0
            }) + (if held != before {
                1int
            } else {
                0
            }) + (if r.suspend {
                1int
            } else {
                0
            })
            &&& warned ==> r.log@[0]@ == daemon::REFUSED@
            &&& r.snapshot.held == held && r.snapshot.mode == p.mode
            &&& r.snapshot.reasons@ == p.reasons@ && r.snapshot.ac == p.ac
            &&& r.snapshot.force_left == p.force_left && r.snapshot.in_grace == p.in_grace
            &&& r.snapshot.display_on == p.display_on
            &&& final(w).last_full == Some(now)
        }),
{
    let lines = text::views(r.log@);
    assert(lines.len() == r.log@.len());
    if r.log@.len() > 0 {
        assert(lines[0] == r.log@[0]@);
    }
}

/// A configuration that is read again is in use, and a full round follows.
pub proof fn law_reload(w: &mut Worker, cfg: Config, lines: Vec<String>, mode: Mode, now: u64)
    requires
        call_ensures(Worker::reload, (w, cfg), lines),
    ensures
        final(w).cfg == cfg,
        !final(w).looks_first(mode, now),
        final(w).engine == old(w).engine,
        lines@.len() >= 1,
        lines@[0]@ == "config reloaded"@,
{
    let shown = text::views(lines@);
    assert(shown.len() == lines@.len());
    assert(shown[0] == lines@[0]@);
}

/// A quick look calls for a round where there is sound, traffic or a fresh hint.
pub proof fn law_quick_look(w: &mut Worker, q: QuickReadings, r: bool)
    requires
        call_ensures(Worker::quick_look, (w, &q), r),
    ensures
        ({
            let (d, cfg) = (old(w).engine.detectors(), old(w).cfg);
            let hints = crate::detect::hint::after_tick(
                cfg,
                crate::detect::hint::files_of(q.hints),
                q.wall,
            );
            r <==> {
                ||| crate::detect::audio::probed(d.audio, cfg, q.audio.readings@, q.now)
                ||| crate::detect::net::probed(d.net, cfg, q.net@, q.now)
                ||| crate::detect::hint::reasons(hints, hints.len()).len() > 0
            }
        }),
        final(w).engine.held == old(w).engine.held,
        final(w).last_full == old(w).last_full,
{
    engine_laws::law_the_quick_look_calls_for_a_round(
        old(w).engine.detectors(),
        old(w).cfg,
        q,
    );
}

/// Merging leaves one reason of each kind that was found.
pub proof fn law_merge(all: Vec<Reason>, out: Vec<Reason>)
    requires
        call_ensures(engine::merge, (&all,), out),
    ensures
        engine_laws::kinds(detect::pairs(out@)).no_duplicates(),
        engine_laws::kinds(detect::pairs(out@)).to_set() == engine_laws::kinds(
            detect::pairs(all@),
        ).to_set(),
{
    assert(detect::pairs(all@).len() == all@.len());
    engine_laws::law_merging_keeps_the_kinds(detect::pairs(all@));
}

// ───────────────────────── power and log ─────────────────────────

/// The line status tells the power source.
pub proof fn law_power_source(line: Option<u8>, r: PowerSource)
    requires
        call_ensures(power::power_source, (line,), r),
    ensures
        r == PowerSource::Ac <==> line == Some(1u8),
        r == PowerSource::Dc <==> line == Some(0u8),
        r == PowerSource::Unknown <==> line is None || line->0 > 1,
{
}

/// The user is active where the last input is within the window, also across the wrap of
/// the input's clock, and where nothing is known.
pub proof fn law_user_active_recently(now: u64, ago: u64, window_secs: u64, r: bool, none: bool)
    requires
        ago <= now,
        ago < 0x1_0000_0000,
        window_secs * 1000 <= u64::MAX,
        call_ensures(
            power::user_active_recently,
            (Some(LastInput { at: ((now - ago) % 0x1_0000_0000) as u32, now }), window_secs),
            r,
        ),
        call_ensures(power::user_active_recently, (None, window_secs), none),
    ensures
        r <==> ago < window_secs * 1000,
        none,
{
    power::law_idle_time_is_counted_round_the_wrap(now, ago, window_secs);
}

/// A request is refused where the system answers nothing.
pub proof fn law_accepted(previous: u32, r: bool)
    requires
        call_ensures(power::accepted, (previous,), r),
    ensures
        r <==> previous > 0,
{
}

/// A log is moved aside once it is larger than a mebibyte, and cut where that fails and it
/// is larger than four.
pub proof fn law_log_rotation(size: u64, r: Rotation, none: Rotation, failed: Rotation)
    requires
        call_ensures(log::rotate_if_needed, (Some(size),), r),
        call_ensures(log::rotate_if_needed, (None,), none),
        call_ensures(log::after_failed_rename, (size,), failed),
    ensures
        r == Rotation::Rename <==> size > 1024 * 1024,
        r == Rotation::Keep <==> size <= 1024 * 1024,
        none == Rotation::Keep,
        failed == Rotation::Truncate <==> size > 4 * 1024 * 1024,
        failed == Rotation::Keep <==> size <= 4 * 1024 * 1024,
{
}

// ───────────────────────── configuration ─────────────────────────

/// What is read from a text depends on the values of its keys, the first of each.
pub proof fn law_from_text(source: &str, other: &str, r: Config, s: Config)
    requires
        call_ensures(Config::from_text, (source,), r),
        call_ensures(Config::from_text, (other,), s),
        forall|key: Seq<char>| #[trigger]
            config::lookup(config::entries(text::lines(source@)), key) == config::lookup(
                config::entries(text::lines(other@)),
                key,
            ),
    ensures
        r.settings() == s.settings(),
        r.poll_interval_secs >= 1,
        r.fast_poll_secs <= r.poll_interval_secs,
        r.policy_ac@ == "system"@ || r.policy_ac@ == "display"@,
        r.policy_dc@ == "system"@ || r.policy_dc@ == "display"@,
{
    let es = config::entries(text::lines(source@));
    settings_laws::law_settings_depend_on_the_values(es, config::entries(text::lines(other@)));
    config_laws::law_settings_are_sane(es);
}

/// A setting that is saved is the one that is read back, and every other keeps its value.
pub proof fn law_set_and_save(
    cfg: &mut Config,
    source: Seq<char>,
    key: &str,
    value: &str,
    r: String,
)
    requires
        call_ensures(Config::set_and_save, (cfg, key, value), r),
        old(cfg).raw_lines() == text::lines(source),
        config_laws::writable_key(key@),
        config_laws::writable_value(value@),
    ensures
        ({
            let before = config::entries(text::lines(source));
            let after = config::entries(text::lines(r@));
            &&& config::lookup(after, key@) == value@
            &&& forall|k: Seq<char>| k != key@ ==> #[trigger] config::lookup(after, k)
                == config::lookup(before, k)
            &&& final(cfg).settings() == config::settings_of(after)
            &&& final(cfg).raw_lines() == text::lines(r@)
        }),
{
    config_laws::law_rewrite_reads_back(source, key@, value@);
}

/// Migrating adds the keys that are missing with their default values, and changes no other.
pub proof fn law_migrate_text(source: &str, r: String, key: Seq<char>)
    requires
        call_ensures(config::migrate_text, (source,), r),
    ensures
        ({
            let es = config::entries(text::lines(source@));
            let ds = config::entries(text::lines(config::DEFAULT_CONFIG@));
            let after = config::entries(text::lines(r@));
            &&& config::has_key(es, key) ==> config::lookup(after, key) == config::lookup(es, key)
            &&& !config::has_key(es, key) ==> config::lookup(after, key) == config::lookup(ds, key)
            &&& config::has_key(ds, key) ==> config::has_key(after, key)
        }),
        config::migrated(r@) == r@,
{
    config_laws::law_migration_keeps_values(source@, key);
    config_laws::law_migration_is_idempotent(source@);
}

/// What is stored is what is in effect, and only where the file is missing or lacks a key.
pub proof fn law_load_or_create(found: Found, r: Loaded)
    requires
        call_ensures(Config::load_or_create, (found,), r),
    ensures
        found is Absent ==> r.store is Some && r.store->0@ == config::DEFAULT_CONFIG@,
        found is Unreadable ==> r.store is None,
        r.store is Some ==> r.config.raw_lines() == text::lines(r.store->0@),
        !(found is Text) ==> r.config.raw_lines() == text::lines(config::DEFAULT_CONFIG@),
        found matches Found::Text(s) ==> {
            &&& text::trim(s@).len() == 0 ==> r.store is None && r.config.raw_lines()
                == text::lines(config::DEFAULT_CONFIG@)
            &&& text::trim(s@).len() > 0 && r.store is None ==> r.config.raw_lines()
                == text::lines(s@)
            &&& r.store is Some ==> r.store->0@ == config::migrated(s@) && r.store->0@ != s@
        },
        r.config.settings() == config::settings_of(config::entries(r.config.raw_lines())),
{
    settings_laws::law_files_are_stored_only_where_they_must_change(found);
}

// ───────────────────────── readings ─────────────────────────

/// A meter tells the gain over the time since the reading before, where that is far enough
/// back, and keeps each reading.
pub proof fn law_update(m: &mut RateMeter, total: u64, now: u64, r: Option<Double>)
    requires
        call_ensures(RateMeter::update, (m, total, now), r),
    ensures
        final(m).prev == Some((total, now)),
        old(m).prev is None ==> r is None,
        old(m).prev matches Some(p) ==> {
            let gained = if total >= p.0 {
                (total - p.0) as nat
            } else {
                0
            };
            &&& detect::elapsed(p.1, now) <= 50_000_000 ==> r is None
            &&& detect::elapsed(p.1, now) > 50_000_000 ==> r == Some(
                double::rounded(gained, 1).share(double::seconds(detect::elapsed(p.1, now) as u64)),
            )
        },
{
    if old(m).prev is Some {
        let p = old(m).prev->0;
        meter_laws::law_rates_are_gains_over_time(p.0, p.1, total, now);
    }
}

/// Two readings of a process, far enough apart, tell its share of a core.
pub proof fn law_cpu_percent(
    t: &mut CpuTracker,
    u: &mut CpuTracker,
    a: CpuReading,
    b: CpuReading,
    r: Option<Double>,
    s: Option<Double>,
)
    requires
        call_ensures(CpuTracker::cpu_percent, (t, a), r),
        call_ensures(CpuTracker::cpu_percent, (u, b), s),
        old(u).cache@ == final(t).cache@,
        a.pid == b.pid,
        a.times is Some,
        b.times is Some,
    ensures
        !old(t).cache@.contains_key(a.pid) ==> r is None,
        s is Some <==> a.times->0.create == b.times->0.create && detect::elapsed(a.at, b.at) >= 300_000_000,
        s is Some ==> s == Some(
            meter_laws::run_seconds(b.times->0).excess(meter_laws::run_seconds(a.times->0)).share(
                double::seconds(detect::elapsed(a.at, b.at) as u64),
            ).product(100),
        ),
{
    meter_laws::law_two_readings_tell_the_use(
        old(t).cache@,
        a.pid,
        a.times->0,
        a.at,
        b.times->0,
        b.at,
    );
}

/// A process has the connections that stand in the tables as established.
pub proof fn law_established_per_pid(
    v4: Vec<u32>,
    v6: Vec<u32>,
    a: nat,
    b: nat,
    pid: u32,
    m: HashMap<u32, u32>,
)
    requires
        call_ensures(dl::established_per_pid, (&Some(v4), &Some(v6)), m),
        v4@.len() == 1 + 6 * a,
        v6@.len() == 1 + 14 * b,
        v4@[0] == a,
        v6@[0] == b,
        a + b <= u32::MAX,
    ensures
        dl::count_of(m@, pid) == dl_laws::established_rows(v4@, 6, 0, 5, pid, a).len()
            + dl_laws::established_rows(v6@, 14, 12, 13, pid, b).len(),
{
    dl_laws::law_connections_are_the_established_rows(v4@, v6@, a, b, pid);
}

/// A table that has grown is asked for again with room for all of it, twice at most.
pub proof fn law_tcp_fetch(f: TcpFetch, code: u32, size: u32, r: TcpFetch)
    requires
        call_ensures(TcpFetch::after, (f, code, size), r),
    ensures
        f == TcpFetch::Size && code == 122 && size > 0 ==> r is Rows && r->tries_left == 3,
        f == TcpFetch::Size && (code != 122 || size == 0) ==> r == TcpFetch::Failed,
        f is Rows && code == 0 ==> r == TcpFetch::Done,
        f is Rows && code == 122 && f->tries_left > 1 ==> r is Rows && r->tries_left
            == f->tries_left - 1,
        f is Rows && code == 122 && f->tries_left <= 1 ==> r == TcpFetch::Failed,
        f is Rows && code != 0 && code != 122 ==> r == TcpFetch::Failed,
        f == TcpFetch::Done || f == TcpFetch::Failed ==> r == f,
        r is Rows ==> r->words * 4 >= size && r->words * 4 < size + 4,
{
}

// ───────────────────────── the tray ─────────────────────────

/// The icon shows the mode, and in the automatic mode what is held.
pub proof fn law_current_look(mode: Mode, held: Option<Held>, r: Look)
    requires
        call_ensures(tray::current_look, (mode, held), r),
    ensures
        r == Look::Paused <==> mode == Mode::Paused,
        r == Look::Force <==> mode is Force,
        r == Look::System <==> mode == Mode::Auto && held == Some(Held::System),
        r == Look::SystemDisplay <==> mode == Mode::Auto && held == Some(Held::SystemDisplay),
        r == Look::Idle <==> mode == Mode::Auto && (held is None || held == Some(Held::Nothing)),
{
}

/// Each item does what it is for.
pub proof fn law_handle_command(
    id: u32,
    cfg: Config,
    now: u64,
    installed: Option<bool>,
    a: Action,
)
    requires
        call_ensures(tray::handle_command, (id, &cfg, now, installed), a),
    ensures
        a is SetMode <==> id == 110 || id == 111 || 120 <= id <= 123,
        id == 110 ==> a == (Action::SetMode { mode: Mode::Auto, pick: 0 }),
        id == 111 ==> a == (Action::SetMode { mode: Mode::Paused, pick: 0 }),
        120 <= id <= 123 ==> a->pick == id && a->mode is Force,
        id == 120 && now + 1800 * SECOND <= u64::MAX ==> a->mode->0 == now + 1800 * SECOND,
        id == 121 && now + 3600 * SECOND <= u64::MAX ==> a->mode->0 == now + 3600 * SECOND,
        id == 122 && now + 10800 * SECOND <= u64::MAX ==> a->mode->0 == now + 10800 * SECOND,
        id == 123 && now + 315_360_000 * SECOND <= u64::MAX ==> a->mode->0 == now + 315_360_000
            * SECOND,
        a is Save <==> 130 <= id <= 134 || id == 140 || id == 141,
        id == 130 ==> a->key@ == "audio_enabled"@ && (cfg.audio_enabled <==> a->value@
            == "false"@),
        id == 131 ==> a->key@ == "net_enabled"@ && (cfg.net_enabled <==> a->value@ == "false"@),
        id == 132 ==> a->key@ == "proc_enabled"@ && (cfg.proc_enabled <==> a->value@ == "false"@),
        id == 133 ==> a->key@ == "dl_enabled"@ && (cfg.dl_enabled <==> a->value@ == "false"@),
        id == 134 ==> a->key@ == "hint_enabled"@ && (cfg.hint_enabled <==> a->value@ == "false"@),
        130 <= id <= 134 ==> a->value@ == "true"@ || a->value@ == "false"@,
        id == 140 ==> a->key@ == "policy_ac"@ && a->value@ != cfg.policy_ac@,
        id == 141 ==> a->key@ == "policy_dc"@ && a->value@ != cfg.policy_dc@,
        id == 140 || id == 141 ==> a->value@ == "system"@ || a->value@ == "display"@,
        a is Autostart <==> id == 142,
        id == 142 ==> (a->installing <==> installed != Some(true)),
        a is OpenLog <==> id == 150,
        a is OpenConfig <==> id == 151,
        a is Reload <==> id == 152,
        a is Details <==> id == 153,
        a is Exit <==> id == 160,
{
    reveal_strlit("true");
    reveal_strlit("false");
    reveal_strlit("system");
    reveal_strlit("display");
    assert("true"@.len() == 4 && "false"@.len() == 5);
    assert("system"@.len() == 6 && "display"@.len() == 7);
    tray_laws::law_only_switches_are_saved(id, cfg);
}

/// A click beside the rows is passed on, and so is one on an item that closes the menu;
/// letting go over any other item carries it out.
pub proof fn law_mouse_hook(row: i32, id: u32, released: bool, r: Click)
    requires
        call_ensures(tray::mouse_hook, (row, id, released), r),
    ensures
        row < 0 ==> r == Click::Pass,
        id == 150 || id == 151 || id == 153 || id == 160 ==> r == Click::Pass,
        r == Click::Run ==> released && id != 0 && id != 100,
        row >= 0 && released && 110 <= id <= 142 ==> r == Click::Run,
        row >= 0 && !released && 110 <= id <= 142 ==> r == Click::Swallow,
        row >= 0 && (id == 0 || id == 100) ==> r == Click::Swallow,
{
}

/// A message leads to what it is for.
pub proof fn law_wnd_proc(m: Message, mode: Mode, display_on: bool, r: Reaction)
    requires
        call_ensures(tray::wnd_proc, (m, mode, display_on), r),
    ensures
        r.set_mode is Some <==> m == Message::TrayClick,
        m == Message::TrayClick ==> r.set_mode == Some(
            if mode == Mode::Auto {
                Mode::Paused
            } else {
                Mode::Auto
            },
        ),
        r.command is Some <==> m is Command,
        m matches Message::Command(id) ==> r.command == Some(id),
        r.quit <==> m == Message::Destroyed,
        r.remove_icon <==> m == Message::Destroyed,
        r.add_icon <==> m == Message::TaskbarCreated,
        r.show_menu <==> m == Message::TrayMenu,
        r.show_details <==> m == Message::TrayDoubleClick,
        r.answer is None <==> m == Message::Other,
        m matches Message::Display(n) ==> {
            &&& r.display_on == Some(n != 0)
            &&& r.wake_worker <==> display_on != (n != 0)
        },
        m == Message::PowerStatus || m == Message::Resumed ==> r.wake_worker,
        m == Message::Resumed ==> r.display_on == Some(true),
        !(m is Display) && m != Message::Resumed ==> r.display_on is None,
{
}

// ───────────────────────── starting with the session ─────────────────────────

/// A task that stands replaces the registry entry, one that does not falls back on it, and
/// the installation ends after two steps.
pub proof fn law_install(
    exe: &str,
    ok: bool,
    first: Install,
    second: Install,
    third: Install,
    again: bool,
)
    requires
        call_ensures(autostart::install, (Install::Schedule, ok, exe), first),
        call_ensures(autostart::install, (first, again, exe), second),
        call_ensures(autostart::install, (second, ok, exe), third),
    ensures
        ok ==> first == Install::DropRun,
        !ok ==> first == Install::AddRun,
        second is Done,
        third == second,
        ok ==> second->Done_0@ == "autostart: 计划任务已注册 ("@ + exe@ + ")"@,
        !ok && again ==> second->Done_0@ == autostart::fallback_text(exe@),
        !ok && !again ==> second->Done_0@ == "autostart: 注册失败(计划任务与注册表均未成功)"@,
{
}

/// The program starts with the session where the task or the registry entry stands.
pub proof fn law_is_installed(task: bool, entry: bool, r: bool)
    requires
        call_ensures(autostart::is_installed, (task, entry), r),
    ensures
        r <==> task || entry,
{
}

// ───────────────────────── odds and ends ─────────────────────────

/// A clock that has gone back has not moved.
pub proof fn law_since(from: u64, to: u64, r: u64)
    requires
        call_ensures(detect::since, (from, to), r),
    ensures
        from <= to ==> r == to - from,
        to <= from ==> r == 0,
{
}

/// What is kept of a map is what belongs to one of the processes.
pub proof fn law_retain(m: HashMap<u32, u32>, pids: Vec<u32>, r: HashMap<u32, u32>, k: u32)
    requires
        call_ensures(detect::retain::<u32>, (&m, &pids), r),
    ensures
        r@.contains_key(k) <==> m@.contains_key(k) && pids@.contains(k),
        r@.contains_key(k) ==> r@[k] == m@[k],
{
}

/// The tooltip that is handed over is cut to the room that there is for it.
pub proof fn law_fill_tip(tip: &str, units: Vec<u16>)
    requires
        call_ensures(tray::fill_tip, (tip,), units),
    ensures
        units@.len() <= 127,
        units@.is_prefix_of(autostart::encoded(tip@)),
        autostart::encoded(tip@).len() <= 127 ==> units@ == autostart::encoded(tip@),
        autostart::encoded(tip@).len() > 127 ==> units@.len() == 127,
{
}

/// The bits of the icon go from its lowest row up.
pub proof fn law_icon_bits(look: Look, bits: Vec<u32>, x: int, y: int)
    requires
        call_ensures(tray::icon_bits, (look,), bits),
        0 <= x < 32,
        0 <= y < 32,
    ensures
        bits@.len() == 32 * 32,
        bits@[y * 32 + x] == crate::icon::picture(look, 32)[(31 - y) * 32 + x],
{
    assert((y * 32 + x) % 32 == x && (y * 32 + x) / 32 == y);
    assert(((31 - y) * 32 + x) % 32 == x && ((31 - y) * 32 + x) / 32 == 31 - y);
}

/// A mouse message concerns the menu where it is a left button over an open menu that can be
/// read.
pub proof fn law_hook_concerned(
    action: bool,
    left_button: bool,
    readable: bool,
    menu_open: bool,
    r: bool,
)
    requires
        call_ensures(tray::hook_concerned, (action, left_button, readable, menu_open), r),
    ensures
        r ==> action,
        r ==> left_button,
        r ==> readable,
        r ==> menu_open,
        !r ==> !action || !left_button || !readable || !menu_open,
{
}

/// What is not known yet of starting with the session is taken to be off, and asked for.
pub proof fn law_autostart_installed(known: Option<bool>, r: (bool, bool))
    requires
        call_ensures(tray::autostart_installed, (known,), r),
    ensures
        r.1 <==> known is None,
        known is Some ==> r.0 == known->0,
        known is None ==> !r.0,
{
}

/// Removing says whether there was anything to remove.
pub proof fn law_uninstall(task: bool, entry: bool, r: String)
    requires
        call_ensures(autostart::uninstall, (task, entry), r),
    ensures
        task || entry ==> r@ == "autostart: 已移除"@,
        !task && !entry ==> r@ == "autostart: 未找到需要移除的项"@,
{
}

/// The worker starts with nothing held, nothing known and a full round due, and logs what is
/// wrong with the configuration.
pub proof fn law_start(cfg: Config, r: (Worker, Vec<String>), mode: Mode, now: u64)
    requires
        call_ensures(Worker::start, (cfg,), r),
    ensures
        r.0.cfg == cfg,
        r.0.engine.held == Held::Nothing,
        r.0.engine.last_active is None,
        !r.0.engine.in_grace,
        !r.0.engine.hold_warned,
        !r.0.looks_first(mode, now),
        r.1@.len() == r.0.seen@.len(),
{
    assert(text::views(r.1@).len() == r.1@.len());
    assert(text::views(r.0.seen@).len() == r.0.seen@.len());
}

/// The description names the mode, and in the automatic one what is held and why.
pub proof fn law_describe(s: engine::Snapshot, r: String)
    requires
        call_ensures(engine::Snapshot::describe, (&s,), r),
    ensures
        s.mode == Mode::Paused ==> r@ == "已暂停 · 允许正常休眠"@,
        s.mode == Mode::Auto && s.held == Held::Nothing ==> r@ == "空闲 · 未持有请求"@,
        s.mode == Mode::Auto && s.held == Held::System && s.reasons@.len() > 0 ==> r@
            == "仅防睡"@ + " · "@ + text::join(text::views(s.reasons@), " · "@),
        s.mode == Mode::Auto && s.held == Held::SystemDisplay && s.reasons@.len() > 0 ==> r@
            == "保持屏幕"@ + " · "@ + text::join(text::views(s.reasons@), " · "@),
        s.mode is Force && s.force_left is Some ==> r@ == "强制常亮 · 剩余 "@ + text::dec(
            s.force_left->0 as nat / 60_000_000_000,
        ) + "分"@ + text::dec(s.force_left->0 as nat / 1_000_000_000 % 60) + "秒"@,
{
    assert(text::views(s.reasons@).len() == s.reasons@.len());
}

/// The first line of a run tells how the process runs.
pub proof fn law_started_line(eco: bool, priority: bool, r: String)
    requires
        call_ensures(daemon::started_line, (eco, priority), r),
    ensures
        r@ == "=== stayawake started === (EcoQoS="@ + (if eco {
            "true"@
        } else {
            "false"@
        }) + " priority="@ + (if priority {
            "true"@
        } else {
            "false"@
        }) + ")"@,
{
}

/// What could not be stored is reported, a migrated file once.
pub proof fn law_store_failure(
    existed: bool,
    warned: bool,
    error: &str,
    r: (Option<String>, bool),
)
    requires
        call_ensures(config::store_failure, (existed, warned, error), r),
    ensures
        r.0 is None <==> existed && warned,
        r.1 <==> warned || existed,
        !existed ==> r.0->0@ == "warn: 无法写入配置文件: "@ + error@,
        existed && !warned ==> r.0->0@ == "warn: 无法写入迁移后的配置: "@ + error@,
{
}

/// What is held has a name, and the flags that ask for it.
pub proof fn law_label_and_flags(held: Held, name: &'static str, flags: u32)
    requires
        call_ensures(Held::label, (held,), name),
        call_ensures(Held::flags, (held,), flags),
    ensures
        held == Held::Nothing ==> name@ == "none"@ && flags == 0x8000_0000,
        held == Held::System ==> name@ == "system"@ && flags == 0x8000_0001,
        held == Held::SystemDisplay ==> name@ == "system+display"@ && flags == 0x8000_0003,
{
}

} // verus!
