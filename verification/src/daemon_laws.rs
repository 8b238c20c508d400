//! What holds of the resident process.
use vstd::prelude::*;

use crate::config::Config;
use crate::daemon;
use crate::daemon::{Command, Waited, Worker};
use crate::detect;
use crate::double::SECOND;
use crate::engine::Mode;
use crate::power::Held;
use crate::text;

verus! {

// ───────────────────────── when to look ─────────────────────────

/// A quick look comes first in the automatic mode while nothing is held, where quick looks
/// are on and come more often than full rounds, until the interval of full rounds is over
/// or somebody asks for a round; at no other time.
pub proof fn law_quick_looks_fill_the_time_between_rounds(w: Worker, mode: Mode, last: u64, now: u64)
    ensures
        w.last_full == Some(last) ==> (w.looks_first(mode, now) <==> {
            &&& mode == Mode::Auto
            &&& w.engine.held == Held::Nothing
            &&& 0 < w.cfg.fast_poll_secs < w.cfg.poll_interval_secs
            &&& detect::elapsed(last, now) < w.cfg.poll_interval_secs * SECOND
            &&& !w.kicked
        }),
        w.last_full is None ==> !w.looks_first(mode, now),
{
}

/// After a round the worker waits for the interval of quick looks where those are made, and
/// for that of full rounds otherwise.
pub proof fn law_the_wait_is_the_interval_in_use(w: Worker, now: u64)
    ensures
        w.engine.held == Held::Nothing && 0 < w.cfg.fast_poll_secs < w.cfg.poll_interval_secs
            ==> w.rest_secs(Mode::Auto, now) == w.cfg.fast_poll_secs,
        w.engine.held != Held::Nothing ==> w.rest_secs(Mode::Auto, now)
            == w.cfg.poll_interval_secs,
        w.cfg.fast_poll_secs == 0 || w.cfg.fast_poll_secs >= w.cfg.poll_interval_secs
            ==> w.rest_secs(Mode::Auto, now) == w.cfg.poll_interval_secs,
        w.rest_secs(Mode::Paused, now) == w.cfg.poll_interval_secs,
{
}

/// While forced the worker waits for the interval of full rounds, or for as many seconds as
/// cover what is left, whichever is less, but for one at least.
pub proof fn law_the_wait_ends_with_a_forced_mode(w: Worker, until: u64, now: u64)
    requires
        now < until,
        w.cfg.poll_interval_secs >= 1,
    ensures
        ({
            let secs = w.rest_secs(Mode::Force(until), now);
            &&& secs <= w.cfg.poll_interval_secs
            &&& secs == w.cfg.poll_interval_secs || until - now <= secs * SECOND
            &&& (secs - 1) * SECOND < until - now
        }),
{
    let left = (until - now) as nat;
    let up = daemon::seconds_up(left);
    assert(up * SECOND >= left && (up - 1) * SECOND < left && up >= 1) by (nonlinear_arith)
        requires
            up == (left + SECOND - 1) as nat / SECOND as nat,
            left > 0,
            SECOND > 0,
    ;
    let secs = w.rest_secs(Mode::Force(until), now);
    assert(secs <= up);
    assert((secs - 1) * SECOND <= (up - 1) * SECOND) by (nonlinear_arith)
        requires
            secs <= up,
            SECOND > 0,
    ;
}

/// A round is due where there was none, or the last is as long ago as the interval.
pub proof fn law_rounds_are_due_by_the_interval(cfg: Config, last: u64, now: u64)
    ensures
        daemon::round_due(cfg, Some(last), now) <==> detect::elapsed(last, now)
            >= cfg.poll_interval_secs * SECOND,
        daemon::round_due(cfg, None, now),
{
}

/// A wait that failed is made up for by sleeping, so that the worker does not spin, and for
/// no longer than it was to be; a wait that ended calls for no sleep.
pub proof fn law_failed_waits_do_not_spin(secs: u64)
    ensures
        daemon::slept_instead(Waited::NoTimer, secs) == secs,
        secs >= 1 ==> 1 <= daemon::slept_instead(Waited::Failed, secs) <= secs,
        daemon::slept_instead(Waited::Failed, secs) <= 5,
        secs <= 5 ==> daemon::slept_instead(Waited::Failed, secs) == secs,
        secs > 5 ==> daemon::slept_instead(Waited::Failed, secs) == 5,
        daemon::slept_instead(Waited::Expired, secs) == 0,
        daemon::slept_instead(Waited::Kicked, secs) == 0,
{
}

/// Only the user interface calls for a round by ending a wait.
pub proof fn law_only_a_kick_calls_for_a_round(waited: Waited)
    ensures
        daemon::calls_for_a_round(waited) <==> waited == Waited::Kicked,
{
}

// ───────────────────────── putting the machine to sleep ─────────────────────────

/// The machine is put to sleep where that is configured and activity has come to its
/// natural end: in the automatic mode, after the grace period, with nothing found, when what
/// was held is let go. At no other time is it.
pub proof fn law_the_machine_sleeps_after_activity(
    cfg: Config,
    mode: Mode,
    prev_in_grace: bool,
    in_grace: bool,
    reasons: nat,
    prev_held: Held,
    held: Held,
)
    ensures
        daemon::puts_to_sleep(
            cfg,
            mode,
            prev_in_grace,
            in_grace,
            reasons,
            prev_held,
            prev_held,
            held,
        ) <==> {
            &&& cfg.sleep_on_release
            &&& mode == Mode::Auto
            &&& prev_in_grace
            &&& !in_grace
            &&& reasons == 0
            &&& prev_held != Held::Nothing
            &&& held == Held::Nothing
        },
{
}

// ───────────────────────── the log ─────────────────────────

/// Every warning that was not logged before is logged, once, and nothing else is.
pub proof fn law_every_new_warning_is_logged(seen: Seq<Seq<char>>, all: Seq<Seq<char>>, n: nat)
    requires
        n <= all.len(),
    ensures
        ({
            let added = daemon::new_ones(seen, all, n);
            &&& forall|k: int|
                0 <= k < n && !seen.contains(#[trigger] all[k]) ==> added.contains(all[k])
            &&& forall|i: int|
                0 <= i < added.len() ==> !seen.contains(#[trigger] added[i]) && all.contains(
                    added[i],
                )
            &&& added.no_duplicates()
        }),
    decreases n,
{
    let added = daemon::new_ones(seen, all, n);
    if n > 0 {
        let p = (n - 1) as nat;
        law_every_new_warning_is_logged(seen, all, p);
        let before = daemon::new_ones(seen, all, p);
        let w = all[n - 1];
        if !seen.contains(w) && !before.contains(w) {
            assert(added == before.push(w));
            assert(added[before.len() as int] == w);
        }
        assert forall|k: int| 0 <= k < n && !seen.contains(#[trigger] all[k]) implies added.contains(
            all[k],
        ) by {
            if k < p {
                let i = choose|i: int| 0 <= i < before.len() && before[i] == all[k];
                assert(added[i] == all[k]);
            } else if before.contains(w) {
                let i = choose|i: int| 0 <= i < before.len() && before[i] == w;
                assert(added[i] == w);
            }
        }
        assert forall|i: int| 0 <= i < added.len() implies !seen.contains(#[trigger] added[i])
            && all.contains(added[i]) by {
            if i < before.len() {
                assert(added[i] == before[i]);
            } else {
                assert(all[n - 1] == w);
            }
        }
    }
}

/// A warning is logged as such.
pub proof fn law_warnings_are_marked(v: Seq<Seq<char>>, i: int)
    requires
        0 <= i < v.len(),
    ensures
        daemon::warn_lines(v).len() == v.len(),
        daemon::warn_lines(v)[i] == "warn: "@ + v[i],
{
}

/// A change is logged with its cause: the reasons, or the grace period, or that the machine
/// is idle.
pub proof fn law_changes_are_logged_with_their_cause(
    held: Held,
    ac: bool,
    display_on: bool,
    reasons: Seq<Seq<char>>,
    in_grace: bool,
)
    ensures
        ({
            let line = daemon::change_text(held, ac, display_on, reasons, in_grace);
            let head = text::pad_right(held.name(), 14) + " ac="@ + (if ac {
                "1"@
            } else {
                "0"@
            }) + " disp="@ + (if display_on {
                "on"@
            } else {
                "off"@
            }) + " "@;
            &&& reasons.len() > 0 ==> line == head + text::join(reasons, " · "@)
            &&& reasons.len() == 0 && in_grace ==> line == head + "(grace)"@
            &&& reasons.len() == 0 && !in_grace ==> line == head + "(idle)"@
        }),
{
}

/// A round logs a refused request, a change and that the machine is put to sleep, each where
/// there is one and in this order.
pub proof fn law_rounds_log_what_happens(warn: bool, changed: bool, change: Seq<char>, suspend: bool)
    ensures
        ({
            let lines = daemon::round_log(warn, changed, change, suspend);
            &&& lines.len() == (if warn {
                1int
            } else {
                0
            }) + (if changed {
                1int
            } else {
                0
            }) + (if suspend {
                1int
            } else {
                0
            })
            &&& warn ==> lines[0] == daemon::REFUSED@
            &&& changed ==> lines.contains(change)
            &&& suspend ==> lines.last() == "sleep_on_release -> SetSuspendState"@
        }),
{
    let lines = daemon::round_log(warn, changed, change, suspend);
    if changed {
        let i: int = if warn {
            1
        } else {
            0
        };
        assert(lines[i] == change);
    }
}

// ───────────────────────── the command line ─────────────────────────

/// Without an argument the program runs; each option has its own meaning, and anything else
/// has none.
pub proof fn law_options_mean_what_they_say(a: Seq<char>)
    ensures
        daemon::command_of(None) == Command::Run,
        daemon::command_of(Some("--status"@)) == Command::Status,
        daemon::command_of(Some("--install-autostart"@)) == Command::InstallAutostart,
        daemon::command_of(Some("--uninstall-autostart"@)) == Command::UninstallAutostart,
        daemon::command_of(Some("--help"@)) == Command::Help,
        daemon::command_of(Some("-h"@)) == Command::Help,
        a != "--status"@ && a != "--install-autostart"@ && a != "--uninstall-autostart"@ && a
            != "--help"@ && a != "-h"@ ==> daemon::command_of(Some(a)) == Command::Unknown,
{
    reveal_strlit("--status");
    reveal_strlit("--install-autostart");
    reveal_strlit("--uninstall-autostart");
    reveal_strlit("--help");
    reveal_strlit("-h");
    assert("--status"@.len() == 8 && "--install-autostart"@.len() == 19
        && "--uninstall-autostart"@.len() == 21 && "--help"@.len() == 6 && "-h"@.len() == 2);
}

} // verus!
