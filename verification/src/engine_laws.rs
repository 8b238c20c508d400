//! What holds of every decision.
use vstd::prelude::*;

use crate::config::Config;
use crate::detect;
use crate::detect::audio;
use crate::detect::dl;
use crate::detect::hint;
use crate::detect::net;
use crate::detect::proc;
use crate::double;
use crate::double::SECOND;
use crate::engine;
use crate::engine::{Detectors, Mode, QuickReadings, Readings};
use crate::power::{Held, PowerSource};
use crate::text;

verus! {

/// Without activity the policy holds nothing, on any power and with any screen.
pub proof fn law_idle_holds_nothing(cfg: Config, ac: bool, display_on: bool)
    ensures
        engine::policy(cfg, ac, display_on, false) == Held::Nothing,
{
}

/// With activity the policy always holds something.
pub proof fn law_activity_prevents_sleep(cfg: Config, ac: bool, display_on: bool)
    ensures
        engine::policy(cfg, ac, display_on, true) != Held::Nothing,
{
}

/// Where screens are not to be woken, the policy never asks for one that is off.
pub proof fn law_the_policy_wakes_no_screen(cfg: Config, ac: bool, busy: bool)
    requires
        cfg.never_wake_display,
    ensures
        engine::policy(cfg, ac, false, busy) != Held::SystemDisplay,
{
}

/// What is held on one power source depends on the policy of that source alone: two
/// configurations that agree on it hold the same, whatever they say of the other source.
pub proof fn law_each_source_has_its_own_policy(
    a: Config,
    b: Config,
    ac: bool,
    display_on: bool,
    busy: bool,
)
    requires
        a.never_wake_display == b.never_wake_display,
        ac ==> a.policy_ac@ == b.policy_ac@,
        !ac ==> a.policy_dc@ == b.policy_dc@,
    ensures
        engine::policy(a, ac, display_on, busy) == engine::policy(b, ac, display_on, busy),
{
}

/// A policy means the same on both power sources.
pub proof fn law_a_policy_means_the_same_on_both_sources(
    a: Config,
    b: Config,
    display_on: bool,
    busy: bool,
)
    requires
        a.never_wake_display == b.never_wake_display,
        a.policy_ac@ == b.policy_dc@,
    ensures
        engine::policy(a, true, display_on, busy) == engine::policy(b, false, display_on, busy),
{
}

/// With activity the screen is kept on where the policy of the power source in use says
/// `display`, unless it is off and is not to be woken; otherwise sleep alone is prevented.
pub proof fn law_the_policy_in_use_decides_about_the_screen(
    cfg: Config,
    ac: bool,
    display_on: bool,
)
    ensures
        ac && cfg.policy_ac@ == "display"@ && (display_on || !cfg.never_wake_display)
            ==> engine::policy(cfg, ac, display_on, true) == Held::SystemDisplay,
        !ac && cfg.policy_dc@ == "display"@ && (display_on || !cfg.never_wake_display)
            ==> engine::policy(cfg, ac, display_on, true) == Held::SystemDisplay,
        ac && cfg.policy_ac@ != "display"@ ==> engine::policy(cfg, ac, display_on, true)
            == Held::System,
        !ac && cfg.policy_dc@ != "display"@ ==> engine::policy(cfg, ac, display_on, true)
            == Held::System,
        cfg.never_wake_display && !display_on ==> engine::policy(cfg, ac, display_on, true)
            == Held::System,
{
}

/// The automatic mode leaves the decision to the policy.
pub proof fn law_the_automatic_mode_follows_the_policy(
    cfg: Config,
    ac: bool,
    display_on: bool,
    busy: bool,
    now: u64,
)
    ensures
        engine::wanted(cfg, Mode::Auto, ac, display_on, busy, now) == engine::policy(
            cfg,
            ac,
            display_on,
            busy,
        ),
{
}

/// A round that finds something asks for what the policy says of activity, and a round
/// within the grace period after one asks for the same; a round that finds nothing, with
/// no activity before or with the grace period over, asks for nothing.
pub proof fn law_rounds_ask_for_what_activity_calls_for(
    cfg: Config,
    source: PowerSource,
    display_on: bool,
    any: Option<u64>,
    last: u64,
    now: u64,
)
    ensures
        ({
            let busy = engine::policy(cfg, source != PowerSource::Dc, display_on, true);
            let found = engine::asked_for(cfg, Mode::Auto, source, display_on, true, any, now);
            let quiet = engine::asked_for(
                cfg,
                Mode::Auto,
                source,
                display_on,
                false,
                Some(last),
                now,
            );
            let never = engine::asked_for(cfg, Mode::Auto, source, display_on, false, None, now);
            &&& found == busy
            &&& detect::elapsed(last, now) < cfg.grace_secs * SECOND ==> quiet == busy
            &&& detect::elapsed(last, now) >= cfg.grace_secs * SECOND ==> quiet == Held::Nothing
            &&& never == Held::Nothing
        }),
{
}

/// Only a round that finds nothing is in the grace period, and it is for as long as the
/// last activity is not older than that period.
pub proof fn law_the_grace_period_follows_activity(
    cfg: Config,
    any: Option<u64>,
    last: u64,
    now: u64,
)
    ensures
        !engine::lingers(cfg, true, any, now),
        !engine::lingers(cfg, false, None, now),
        engine::lingers(cfg, false, Some(last), now) <==> detect::elapsed(last, now) < cfg.grace_secs * SECOND,
{
}

/// Activity is remembered with the time of the last round that found some.
pub proof fn law_activity_is_remembered(last: Option<u64>, now: u64, later: u64)
    ensures
        engine::active_after(last, true, now) == Some(now),
        engine::active_after(last, false, now) == last,
        engine::active_after(engine::active_after(last, true, now), false, later) == Some(now),
{
}

/// A power source that is not known counts as plugged in: only a battery that is known to
/// be in use counts as one.
pub proof fn law_an_unknown_source_counts_as_plugged_in(
    cfg: Config,
    mode: Mode,
    display_on: bool,
    found: bool,
    last: Option<u64>,
    now: u64,
)
    ensures
        engine::plugged_in(PowerSource::Ac),
        !engine::plugged_in(PowerSource::Dc),
        engine::plugged_in(PowerSource::Unknown),
        engine::asked_for(cfg, mode, PowerSource::Unknown, display_on, found, last, now)
            == engine::asked_for(cfg, mode, PowerSource::Ac, display_on, found, last, now),
{
}

/// While paused a round asks for nothing, and while forced for the screen, whatever was
/// found.
pub proof fn law_the_user_overrules_activity(
    cfg: Config,
    source: PowerSource,
    display_on: bool,
    found: bool,
    last: Option<u64>,
    now: u64,
    until: u64,
)
    ensures
        engine::asked_for(cfg, Mode::Paused, source, display_on, found, last, now)
            == Held::Nothing,
        now < until ==> engine::asked_for(
            cfg,
            Mode::Force(until),
            source,
            display_on,
            found,
            last,
            now,
        ) == Held::SystemDisplay,
        now >= until ==> engine::asked_for(
            cfg,
            Mode::Force(until),
            source,
            display_on,
            found,
            last,
            now,
        ) == engine::asked_for(cfg, Mode::Auto, source, display_on, found, last, now),
{
}

/// A request that is accepted is in force after the round, one that is refused leaves what
/// is held as it was, and a round that asks for what is held changes nothing.
pub proof fn law_what_is_accepted_is_held(held: Held, asked: Held, warned: bool)
    ensures
        engine::held_after(held, asked, true) == asked,
        engine::held_after(held, asked, false) == held,
        engine::warned_after(held, held, true, warned) == warned,
        engine::warned_after(held, held, false, warned) == warned,
{
}

/// Of refusals in a row the first is reported and no other; after an accepted request the
/// next refusal is reported again.
pub proof fn law_refusals_are_reported_once(held: Held, first: Held, second: Held, warned: bool)
    requires
        first != held,
        second != held,
    ensures
        engine::warns(held, first, false, false),
        !engine::warns(held, second, false, engine::warned_after(held, first, false, warned)),
        !engine::warns(held, first, true, warned),
        ({
            let now_held = engine::held_after(held, first, true);
            held != now_held && engine::warns(
                now_held,
                held,
                false,
                engine::warned_after(held, first, true, warned),
            )
        }),
{
}

/// What is left of a forced mode is the time to its deadline; no other mode has any left.
pub proof fn law_what_is_left_runs_down_to_the_deadline(until: u64, now: u64)
    ensures
        now <= until ==> engine::left_of(Mode::Force(until), now) == Some((until - now) as u64),
        now >= until ==> engine::left_of(Mode::Force(until), now) == Some(0u64),
        engine::left_of(Mode::Auto, now) is None,
        engine::left_of(Mode::Paused, now) is None,
{
}

/// The minutes and seconds that are shown of a forced mode are those that are left.
pub proof fn law_the_time_left_is_shown(
    until: u64,
    held: Held,
    reasons: Seq<Seq<char>>,
    minutes: nat,
    seconds: nat,
    rest: nat,
    left: u64,
)
    requires
        seconds < 60,
        rest < SECOND,
        left == (minutes * 60 + seconds) * SECOND + rest,
    ensures
        engine::description(Mode::Force(until), held, reasons, Some(left)) == "强制常亮 · 剩余 "@
            + text::dec(minutes) + "分"@ + text::dec(seconds) + "秒"@,
{
    let secs = minutes * 60 + seconds;
    assert(left as nat / SECOND as nat == secs) by (nonlinear_arith)
        requires
            left == secs * SECOND + rest,
            rest < SECOND,
            SECOND > 0,
    ;
    assert(secs / 60 == minutes && secs % 60 == seconds);
}

/// In the automatic mode the description names every reason, and whether the screen is
/// kept on; without a request it is the same whatever else holds.
pub proof fn law_the_description_names_the_reasons(
    held: Held,
    reasons: Seq<Seq<char>>,
    left: Option<u64>,
)
    ensures
        held == Held::System && reasons.len() > 0 ==> engine::description(
            Mode::Auto,
            held,
            reasons,
            left,
        ) == "仅防睡"@ + " · "@ + text::join(reasons, " · "@),
        held == Held::SystemDisplay && reasons.len() > 0 ==> engine::description(
            Mode::Auto,
            held,
            reasons,
            left,
        ) == "保持屏幕"@ + " · "@ + text::join(reasons, " · "@),
        held != Held::Nothing && reasons.len() == 0 ==> engine::description(
            Mode::Auto,
            held,
            reasons,
            left,
        ) == (if held == Held::System {
            "仅防睡"@
        } else {
            "保持屏幕"@
        }) + " · "@ + "宽限期"@,
        engine::description(Mode::Auto, Held::Nothing, reasons, left) == "空闲 · 未持有请求"@,
        engine::description(Mode::Paused, held, reasons, left) == "已暂停 · 允许正常休眠"@,
{
}

/// While paused nothing is held, whatever goes on.
pub proof fn law_paused_holds_nothing(
    cfg: Config,
    ac: bool,
    display_on: bool,
    busy: bool,
    now: u64,
)
    ensures
        engine::wanted(cfg, Mode::Paused, ac, display_on, busy, now) == Held::Nothing,
{
}

/// While forced the screen is kept on, whatever goes on; from the deadline on the mode
/// is as good as the automatic one.
pub proof fn law_force_lasts_until_its_deadline(
    cfg: Config,
    until: u64,
    ac: bool,
    display_on: bool,
    busy: bool,
    now: u64,
)
    ensures
        now < until ==> engine::wanted(cfg, Mode::Force(until), ac, display_on, busy, now)
            == Held::SystemDisplay,
        now >= until ==> engine::wanted(cfg, Mode::Force(until), ac, display_on, busy, now)
            == engine::wanted(cfg, Mode::Auto, ac, display_on, busy, now),
{
}

/// Turning a forced mode that has run out into the automatic one changes nothing about
/// what is held.
pub proof fn law_normalising_the_mode_is_safe(
    cfg: Config,
    mode: Mode,
    ac: bool,
    display_on: bool,
    busy: bool,
    now: u64,
)
    ensures
        engine::wanted(cfg, mode.current(now), ac, display_on, busy, now) == engine::wanted(
            cfg,
            mode,
            ac,
            display_on,
            busy,
            now,
        ),
        mode.current(now).current(now) == mode.current(now),
{
}

/// For the grace period after the last activity the automatic mode goes on holding;
/// from its end on it holds nothing.
pub proof fn law_grace_period(cfg: Config, last: u64, now: u64, ac: bool, display_on: bool)
    ensures
        ({
            let grace = engine::within_grace(Some(last), now, cfg);
            let held = engine::wanted(cfg, Mode::Auto, ac, display_on, grace, now);
            &&& detect::elapsed(last, now) < cfg.grace_secs * SECOND ==> held != Held::Nothing
            &&& detect::elapsed(last, now) >= cfg.grace_secs * SECOND ==> held == Held::Nothing
        }),
{
}

/// The kinds of reasons, in their order.
pub open spec fn kinds(v: Seq<(Seq<char>, Seq<char>)>) -> Seq<Seq<char>> {
    Seq::new(v.len(), |i: int| v[i].0)
}

proof fn lemma_merged_with(a: Seq<(Seq<char>, Seq<char>)>, r: (Seq<char>, Seq<char>))
    ensures
        kinds(engine::merged_with(a, r)) == if kinds(a).contains(r.0) {
            kinds(a)
        } else {
            kinds(a).push(r.0)
        },
{
    engine::lemma_kind_at(a, r.0);
    let at = engine::kind_at(a, r.0);
    if at < a.len() {
        assert(kinds(a)[at] == r.0);
        assert(kinds(engine::merged_with(a, r)) == kinds(a));
    } else {
        if kinds(a).contains(r.0) {
            let i = choose|i: int| 0 <= i < kinds(a).len() && kinds(a)[i] == r.0;
            assert(a[i].0 == r.0);
        }
        assert(kinds(a.push(r)) == kinds(a).push(r.0));
    }
}

proof fn lemma_push_to_set(s: Seq<Seq<char>>, x: Seq<char>)
    ensures
        s.push(x).to_set() == s.to_set().insert(x),
{
    assert forall|y: Seq<char>| s.push(x).to_set().contains(y) <==> s.to_set().insert(x).contains(
        y,
    ) by {
        if s.push(x).contains(y) && y != x {
            let i = choose|i: int| 0 <= i < s.push(x).len() && s.push(x)[i] == y;
            assert(s[i] == y);
        }
        if s.contains(y) {
            let i = choose|i: int| 0 <= i < s.len() && s[i] == y;
            assert(s.push(x)[i] == y);
        }
        assert(s.push(x)[s.len() as int] == x);
    }
}

proof fn lemma_merged_kinds(all: Seq<(Seq<char>, Seq<char>)>, n: nat)
    requires
        n <= all.len(),
    ensures
        kinds(engine::merged(all, n)).no_duplicates(),
        kinds(engine::merged(all, n)).to_set() == kinds(all.take(n as int)).to_set(),
    decreases n,
{
    if n > 0 {
        let p = (n - 1) as nat;
        lemma_merged_kinds(all, p);
        let (a, r) = (engine::merged(all, p), all[n - 1]);
        lemma_merged_with(a, r);
        let (before, after) = (kinds(all.take(p as int)), kinds(all.take(n as int)));
        assert(after == before.push(r.0));
        lemma_push_to_set(before, r.0);
        lemma_push_to_set(kinds(a), r.0);
        if kinds(a).contains(r.0) {
            assert(kinds(a).to_set().contains(r.0));
            assert(before.to_set().insert(r.0) == before.to_set());
        }
    } else {
        assert(kinds(engine::merged(all, 0)) == kinds(all.take(0)));
    }
}

/// Merged reasons have every kind that the reasons have, once, and no other.
pub proof fn law_merging_keeps_the_kinds(all: Seq<(Seq<char>, Seq<char>)>)
    ensures
        kinds(engine::merged(all, all.len())).no_duplicates(),
        kinds(engine::merged(all, all.len())).to_set() == kinds(all).to_set(),
{
    lemma_merged_kinds(all, all.len());
    assert(all.take(all.len() as int) == all);
}

proof fn lemma_merged_prefix(
    all: Seq<(Seq<char>, Seq<char>)>,
    next: (Seq<char>, Seq<char>),
    n: nat,
)
    requires
        n <= all.len(),
    ensures
        engine::merged(all.push(next), n) == engine::merged(all, n),
    decreases n,
{
    if n > 0 {
        lemma_merged_prefix(all, next, (n - 1) as nat);
        assert(all.push(next)[n - 1] == all[n - 1]);
    }
}

/// One more reason stands behind the others where it is the first of its kind, and is put
/// to the one of its kind where there is one; only a detail that already takes eighty bytes
/// is left as it is.
pub proof fn law_reasons_of_a_kind_are_joined(
    all: Seq<(Seq<char>, Seq<char>)>,
    next: (Seq<char>, Seq<char>),
    i: int,
)
    requires
        0 <= i < engine::merged(all, all.len()).len(),
        engine::merged(all, all.len())[i].0 == next.0,
    ensures
        ({
            let before = engine::merged(all, all.len());
            let after = engine::merged(all.push(next), all.len() + 1);
            &&& text::utf8_length(before[i].1) < 80 ==> after == before.update(
                i,
                (next.0, before[i].1 + ", "@ + next.1),
            )
            &&& text::utf8_length(before[i].1) >= 80 ==> after == before
        }),
{
    let before = engine::merged(all, all.len());
    lemma_merged_prefix(all, next, all.len());
    assert(all.push(next)[all.len() as int] == next);
    lemma_merged_kinds(all, all.len());
    engine::lemma_kind_at(before, next.0);
    let k = engine::kind_at(before, next.0);
    assert(kinds(before)[i] == next.0);
    if k < before.len() {
        assert(kinds(before)[k] == next.0);
        assert(k == i);
    } else {
        assert(before[i].0 != next.0);
    }
}

/// The first reason of a kind is kept as it stands, behind those before it.
pub proof fn law_the_first_of_a_kind_is_kept(
    all: Seq<(Seq<char>, Seq<char>)>,
    next: (Seq<char>, Seq<char>),
)
    requires
        forall|j: int| 0 <= j < all.len() ==> (#[trigger] all[j]).0 != next.0,
    ensures
        engine::merged(all.push(next), all.len() + 1) == engine::merged(all, all.len()).push(next),
{
    let before = engine::merged(all, all.len());
    lemma_merged_prefix(all, next, all.len());
    assert(all.push(next)[all.len() as int] == next);
    lemma_merged_kinds(all, all.len());
    assert(all.take(all.len() as int) == all);
    engine::lemma_kind_at(before, next.0);
    let k = engine::kind_at(before, next.0);
    if k < before.len() {
        assert(kinds(before)[k] == next.0);
        assert(kinds(before).to_set().contains(next.0));
        assert(kinds(all).to_set().contains(next.0));
        let j = choose|j: int| 0 <= j < kinds(all).len() && kinds(all)[j] == next.0;
        assert(all[j].0 == next.0);
    }
}

/// A round gathers the reasons of all five detectors, and each kind that one of them gives
/// is among what the round tells.
pub proof fn law_a_round_gathers_every_detector(
    d: Detectors,
    cfg: Config,
    rows: Seq<(u32, Seq<char>)>,
    r: Readings,
    x: (Seq<char>, Seq<char>),
)
    requires
        ({
            let t = engine::detectors_after(d, cfg, rows, r);
            ||| audio::reasons(t.audio.last, cfg, t.audio.last.len()).contains(x)
            ||| net::reasons(d.net, cfg, r.net@, r.now).contains(x)
            ||| cfg.proc_enabled && cfg.proc_busy_when_cpu@.len() > 0 && proc::reasons(
                t.proc.last,
                proc::threshold(cfg),
                t.proc.last.len(),
            ).contains(x)
            ||| dl::reasons(t.dl.last, cfg, t.dl.last.len()).contains(x)
            ||| hint::reasons(t.hint, t.hint.len()).contains(x)
        }),
    ensures
        engine::all_reasons(d, cfg, rows, r).contains(x),
        kinds(engine::round_reasons(d, cfg, rows, r)).contains(x.0),
{
    let t = engine::detectors_after(d, cfg, rows, r);
    let a = audio::reasons(t.audio.last, cfg, t.audio.last.len());
    let n = net::reasons(d.net, cfg, r.net@, r.now);
    let p = if proc::watches(cfg) {
        proc::reasons(t.proc.last, proc::threshold(cfg), t.proc.last.len())
    } else {
        Seq::empty()
    };
    let l = dl::reasons(t.dl.last, cfg, t.dl.last.len());
    let h = hint::reasons(t.hint, t.hint.len());
    let all = engine::all_reasons(d, cfg, rows, r);
    assert(all == a + n + p + l + h);
    lemma_contains_left(a, n, x);
    lemma_contains_left(a + n, p, x);
    lemma_contains_left(a + n + p, l, x);
    lemma_contains_left(a + n + p + l, h, x);
    let i = choose|i: int| 0 <= i < all.len() && all[i] == x;
    law_merging_keeps_the_kinds(all);
    assert(kinds(all)[i] == x.0);
    assert(kinds(all).to_set().contains(x.0));
    assert(kinds(engine::merged(all, all.len())).to_set().contains(x.0));
}

proof fn lemma_contains_left(
    a: Seq<(Seq<char>, Seq<char>)>,
    b: Seq<(Seq<char>, Seq<char>)>,
    x: (Seq<char>, Seq<char>),
)
    ensures
        a.contains(x) || b.contains(x) ==> (a + b).contains(x),
{
    if a.contains(x) {
        let i = choose|i: int| 0 <= i < a.len() && a[i] == x;
        assert((a + b)[i] == x);
    }
    if b.contains(x) {
        let i = choose|i: int| 0 <= i < b.len() && b[i] == x;
        assert((a + b)[a.len() + i] == x);
    }
}

/// A quick look calls for a round where it hears sound, sees traffic or finds a fresh hint,
/// and only then.
pub proof fn law_the_quick_look_calls_for_a_round(d: Detectors, cfg: Config, q: QuickReadings)
    ensures
        ({
            let hints = hint::after_tick(cfg, hint::files_of(q.hints), q.wall);
            engine::quick_look(d, cfg, q) <==> {
                ||| audio::probed(d.audio, cfg, q.audio.readings@, q.now)
                ||| net::probed(d.net, cfg, q.net@, q.now)
                ||| hint::reasons(hints, hints.len()).len() > 0
            }
        }),
{
}

/// A reason is told as its kind, a colon and its detail.
pub proof fn law_reasons_are_told_with_their_kind(v: Seq<(Seq<char>, Seq<char>)>, i: int)
    requires
        0 <= i < v.len(),
    ensures
        engine::reason_texts(v).len() == v.len(),
        engine::reason_texts(v)[i] == v[i].0 + ":"@ + v[i].1,
{
}

/// A forced mode is over from its deadline on, and no other mode changes by itself.
pub proof fn law_modes_end_at_their_deadline(until: u64, now: u64)
    ensures
        now < until ==> Mode::Force(until).current(now) == Mode::Force(until),
        now >= until ==> Mode::Force(until).current(now) == Mode::Auto,
        Mode::Auto.current(now) == Mode::Auto,
        Mode::Paused.current(now) == Mode::Paused,
{
}

proof fn lemma_merged_is_found(all: Seq<(Seq<char>, Seq<char>)>, n: nat)
    requires
        n <= all.len(),
    ensures
        engine::merged(all, n).len() > 0 <==> n > 0,
    decreases n,
{
    if n > 0 {
        lemma_merged_is_found(all, (n - 1) as nat);
        engine::lemma_kind_at(engine::merged(all, (n - 1) as nat), all[n - 1].0);
    }
}

/// Any one detector is enough: where one of the five gives a reason, the automatic mode
/// holds something, and where none does and the grace period is over, it holds nothing.
pub proof fn law_any_detector_keeps_awake(
    d: Detectors,
    cfg: Config,
    rows: Seq<(u32, Seq<char>)>,
    r: Readings,
    ac: bool,
    display_on: bool,
    now: u64,
)
    ensures
        ({
            let t = engine::detectors_after(d, cfg, rows, r);
            let found = engine::round_reasons(d, cfg, rows, r).len() > 0;
            let held = engine::wanted(cfg, Mode::Auto, ac, display_on, found, now);
            let any = {
                ||| audio::reasons(t.audio.last, cfg, t.audio.last.len()).len() > 0
                ||| net::reasons(d.net, cfg, r.net@, r.now).len() > 0
                ||| proc::watches(cfg) && proc::reasons(
                    t.proc.last,
                    proc::threshold(cfg),
                    t.proc.last.len(),
                ).len() > 0
                ||| dl::reasons(t.dl.last, cfg, t.dl.last.len()).len() > 0
                ||| hint::reasons(t.hint, t.hint.len()).len() > 0
            };
            &&& found <==> any
            &&& any ==> held != Held::Nothing
            &&& !any ==> held == Held::Nothing
        }),
{
    let all = engine::all_reasons(d, cfg, rows, r);
    lemma_merged_is_found(all, all.len());
}

/// A quick look changes nothing about the round after it: the round gives the reasons
/// that it would have given without.
pub proof fn law_the_quick_look_leaves_the_round_alone(
    d: Detectors,
    cfg: Config,
    q: QuickReadings,
    rows: Seq<(u32, Seq<char>)>,
    r: Readings,
)
    ensures
        engine::round_reasons(engine::detectors_probed(d, cfg, q), cfg, rows, r)
            == engine::round_reasons(d, cfg, rows, r),
{
    net::law_probe_leaves_the_round_alone(d.net, cfg, q.net@, q.now, r.net@, r.now);
    let p = engine::detectors_probed(d, cfg, q);
    assert(engine::detectors_after(p, cfg, rows, r).audio.last == engine::detectors_after(
        d,
        cfg,
        rows,
        r,
    ).audio.last);
    assert(engine::all_reasons(p, cfg, rows, r) == engine::all_reasons(d, cfg, rows, r));
}

/// The quick look misses no traffic: of two quick looks that are far enough apart, the
/// second says so where the traffic between them reaches the threshold. The first must
/// have got as far as the network, which it does where it hears nothing.
pub proof fn law_the_quick_look_misses_no_traffic(
    d: Detectors,
    cfg: Config,
    first: QuickReadings,
    second: QuickReadings,
)
    requires
        cfg.net_enabled,
        !audio::probed(d.audio, cfg, first.audio.readings@, first.now),
        detect::elapsed(first.now, second.now) > detect::MIN_RATE_WINDOW,
        ({
            let carried = detect::counted(
                net::total(net::interfaces(first.net@, first.net@.len())),
                net::total(net::interfaces(second.net@, second.net@.len())),
            );
            let seconds = double::seconds(detect::elapsed(first.now, second.now) as u64);
            !net::kilo(double::rounded(carried, 1).share(seconds)).under(net::threshold(cfg))
        }),
    ensures
        engine::quick_look(engine::detectors_probed(d, cfg, first), cfg, second),
{
}

/// The quick look misses no hint: where a round over the same files would find a fresh
/// one, it says so.
pub proof fn law_the_quick_look_misses_no_hint(d: Detectors, cfg: Config, q: QuickReadings)
    requires
        ({
            let found = hint::after_tick(cfg, hint::files_of(q.hints), q.wall);
            hint::reasons(found, found.len()).len() > 0
        }),
    ensures
        engine::quick_look(d, cfg, q),
{
}

/// The quick look misses no sound: where an output is heard or cannot be read, it says
/// so.
pub proof fn law_the_quick_look_misses_no_sound(d: Detectors, cfg: Config, q: QuickReadings)
    requires
        cfg.audio_enabled,
        audio::any_loud(q.audio.readings@, cfg),
    ensures
        engine::quick_look(d, cfg, q),
{
}

/// A quick look stops at the first thing that it finds: sound leaves the traffic and the
/// hints unread, and traffic leaves the hints unread. Programs and downloads are left to
/// full rounds.
pub proof fn law_the_quick_look_stops_at_the_first_find(
    d: Detectors,
    cfg: Config,
    q: QuickReadings,
)
    ensures
        ({
            let t = engine::detectors_probed(d, cfg, q);
            let heard = audio::probed(d.audio, cfg, q.audio.readings@, q.now);
            let busy = net::probed(d.net, cfg, q.net@, q.now);
            &&& t.proc == d.proc && t.dl == d.dl
            &&& heard ==> t.net == d.net && t.hint == d.hint
            &&& busy ==> t.hint == d.hint
            &&& !heard ==> t.net == net::after_probe(d.net, cfg, q.net@, q.now)
            &&& !heard && !busy ==> t.hint == hint::after_tick(
                cfg,
                hint::files_of(q.hints),
                q.wall,
            )
        }),
{
}

/// A round has the reasons of its detectors and no others, and each of them is kept for the
/// next one.
pub proof fn law_a_round_has_no_other_reasons(
    d: Detectors,
    cfg: Config,
    rows: Seq<(u32, Seq<char>)>,
    r: Readings,
    x: (Seq<char>, Seq<char>),
)
    requires
        engine::all_reasons(d, cfg, rows, r).contains(x),
    ensures
        ({
            let t = engine::detectors_after(d, cfg, rows, r);
            ||| audio::reasons(t.audio.last, cfg, t.audio.last.len()).contains(x)
            ||| net::reasons(d.net, cfg, r.net@, r.now).contains(x)
            ||| cfg.proc_enabled && cfg.proc_busy_when_cpu@.len() > 0 && proc::reasons(
                t.proc.last,
                proc::threshold(cfg),
                t.proc.last.len(),
            ).contains(x)
            ||| dl::reasons(t.dl.last, cfg, t.dl.last.len()).contains(x)
            ||| hint::reasons(t.hint, t.hint.len()).contains(x)
        }),
{
    let t = engine::detectors_after(d, cfg, rows, r);
    let all = engine::all_reasons(d, cfg, rows, r);
    let a = audio::reasons(t.audio.last, cfg, t.audio.last.len());
    let b = net::reasons(d.net, cfg, r.net@, r.now);
    let c = if proc::watches(cfg) {
        proc::reasons(t.proc.last, proc::threshold(cfg), t.proc.last.len())
    } else {
        Seq::empty()
    };
    let e = dl::reasons(t.dl.last, cfg, t.dl.last.len());
    let f = hint::reasons(t.hint, t.hint.len());
    let i = choose|i: int| 0 <= i < all.len() && all[i] == x;
    if i < a.len() {
        assert(a[i] == x);
    } else if i < a.len() + b.len() {
        assert(b[i - a.len()] == x);
    } else if i < a.len() + b.len() + c.len() {
        assert(c[i - a.len() - b.len()] == x);
    } else if i < a.len() + b.len() + c.len() + e.len() {
        assert(e[i - a.len() - b.len() - c.len()] == x);
    } else {
        assert(f[i - a.len() - b.len() - c.len() - e.len()] == x);
    }
}

} // verus!
