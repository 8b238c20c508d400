//! What holds of the programs that use the processor.
use vstd::prelude::*;

use crate::config::Config;
use crate::detect;
use crate::detect::proc;
use crate::detect::proc::ProcState;
use crate::detect::told;
use crate::detect::CpuReading;
use crate::double;
use crate::double::{Double, Number};
use crate::double_laws;
use crate::tally;
use crate::text;

verus! {

/// Whether a use is as high as the configuration asks: at least the configured percentage,
/// if that is a number, and never less than a tenth of a percent.
pub open spec fn high(percent: Double, configured: Number) -> bool {
    &&& !percent.under(double::rounded(1, 10))
    &&& match configured {
        Number::Signed { negative, size } => negative || !percent.under(size),
        Number::Nan => true,
    }
}

/// A use counts where it is not under the threshold: that is the configured percentage,
/// but not less than a tenth of a percent.
pub proof fn law_the_threshold_is_the_configured_one(percent: Double, cfg: Config)
    ensures
        !percent.under(proc::threshold(cfg)) <==> high(percent, cfg.proc_cpu_percent_1core),
{
    let floor = double::rounded(1, 10);
    match cfg.proc_cpu_percent_1core {
        Number::Signed { negative, size } => {
            if !negative {
                if size.under(floor) {
                    if !percent.under(floor) {
                        lemma_under_is_not_over(size, floor);
                        double_laws::law_order_is_transitive(size, floor, percent);
                    }
                } else if !percent.under(size) {
                    double_laws::law_order_is_transitive(floor, size, percent);
                }
            }
        },
        Number::Nan => {},
    }
}

proof fn lemma_under_is_not_over(a: Double, b: Double)
    requires
        a.under(b),
    ensures
        !b.under(a),
{
}

/// In a round every watched program whose use is high enough gives one reason, however
/// high the use, and no other program gives one.
pub proof fn law_every_busy_program_is_told(last: Seq<(Seq<char>, Double)>, cfg: Config)
    ensures
        told::one_each(
            last,
            |row: (Seq<char>, Double)| high(row.1, cfg.proc_cpu_percent_1core),
            |row: (Seq<char>, Double)| ("proc"@, row.0 + " "@ + row.1.text(0) + "%"@),
            proc::reasons(last, proc::threshold(cfg), last.len()),
        ),
{
    let counts = |row: (Seq<char>, Double)| high(row.1, cfg.proc_cpu_percent_1core);
    let say = |row: (Seq<char>, Double)| ("proc"@, row.0 + " "@ + row.1.text(0) + "%"@);
    lemma_reasons(last, cfg, counts, say, last.len());
    told::lemma_one_each(last, counts, say);
}

proof fn lemma_reasons(
    last: Seq<(Seq<char>, Double)>,
    cfg: Config,
    counts: spec_fn((Seq<char>, Double)) -> bool,
    say: spec_fn((Seq<char>, Double)) -> (Seq<char>, Seq<char>),
    n: nat,
)
    requires
        n <= last.len(),
        forall|row: (Seq<char>, Double)| #[trigger]
            counts(row) == high(row.1, cfg.proc_cpu_percent_1core),
        forall|row: (Seq<char>, Double)| #[trigger]
            say(row) == ("proc"@, proc::detail(row.0, row.1)),
    ensures
        proc::reasons(last, proc::threshold(cfg), n) == told::told(last, counts, say, n),
    decreases n,
{
    if n > 0 {
        lemma_reasons(last, cfg, counts, say, (n - 1) as nat);
        law_the_threshold_is_the_configured_one(last[n - 1].1, cfg);
    }
}

/// More use never takes a reason away: a program that gives one still does with any use
/// that is not less.
pub proof fn law_more_use_keeps_the_reason(
    last: Seq<(Seq<char>, Double)>,
    cfg: Config,
    i: int,
    more: Double,
)
    requires
        0 <= i < last.len(),
        proc::reasons(seq![last[i]], proc::threshold(cfg), 1).len() > 0,
        !more.under(last[i].1),
    ensures
        proc::reasons(
            last.update(i, (last[i].0, more)),
            proc::threshold(cfg),
            last.len(),
        ).contains(("proc"@, last[i].0 + " "@ + more.text(0) + "%"@)),
{
    let t = proc::threshold(cfg);
    let one = seq![last[i]];
    reveal_with_fuel(proc::reasons, 2);
    assert(proc::reasons(one, t, 0).len() == 0);
    assert(!last[i].1.under(t));
    double_laws::law_order_is_transitive(t, last[i].1, more);
    let all = last.update(i, (last[i].0, more));
    law_every_busy_program_is_told(all, cfg);
    law_the_threshold_is_the_configured_one(more, cfg);
    let counts = |row: (Seq<char>, Double)| high(row.1, cfg.proc_cpu_percent_1core);
    assert(counts(all[i]));
}

/// A higher threshold never adds a reason: what is high enough for one configured
/// percentage is high enough for a lower one.
pub proof fn law_a_lower_threshold_keeps_the_reasons(percent: Double, lower: Double, upper: Double)
    requires
        !upper.under(lower),
        high(percent, (Number::Signed { negative: false, size: upper })),
    ensures
        high(percent, (Number::Signed { negative: false, size: lower })),
{
    double_laws::law_order_is_transitive(lower, upper, percent);
}

// ───────────────────────── the use of a program ─────────────────────────

/// Every watched process adds its use to the program of its name, once that can be told,
/// and to no other.
pub proof fn law_each_process_adds_to_its_program(
    start: ProcState,
    rows: Seq<(u32, Seq<char>)>,
    readings: Seq<CpuReading>,
    n: nat,
    other: Seq<char>,
)
    requires
        n < rows.len(),
        start.last == Seq::<(Seq<char>, Double)>::empty(),
        other != rows[n as int].1,
    ensures
        ({
            let s = proc::surveyed(start, rows, readings, n);
            let t = proc::surveyed(start, rows, readings, n + 1);
            let (pid, name) = rows[n as int];
            let zero = double::nothing();
            let before = tally::value_of(s.last, name, zero);
            let reading = proc::reading_of(readings, pid);
            &&& tally::sorted(t.last)
            &&& exists|i: int| 0 <= i < t.last.len() && (#[trigger] t.last[i]).0 == name
            &&& tally::value_of(t.last, name, zero) == match detect::cpu_seen(s.cache, reading) {
                Some(used) => before.sum(used),
                None => before,
            }
            &&& tally::value_of(t.last, other, zero) == tally::value_of(s.last, other, zero)
            &&& t.cache == detect::cache_after(s.cache, reading)
        }),
{
    lemma_surveyed_sorted(start, rows, readings, n);
    let s = proc::surveyed(start, rows, readings, n);
    let t = proc::surveyed(start, rows, readings, n + 1);
    let (pid, name) = rows[n as int];
    let v = proc::with_process(
        tally::value_of(s.last, name, double::nothing()),
        detect::cpu_seen(s.cache, proc::reading_of(readings, pid)),
    );
    assert(t.last == tally::stored(s.last, name, v));
    tally::law_storing_keeps_order(s.last, name, v);
    tally::law_storing_changes_one_name(s.last, name, v, other, double::nothing());
    let i = choose|i: int| 0 <= i < t.last.len() && t.last[i] == (name, v);
    assert(t.last[i].0 == name);
}

proof fn lemma_surveyed_sorted(
    start: ProcState,
    rows: Seq<(u32, Seq<char>)>,
    readings: Seq<CpuReading>,
    n: nat,
)
    requires
        start.last == Seq::<(Seq<char>, Double)>::empty(),
    ensures
        tally::sorted(proc::surveyed(start, rows, readings, n).last),
    decreases n,
{
    if n > 0 {
        let p = (n - 1) as nat;
        lemma_surveyed_sorted(start, rows, readings, p);
        let s = proc::surveyed(start, rows, readings, p);
        let (pid, name) = rows[n - 1];
        let v = proc::with_process(
            tally::value_of(s.last, name, double::nothing()),
            detect::cpu_seen(s.cache, proc::reading_of(readings, pid)),
        );
        tally::law_storing_keeps_order(s.last, name, v);
    }
}

/// The reading of a process is the first with its id; without one it counts as unreadable.
pub proof fn law_the_first_reading_counts(readings: Seq<CpuReading>, pid: u32, i: int)
    requires
        0 <= i <= readings.len(),
        forall|j: int| 0 <= j < i ==> (#[trigger] readings[j]).pid != pid,
        i < readings.len() ==> readings[i].pid == pid,
    ensures
        i < readings.len() ==> proc::reading_of(readings, pid) == readings[i],
        i == readings.len() ==> proc::reading_of(readings, pid).times is None,
    decreases i,
{
    if i > 0 {
        assert(readings[0].pid != pid);
        let rest = readings.drop_first();
        assert forall|j: int| 0 <= j < i - 1 implies (#[trigger] rest[j]).pid != pid by {
            assert(rest[j] == readings[j + 1]);
        }
        law_the_first_reading_counts(rest, pid, i - 1);
    }
}

proof fn lemma_reading_pid(readings: Seq<CpuReading>, pid: u32)
    ensures
        proc::reading_of(readings, pid).pid == pid,
    decreases readings.len(),
{
    if readings.len() > 0 {
        lemma_reading_pid(readings.drop_first(), pid);
    }
}

proof fn lemma_lone(
    start: ProcState,
    rows: Seq<(u32, Seq<char>)>,
    readings: Seq<CpuReading>,
    k: int,
    n: nat,
)
    requires
        0 <= k < rows.len(),
        n <= rows.len(),
        start.last == Seq::<(Seq<char>, Double)>::empty(),
        forall|j: int|
            0 <= j < rows.len() && j != k ==> (#[trigger] rows[j]).0 != rows[k].0 && rows[j].1
                != rows[k].1,
    ensures
        ({
            let s = proc::surveyed(start, rows, readings, n);
            let (pid, name) = rows[k];
            let reading = proc::reading_of(readings, pid);
            &&& tally::sorted(s.last)
            &&& n <= k ==> detect::entry_of(s.cache, pid) == detect::entry_of(start.cache, pid)
            &&& n <= k ==> forall|i: int| 0 <= i < s.last.len() ==> (#[trigger] s.last[i]).0 != name
            &&& n > k ==> s.last.contains(
                (
                    name,
                    proc::with_process(double::nothing(), detect::cpu_seen(start.cache, reading)),
                ),
            )
        }),
    decreases n,
{
    lemma_surveyed_sorted(start, rows, readings, n);
    if n > 0 {
        let p = (n - 1) as nat;
        lemma_lone(start, rows, readings, k, p);
        lemma_surveyed_sorted(start, rows, readings, p);
        let s = proc::surveyed(start, rows, readings, p);
        let t = proc::surveyed(start, rows, readings, n);
        let (pid, name) = rows[n - 1];
        let reading = proc::reading_of(readings, pid);
        lemma_reading_pid(readings, pid);
        lemma_reading_pid(readings, rows[k].0);
        let v = proc::with_process(
            tally::value_of(s.last, name, double::nothing()),
            detect::cpu_seen(s.cache, reading),
        );
        tally::law_storing_keeps_order(s.last, name, v);
        assert(t.last == tally::stored(s.last, name, v));
        if n - 1 == k {
            tally::law_rows_are_found_by_name(s.last, name, double::nothing());
        } else if n - 1 < k {
            assert forall|i: int| 0 <= i < t.last.len() implies (#[trigger] t.last[i]).0
                != rows[k].1 by {
                if t.last[i] != (name, v) {
                    let j = choose|j: int| 0 <= j < s.last.len() && s.last[j] == t.last[i];
                    assert(s.last[j].0 != rows[k].1);
                }
            }
        } else {
            let row = (
                rows[k].1,
                proc::with_process(
                    double::nothing(),
                    detect::cpu_seen(start.cache, proc::reading_of(readings, rows[k].0)),
                ),
            );
            let j = choose|j: int| 0 <= j < s.last.len() && s.last[j] == row;
            assert(s.last[j].0 != name);
            assert(t.last.contains(s.last[j]));
        }
    }
}

/// A round tells of a watched program with one process how much that has used since the
/// round before; it is among what the round knows, with nothing where that cannot be told.
pub proof fn law_a_round_measures_a_program(
    old: ProcState,
    cfg: Config,
    rows: Seq<(u32, Seq<char>)>,
    readings: Seq<CpuReading>,
    k: int,
)
    requires
        cfg.proc_enabled,
        cfg.proc_busy_when_cpu@.len() > 0,
        ({
            let w = detect::listed_rows(rows, text::views(cfg.proc_busy_when_cpu@));
            0 <= k < w.len() && forall|j: int|
                0 <= j < w.len() && j != k ==> (#[trigger] w[j]).0 != w[k].0 && w[j].1 != w[k].1
        }),
    ensures
        ({
            let (pid, name) = detect::listed_rows(rows, text::views(cfg.proc_busy_when_cpu@))[k];
            let seen = detect::cpu_seen(old.cache, proc::reading_of(readings, pid));
            let last = proc::after_tick(old, cfg, rows, readings).last;
            &&& seen is None ==> last.contains((name, double::nothing()))
            &&& seen is Some ==> last.contains((name, double::nothing().sum(seen->0)))
        }),
{
    let w = detect::listed_rows(rows, text::views(cfg.proc_busy_when_cpu@));
    let start = ProcState { cache: old.cache, last: Seq::empty() };
    lemma_lone(start, w, readings, k, w.len());
}

/// A detector that is disabled, or has no program to watch, measures nothing.
pub proof fn law_nothing_watched_is_nothing_measured(
    old: ProcState,
    cfg: Config,
    rows: Seq<(u32, Seq<char>)>,
    readings: Seq<CpuReading>,
)
    requires
        !cfg.proc_enabled || cfg.proc_busy_when_cpu@.len() == 0,
    ensures
        !proc::watches(cfg),
        proc::after_tick(old, cfg, rows, readings).last.len() == 0,
{
}

/// A detector that is enabled and has a program to watch gives the reasons that it finds.
pub proof fn law_an_enabled_detector_watches(cfg: Config)
    requires
        cfg.proc_enabled,
        cfg.proc_busy_when_cpu@.len() > 0,
    ensures
        proc::watches(cfg),
{
}

/// After a round the samples of processes that have ended are forgotten, and those of the
/// watched ones that were read are their last readings.
pub proof fn law_only_running_processes_are_remembered(
    old: ProcState,
    cfg: Config,
    rows: Seq<(u32, Seq<char>)>,
    readings: Seq<CpuReading>,
    pid: u32,
)
    requires
        forall|i: int| 0 <= i < rows.len() ==> (#[trigger] rows[i]).0 != pid,
    ensures
        !proc::after_tick(old, cfg, rows, readings).cache.contains_key(pid),
{
}

/// A round looks at every watched process in turn, from nothing on.
pub proof fn law_a_round_looks_at_every_process(
    old: ProcState,
    cfg: Config,
    rows: Seq<(u32, Seq<char>)>,
    readings: Seq<CpuReading>,
)
    requires
        cfg.proc_enabled,
        cfg.proc_busy_when_cpu@.len() > 0,
    ensures
        ({
            let w = detect::listed_rows(rows, text::views(cfg.proc_busy_when_cpu@));
            let start = ProcState { cache: old.cache, last: Seq::empty() };
            proc::after_tick(old, cfg, rows, readings).last == proc::surveyed(
                start,
                w,
                readings,
                w.len(),
            ).last
        }),
{
}

} // verus!
