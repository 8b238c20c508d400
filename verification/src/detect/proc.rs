//! Watched programs that use the processor. Only use counts, so that an editor or a
//! language server that merely runs keeps nothing awake.
use vstd::prelude::*;

use crate::config::Config;
use crate::detect;
use crate::detect::{CpuReading, CpuSample, CpuTracker, ProcessTable, Reason};
use crate::double;
use crate::double::Double;
use crate::tally;
use crate::text;

verus! {

pub struct ProcDetector {
    pub cpu: CpuTracker,
    /// The name of each watched program that runs, with the share of one core that its
    /// processes use together, in percent.
    pub last: Vec<(String, Double)>,
}

/// The first reading of a process; where there is none it counts as unreadable.
pub open spec fn reading_of(readings: Seq<CpuReading>, pid: u32) -> CpuReading
    decreases readings.len(),
{
    if readings.len() == 0 {
        CpuReading { pid, times: None, at: 0 }
    } else if readings.first().pid == pid {
        readings.first()
    } else {
        reading_of(readings.drop_first(), pid)
    }
}

fn find_reading(readings: &Vec<CpuReading>, pid: u32) -> (r: CpuReading)
    ensures
        r == reading_of(readings@, pid),
{
    let mut i: usize = 0;
    assert(readings@.skip(0) == readings@);
    while i < readings.len()
        invariant
            i <= readings@.len(),
            reading_of(readings@, pid) == reading_of(readings@.skip(i as int), pid),
        decreases readings@.len() - i,
    {
        assert(readings@.skip(i as int).first() == readings@[i as int]);
        assert(readings@.skip(i as int).drop_first() == readings@.skip(i + 1));
        if readings[i].pid == pid {
            return readings[i];
        }
        i = i + 1;
    }
    assert(readings@.skip(i as int).len() == 0);
    CpuReading { pid, times: None, at: 0 }
}

/// What a detector knows.
pub struct ProcState {
    pub cache: Map<u32, CpuSample>,
    pub last: Seq<(Seq<char>, Double)>,
}

/// The use of a program, with what was seen of one more of its processes added. One that
/// tells nothing yet adds nothing.
pub open spec fn with_process(sum: Double, used: Option<Double>) -> Double {
    match used {
        Some(p) => sum.sum(p),
        None => sum,
    }
}

/// The state after the first `n` of the watched processes were looked at: the use of
/// each is added to that of its name.
pub open spec fn surveyed(
    start: ProcState,
    rows: Seq<(u32, Seq<char>)>,
    readings: Seq<CpuReading>,
    n: nat,
) -> ProcState
    decreases n,
{
    if n == 0 {
        start
    } else {
        let s = surveyed(start, rows, readings, (n - 1) as nat);
        let (pid, name) = rows[n - 1];
        let reading = reading_of(readings, pid);
        let sum = with_process(
            tally::value_of(s.last, name, double::nothing()),
            detect::cpu_seen(s.cache, reading),
        );
        ProcState {
            cache: detect::cache_after(s.cache, reading),
            last: tally::stored(s.last, name, sum),
        }
    }
}

/// The least use that counts, in percent.
pub open spec fn threshold(cfg: Config) -> Double {
    cfg.proc_cpu_percent_1core.at_least(double::rounded(1, 10))
}

pub open spec fn detail(name: Seq<char>, percent: Double) -> Seq<char> {
    name + " "@ + percent.text(0) + "%"@
}

/// The reasons that the first `n` names give.
pub open spec fn reasons(last: Seq<(Seq<char>, Double)>, least: Double, n: nat) -> Seq<
    (Seq<char>, Seq<char>),
>
    decreases n,
{
    if n == 0 {
        Seq::empty()
    } else {
        let before = reasons(last, least, (n - 1) as nat);
        let (name, percent) = last[n - 1];
        if !percent.under(least) {
            before.push(("proc"@, detail(name, percent)))
        } else {
            before
        }
    }
}

/// Whether the detector has something to do.
pub open spec fn watches(cfg: Config) -> bool {
    cfg.proc_enabled && cfg.proc_busy_when_cpu@.len() > 0
}

/// The state after a round over the processes of a table.
pub open spec fn after_tick(
    old: ProcState,
    cfg: Config,
    rows: Seq<(u32, Seq<char>)>,
    readings: Seq<CpuReading>,
) -> ProcState {
    let start = ProcState { cache: old.cache, last: Seq::empty() };
    let watched = detect::listed_rows(rows, text::views(cfg.proc_busy_when_cpu@));
    let s = if watches(cfg) {
        surveyed(start, watched, readings, watched.len())
    } else {
        start
    };
    ProcState { cache: s.cache.restrict(detect::ids(rows)), last: s.last }
}

pub open spec fn status_row(name: Seq<char>, percent: Double) -> Seq<char> {
    "    "@ + text::pad_right(name, 24) + " cpu="@ + text::pad_left(
        percent.text(1),
        ' ',
        7,
    ) + "%/core"@
}

/// The lines that show the detector.
pub open spec fn status(cfg: Config, last: Seq<(Seq<char>, Double)>) -> Seq<Seq<char>> {
    let head = "  threshold="@ + cfg.proc_cpu_percent_1core.text(1) + "%/core  watching="@
        + text::dec(cfg.proc_busy_when_cpu@.len()) + " name(s)"@;
    if !cfg.proc_enabled {
        seq!["  (disabled)"@]
    } else if last.len() == 0 {
        seq![head, "    (no watched process running)"@]
    } else {
        seq![head] + Seq::new(last.len(), |i: int| status_row(last[i].0, last[i].1))
    }
}

fn detail_string(name: &str, percent: Double) -> (r: String)
    ensures
        r@ == detail(name@, percent),
{
    let mut r = name.to_owned();
    r.append(" ");
    r.append(percent.show(0).as_str());
    r.append("%");
    r
}

fn status_string(name: &str, percent: Double) -> (r: String)
    ensures
        r@ == status_row(name@, percent),
{
    let mut r = "    ".to_owned();
    text::push_right_padded(&mut r, name, 24);
    r.append(" cpu=");
    text::push_left_padded(&mut r, percent.show(1).as_str(), ' ', 7);
    r.append("%/core");
    r
}

impl ProcDetector {
    pub open spec fn state(self) -> ProcState {
        ProcState { cache: self.cpu.cache@, last: tally::rows_view(self.last@) }
    }

    /// Whether the names stand in their order, each once.
    pub open spec fn wf(self) -> bool {
        tally::sorted(self.state().last)
    }

    pub fn new() -> (d: ProcDetector)
        ensures
            d.wf(),
            d.state().cache == Map::<u32, CpuSample>::empty(),
            d.state().last == Seq::<(Seq<char>, Double)>::empty(),
    {
        ProcDetector { cpu: CpuTracker::new(), last: Vec::new() }
    }

    /// One round: how much of a core each watched program used since the round before.
    pub fn tick(&mut self, cfg: &Config, table: &ProcessTable, readings: &Vec<CpuReading>) -> (out:
        Vec<Reason>)
        ensures
            final(self).wf(),
            final(self).state() == after_tick(old(self).state(), *cfg, table.rows(), readings@),
            detect::pairs(out@) == if watches(*cfg) {
                reasons(final(self).state().last, threshold(*cfg), final(self).state().last.len())
            } else {
                Seq::empty()
            },
    {
        let ghost start = ProcState { cache: self.cpu.cache@, last: Seq::empty() };
        let mut last: Vec<(String, Double)> = Vec::new();
        assert(tally::rows_view(last@) == start.last);
        if !cfg.proc_enabled || cfg.proc_busy_when_cpu.len() == 0 {
            self.last = last;
            self.cpu.end_tick(table);
            let out: Vec<Reason> = Vec::new();
            assert(detect::pairs(out@) == Seq::<(Seq<char>, Seq<char>)>::empty());
            return out;
        }
        let watched = table.matching(&cfg.proc_busy_when_cpu);
        let ghost rows = detect::rows_of(watched@);
        let mut i: usize = 0;
        while i < watched.len()
            invariant
                i <= watched@.len(),
                rows == detect::rows_of(watched@),
                tally::rows_view(last@) == surveyed(start, rows, readings@, i as nat).last,
                self.cpu.cache@ == surveyed(start, rows, readings@, i as nat).cache,
                tally::sorted(tally::rows_view(last@)),
            decreases watched@.len() - i,
        {
            let name = watched[i].1.as_str();
            let ghost view = tally::rows_view(last@);
            let before = tally::get(&last, name, Double::zero());
            let sum = match self.cpu.cpu_percent(find_reading(readings, watched[i].0)) {
                Some(p) => before.plus(p),
                None => before,
            };
            proof {
                tally::law_storing_keeps_order(view, name@, sum);
            }
            tally::put(&mut last, name, sum);
            i = i + 1;
        }
        self.last = last;
        self.cpu.end_tick(table);

        let least = cfg.proc_cpu_percent_1core.floored(Double::ratio(1, 10));
        let ghost view = tally::rows_view(self.last@);
        let mut out: Vec<Reason> = Vec::new();
        let mut i: usize = 0;
        assert(detect::pairs(out@) == reasons(view, least, 0));
        while i < self.last.len()
            invariant
                i <= self.last@.len(),
                self.wf(),
                view == tally::rows_view(self.last@),
                detect::pairs(out@) == reasons(view, least, i as nat),
            decreases self.last@.len() - i,
        {
            let ghost done = detect::pairs(out@);
            let percent: Double = self.last[i].1;
            if !percent.less(least) {
                out.push(Reason { kind: "proc", detail: detail_string(self.last[i].0.as_str(), percent) });
                assert(detect::pairs(out@) == done.push(
                    ("proc"@, detail(view[i as int].0, percent)),
                ));
            }
            i = i + 1;
        }
        out
    }

    /// The programs are only found by listing all processes, which is too much work for
    /// the quick look.
    pub fn probe(&mut self, cfg: &Config) -> (r: bool)
        ensures
            !r,
            *final(self) == *old(self),
    {
        false
    }

    pub fn status_lines(&self, cfg: &Config) -> (lines: Vec<String>)
        ensures
            text::views(lines@) == status(*cfg, self.state().last),
    {
        let ghost view = tally::rows_view(self.last@);
        let mut lines: Vec<String> = Vec::new();
        if !cfg.proc_enabled {
            lines.push("  (disabled)".to_owned());
            assert(text::views(lines@) == seq!["  (disabled)"@]);
            return lines;
        }
        let mut head = "  threshold=".to_owned();
        head.append(cfg.proc_cpu_percent_1core.show(1).as_str());
        head.append("%/core  watching=");
        text::push_dec(&mut head, cfg.proc_busy_when_cpu.len() as u128);
        head.append(" name(s)");
        let ghost first = head@;
        lines.push(head);
        assert(text::views(lines@) == seq![first]);
        if self.last.len() == 0 {
            lines.push("    (no watched process running)".to_owned());
            assert(text::views(lines@) == seq![first, "    (no watched process running)"@]);
            return lines;
        }
        let mut i: usize = 0;
        assert(text::views(lines@) == seq![first] + Seq::new(
            0,
            |k: int| status_row(view[k].0, view[k].1),
        ));
        while i < self.last.len()
            invariant
                i <= self.last@.len(),
                view == tally::rows_view(self.last@),
                text::views(lines@) == seq![first] + Seq::new(
                    i as nat,
                    |k: int| status_row(view[k].0, view[k].1),
                ),
            decreases self.last@.len() - i,
        {
            let ghost done = text::views(lines@);
            lines.push(status_string(self.last[i].0.as_str(), self.last[i].1));
            assert(text::views(lines@) == done.push(status_row(view[i as int].0, view[i as int].1)));
            i = i + 1;
            assert(text::views(lines@) == seq![first] + Seq::new(
                i as nat,
                |k: int| status_row(view[k].0, view[k].1),
            ));
        }
        lines
    }
}

proof fn lemma_survey_from_nothing(
    start: ProcState,
    rows: Seq<(u32, Seq<char>)>,
    readings: Seq<CpuReading>,
    n: nat,
)
    requires
        start.cache == Map::<u32, CpuSample>::empty(),
        start.last == Seq::<(Seq<char>, Double)>::empty(),
    ensures
        forall|pid: u32| #[trigger]
            surveyed(start, rows, readings, n).cache.contains_key(pid) ==> surveyed(
                start,
                rows,
                readings,
                n,
            ).cache[pid] == reading_of(readings, pid).sample(),
        forall|i: int|
            0 <= i < surveyed(start, rows, readings, n).last.len() ==> (#[trigger] surveyed(
                start,
                rows,
                readings,
                n,
            ).last[i]).1 == double::nothing(),
    decreases n,
{
    if n > 0 {
        let k = (n - 1) as nat;
        lemma_survey_from_nothing(start, rows, readings, k);
        let s = surveyed(start, rows, readings, k);
        let (pid, name) = rows[n - 1];
        let reading = reading_of(readings, pid);
        lemma_reading_of(readings, pid);
        assert(detect::cpu_seen(s.cache, reading) is None);
        tally::lemma_place(s.last, name);
        let p = tally::place(s.last, name);
        let t = tally::stored(s.last, name, double::nothing());
        assert forall|i: int| 0 <= i < t.len() implies (#[trigger] t[i]).1 == double::nothing() by {
            if i != p {
                if tally::present(s.last, name) || i < p {
                    assert(t[i] == s.last[i]);
                } else {
                    assert(t[i] == s.last[i - 1]);
                }
            }
        }
        if tally::present(s.last, name) {
            assert(s.last[p].1 == double::nothing());
        }
    }
}

proof fn lemma_reading_of(readings: Seq<CpuReading>, pid: u32)
    ensures
        reading_of(readings, pid).pid == pid,
    decreases readings.len(),
{
    if readings.len() > 0 {
        lemma_reading_of(readings.drop_first(), pid);
    }
}

proof fn lemma_no_reasons(last: Seq<(Seq<char>, Double)>, least: Double, n: nat)
    requires
        n <= last.len(),
        double::nothing().under(least),
        forall|i: int| 0 <= i < last.len() ==> (#[trigger] last[i]).1 == double::nothing(),
    ensures
        reasons(last, least, n) == Seq::<(Seq<char>, Seq<char>)>::empty(),
    decreases n,
{
    if n > 0 {
        lemma_no_reasons(last, least, (n - 1) as nat);
        assert(last[n - 1].1 == double::nothing());
    }
}

proof fn lemma_threshold_positive(cfg: Config)
    ensures
        double::nothing().under(threshold(cfg)),
{
    let floor = double::rounded(1, 10);
    double::lemma_fraction_positive(1, 10);
    let t = threshold(cfg);
    if t != floor {
        double::lemma_something_more(t, floor);
        double::lemma_over_nothing(t);
    }
}

/// The first round only takes samples: it gives no reason, whatever runs.
pub proof fn law_first_round_gives_no_reason(
    old: ProcState,
    cfg: Config,
    rows: Seq<(u32, Seq<char>)>,
    readings: Seq<CpuReading>,
)
    requires
        old.cache == Map::<u32, CpuSample>::empty(),
    ensures
        ({
            let last = after_tick(old, cfg, rows, readings).last;
            reasons(last, threshold(cfg), last.len()) == Seq::<(Seq<char>, Seq<char>)>::empty()
        }),
{
    let start = ProcState { cache: old.cache, last: Seq::empty() };
    let watched = detect::listed_rows(rows, text::views(cfg.proc_busy_when_cpu@));
    lemma_survey_from_nothing(start, watched, readings, watched.len());
    let last = after_tick(old, cfg, rows, readings).last;
    lemma_threshold_positive(cfg);
    lemma_no_reasons(last, threshold(cfg), last.len());
}

} // verus!
