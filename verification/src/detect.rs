//! What tells that the machine is busy: processes, and the meters that the detectors
//! share.
//!
//! A detector is handed readings of the system and keeps what it needs between two
//! rounds. Times are nanoseconds of a clock that never goes back.
use std::collections::HashMap;

use vstd::prelude::*;

use crate::big::Big;
use crate::double;
use crate::double::Double;
use crate::text;

pub mod audio;
pub mod audio_laws;
pub mod dl;
pub mod dl_laws;
pub mod hint;
pub mod hint_laws;
pub mod meter_laws;
pub mod net;
pub mod net_laws;
pub mod proc;
pub mod proc_laws;
pub mod told;

verus! {

broadcast use vstd::std_specs::hash::group_hash_axioms;

/// One reason not to sleep.
#[derive(Debug, Clone)]
pub struct Reason {
    pub kind: &'static str,
    pub detail: String,
}

impl Reason {
    /// The kind and the detail.
    pub open spec fn pair(self) -> (Seq<char>, Seq<char>) {
        (self.kind@, self.detail@)
    }
}

pub open spec fn pairs(v: Seq<Reason>) -> Seq<(Seq<char>, Seq<char>)> {
    Seq::new(v.len(), |i: int| v[i].pair())
}

/// The nanoseconds from one time to another, none where the clock has not moved.
pub open spec fn elapsed(from: u64, to: u64) -> nat {
    if from <= to {
        (to - from) as nat
    } else {
        0
    }
}

pub fn since(from: u64, to: u64) -> (r: u64)
    ensures
        r == elapsed(from, to),
{
    if from <= to {
        to - from
    } else {
        0
    }
}

// ───────────────────────── processes ─────────────────────────

/// The running processes.
pub struct ProcessTable {
    pub procs: Vec<(u32, String)>,
}

/// The name of the first process with the id.
pub open spec fn first_name(rows: Seq<(u32, Seq<char>)>, pid: u32) -> Option<Seq<char>>
    decreases rows.len(),
{
    if rows.len() == 0 {
        None
    } else if rows.first().0 == pid {
        Some(rows.first().1)
    } else {
        first_name(rows.drop_first(), pid)
    }
}

/// Whether a name is in a list, whatever the case of its letters.
pub open spec fn listed(names: Seq<Seq<char>>, name: Seq<char>) -> bool {
    exists|i: int| 0 <= i < names.len() && text::same_ignoring_case(#[trigger] names[i], name)
}

/// The processes whose names are in the list, in the order of the table.
pub open spec fn listed_rows(rows: Seq<(u32, Seq<char>)>, names: Seq<Seq<char>>) -> Seq<
    (u32, Seq<char>),
> {
    rows.filter(|row: (u32, Seq<char>)| listed(names, row.1))
}

/// Rows of process ids and names.
pub open spec fn rows_of(v: Seq<(u32, String)>) -> Seq<(u32, Seq<char>)> {
    Seq::new(v.len(), |i: int| (v[i].0, v[i].1@))
}

/// Whether a name is in a list, whatever the case of its letters.
pub fn is_listed(names: &Vec<String>, name: &str) -> (r: bool)
    ensures
        r == listed(text::views(names@), name@),
{
    let ghost all = text::views(names@);
    let mut i: usize = 0;
    while i < names.len()
        invariant
            i <= names@.len(),
            all == text::views(names@),
            forall|j: int| 0 <= j < i ==> !text::same_ignoring_case(#[trigger] all[j], name@),
        decreases names@.len() - i,
    {
        assert(all[i as int] == names@[i as int]@);
        if text::eq_ignore_case(names[i].as_str(), name) {
            return true;
        }
        i = i + 1;
    }
    false
}

impl ProcessTable {
    pub open spec fn rows(self) -> Seq<(u32, Seq<char>)> {
        rows_of(self.procs@)
    }

    /// The table of the processes that the system lists, each with its name as the
    /// system stores it.
    pub fn snapshot(listing: &Vec<(u32, Vec<u16>)>) -> (t: ProcessTable)
        ensures
            t.rows() == Seq::new(
                listing@.len(),
                |i: int| (listing@[i].0, wide_text(listing@[i].1@)),
            ),
    {
        let mut procs: Vec<(u32, String)> = Vec::new();
        let mut i: usize = 0;
        while i < listing.len()
            invariant
                i <= listing@.len(),
                rows_of(procs@) == Seq::new(
                    i as nat,
                    |k: int| (listing@[k].0, wide_text(listing@[k].1@)),
                ),
            decreases listing@.len() - i,
        {
            let ghost done = rows_of(procs@);
            procs.push((listing[i].0, wide_to_string(listing[i].1.as_slice())));
            assert(rows_of(procs@) == done.push(
                (listing@[i as int].0, wide_text(listing@[i as int].1@)),
            ));
            i = i + 1;
        }
        ProcessTable { procs }
    }

    pub fn name_of(&self, pid: u32) -> (r: Option<&str>)
        ensures
            match r {
                Some(name) => first_name(self.rows(), pid) == Some(name@),
                None => first_name(self.rows(), pid) is None,
            },
    {
        let ghost all = self.rows();
        let mut i: usize = 0;
        assert(all.skip(0) == all);
        while i < self.procs.len()
            invariant
                i <= self.procs@.len(),
                all == self.rows(),
                first_name(all, pid) == first_name(all.skip(i as int), pid),
            decreases self.procs@.len() - i,
        {
            assert(all.skip(i as int).first() == all[i as int]);
            assert(all.skip(i as int).drop_first() == all.skip(i + 1));
            if self.procs[i].0 == pid {
                return Some(self.procs[i].1.as_str());
            }
            i = i + 1;
        }
        assert(all.skip(i as int).len() == 0);
        None
    }

    pub fn count(&self) -> (n: usize)
        ensures
            n == self.rows().len(),
    {
        self.procs.len()
    }

    /// The processes whose names are in the list, whatever the case of their letters.
    pub fn matching(&self, names: &Vec<String>) -> (r: Vec<(u32, String)>)
        ensures
            rows_of(r@) == listed_rows(self.rows(), text::views(names@)),
    {
        let ghost all = self.rows();
        let ghost keep = |row: (u32, Seq<char>)| listed(text::views(names@), row.1);
        let mut out: Vec<(u32, String)> = Vec::new();
        let mut i: usize = 0;
        proof {
            reveal(Seq::filter);
        }
        assert(rows_of(out@) == all.take(0).filter(keep));
        while i < self.procs.len()
            invariant
                i <= self.procs@.len(),
                all == self.rows(),
                keep == (|row: (u32, Seq<char>)| listed(text::views(names@), row.1)),
                rows_of(out@) == all.take(i as int).filter(keep),
            decreases self.procs@.len() - i,
        {
            let ghost done = rows_of(out@);
            let name = self.procs[i].1.as_str();
            proof {
                reveal(Seq::filter);
                assert(all.take(i + 1).drop_last() == all.take(i as int));
                assert(all.take(i + 1).last() == (self.procs@[i as int].0, name@));
            }
            if is_listed(names, name) {
                out.push((self.procs[i].0, name.to_owned()));
                assert(rows_of(out@) == done.push((self.procs@[i as int].0, name@)));
            }
            i = i + 1;
        }
        assert(all.take(i as int) == all);
        out
    }

    /// Whether a process with the id is running.
    pub fn alive(&self, pid: u32) -> (r: bool)
        ensures
            r == ids(self.rows()).contains(pid),
    {
        let ghost all = self.rows();
        let mut i: usize = 0;
        while i < self.procs.len()
            invariant
                i <= self.procs@.len(),
                all == self.rows(),
                forall|j: int| 0 <= j < i ==> (#[trigger] all[j]).0 != pid,
            decreases self.procs@.len() - i,
        {
            if self.procs[i].0 == pid {
                assert(all[i as int].0 == pid);
                return true;
            }
            i = i + 1;
        }
        false
    }
}

// ───────────────────────── UTF-16 ─────────────────────────

pub open spec fn is_high_surrogate(u: u16) -> bool {
    0xD800 <= u <= 0xDBFF
}

pub open spec fn is_low_surrogate(u: u16) -> bool {
    0xDC00 <= u <= 0xDFFF
}

/// The character that a pair of surrogates stands for.
pub open spec fn paired(high: u16, low: u16) -> char {
    (0x1_0000 + (high - 0xD800) * 0x400 + (low - 0xDC00)) as char
}

/// UTF-16 as text. A surrogate without its partner becomes the replacement character.
pub open spec fn utf16(s: Seq<u16>) -> Seq<char>
    decreases s.len(),
{
    if s.len() == 0 {
        Seq::empty()
    } else if is_high_surrogate(s[0]) && s.len() > 1 && is_low_surrogate(s[1]) {
        seq![paired(s[0], s[1])] + utf16(s.skip(2))
    } else if is_high_surrogate(s[0]) || is_low_surrogate(s[0]) {
        seq!['\u{FFFD}'] + utf16(s.skip(1))
    } else {
        seq![s[0] as char] + utf16(s.skip(1))
    }
}

/// How many units stand before the first zero.
pub open spec fn before_zero(s: Seq<u16>) -> int
    decreases s.len(),
{
    if s.len() == 0 || s[0] == 0 {
        0
    } else {
        1 + before_zero(s.skip(1))
    }
}

/// A text in a buffer that a zero may end.
pub open spec fn wide_text(s: Seq<u16>) -> Seq<char> {
    utf16(s.take(before_zero(s)))
}

/// `char::from_u32` of the standard library: the character with the given code point,
/// nothing where there is none, that is above `0x10FFFF` and for surrogates.
pub assume_specification[ char::from_u32 ](i: u32) -> (r: Option<char>)
    ensures
        match r {
            Some(c) => (i < 0xD800 || 0xE000 <= i <= 0x10_FFFF) && c == i as char,
            None => 0xD800 <= i < 0xE000 || i > 0x10_FFFF,
        },
;

fn char_of(code: u32) -> (c: char)
    requires
        code < 0xD800 || 0xE000 <= code <= 0x10_FFFF,
    ensures
        c == code as char,
{
    match char::from_u32(code) {
        Some(c) => c,
        None => ' ',
    }
}

/// The text in a buffer that a zero may end.
pub fn wide_to_string(w: &[u16]) -> (r: String)
    ensures
        r@ == wide_text(w@),
{
    let mut end: usize = 0;
    assert(w@.skip(0) == w@);
    while end < w.len() && w[end] != 0
        invariant
            end <= w@.len(),
            before_zero(w@) == end + before_zero(w@.skip(end as int)),
        decreases w@.len() - end,
    {
        assert(w@.skip(end as int).skip(1) == w@.skip(end + 1));
        end = end + 1;
    }
    let ghost all = w@.take(end as int);
    assert(before_zero(w@) == end);
    let mut out = String::new();
    let mut i: usize = 0;
    assert(all.skip(0) == all);
    while i < end
        invariant
            i <= end <= w@.len(),
            all == w@.take(end as int),
            out@ + utf16(all.skip(i as int)) == utf16(all),
        decreases end - i,
    {
        let u: u16 = w[i];
        let ghost done = out@;
        let ghost rest = all.skip(i as int);
        assert(rest[0] == u);
        if 0xD800 <= u && u <= 0xDBFF && i + 1 < end && 0xDC00 <= w[i + 1] && w[i + 1] <= 0xDFFF {
            assert(rest[1] == w@[i + 1]);
            let code: u32 = 0x1_0000 + (u as u32 - 0xD800) * 0x400 + (w[i + 1] as u32 - 0xDC00);
            out.push(char_of(code));
            assert(rest.skip(2) == all.skip(i + 2));
            assert(out@ + utf16(all.skip(i + 2)) == done + utf16(rest));
            i = i + 2;
        } else if 0xD800 <= u && u <= 0xDFFF {
            out.push('\u{FFFD}');
            assert(rest.skip(1) == all.skip(i + 1));
            assert(out@ + utf16(all.skip(i + 1)) == done + utf16(rest));
            i = i + 1;
        } else {
            out.push(char_of(u as u32));
            assert(rest.skip(1) == all.skip(i + 1));
            assert(out@ + utf16(all.skip(i + 1)) == done + utf16(rest));
            i = i + 1;
        }
    }
    assert(utf16(all.skip(i as int)) == Seq::<char>::empty());
    assert(out@ == utf16(all));
    out
}

/// A file time of two halves, in tenths of a microsecond.
pub fn filetime_u64(high: u32, low: u32) -> (r: u64)
    ensures
        r == high * 0x1_0000_0000 + low,
{
    (high as u64) * 0x1_0000_0000 + low as u64
}

// ───────────────────────── CPU ─────────────────────────

/// What the system says of the times of a process, in tenths of a microsecond.
#[derive(Clone, Copy, Debug)]
pub struct ProcessTimes {
    pub create: u64,
    pub kernel: u64,
    pub user: u64,
}

/// A process at some time.
#[derive(Clone, Copy, Debug)]
pub struct CpuSample {
    /// When it was started: tells it from a later process with the same id.
    pub create: u64,
    /// How long it has run, in seconds.
    pub cpu: Double,
    /// When the sample was taken. It is kept with the sample, so that a process that was
    /// not watched for a while is measured over that while.
    pub at: u64,
}

/// What was read of one process, and when.
#[derive(Clone, Copy, Debug)]
pub struct CpuReading {
    pub pid: u32,
    /// Nothing where the process could not be read.
    pub times: Option<ProcessTimes>,
    pub at: u64,
}

/// The shortest time between two samples that says anything: process times advance in
/// steps of a scheduler tick.
pub const MIN_CPU_WINDOW: u64 = 300_000_000;

/// The seconds of the times that a process has run, in the system and for itself.
pub open spec fn cpu_seconds(times: ProcessTimes) -> Double {
    double::rounded((times.kernel + times.user) as nat, 1).share(double::rounded(10_000_000, 1))
}

impl CpuReading {
    /// The sample that a reading gives.
    pub open spec fn sample(self) -> CpuSample {
        CpuSample {
            create: self.times->0.create,
            cpu: cpu_seconds(self.times->0),
            at: self.at,
        }
    }
}

/// The seconds that a process has run between two samples.
pub open spec fn cpu_used(old: CpuSample, new: CpuSample) -> Double {
    new.cpu.excess(old.cpu)
}

/// The seconds between two samples.
pub open spec fn wall_between(old: CpuSample, new: CpuSample) -> Double {
    double::seconds(elapsed(old.at, new.at) as u64)
}

/// The share of one core between two samples, in percent.
pub open spec fn percent_between(old: CpuSample, new: CpuSample) -> Double {
    cpu_used(old, new).share(wall_between(old, new)).product(100)
}

/// What two samples of an id tell: nothing where the second is of another process, or
/// comes too soon after the first.
pub open spec fn cpu_between(old: Option<CpuSample>, new: CpuSample) -> Option<Double> {
    match old {
        Some(o) => if o.create == new.create && elapsed(o.at, new.at) >= MIN_CPU_WINDOW {
            Some(percent_between(o, new))
        } else {
            None
        },
        None => None,
    }
}

/// What a reading tells, given the samples before it.
pub open spec fn cpu_seen(cache: Map<u32, CpuSample>, reading: CpuReading) -> Option<Double> {
    if reading.times is Some {
        cpu_between(entry_of(cache, reading.pid), reading.sample())
    } else {
        None
    }
}

/// The samples after a reading: its own becomes that of the process.
pub open spec fn cache_after(cache: Map<u32, CpuSample>, reading: CpuReading) -> Map<
    u32,
    CpuSample,
> {
    if reading.times is Some {
        cache.insert(reading.pid, reading.sample())
    } else {
        cache
    }
}

/// However long a process was not looked at, its share is not inflated: one that has kept
/// at most `cores` cores busy since the sample before is given at most that many.
pub proof fn law_gaps_do_not_inflate(old: CpuSample, new: CpuSample, cores: nat)
    requires
        elapsed(old.at, new.at) >= MIN_CPU_WINDOW,
        cpu_used(old, new) is Finite,
        cpu_used(old, new).num() * wall_between(old, new).den() <= cores * (wall_between(
            old,
            new,
        ).num() * cpu_used(old, new).den()),
        cores * 100 < double::TOP,
    ensures
        percent_between(old, new) is Finite,
        percent_between(old, new).num() <= (cores * 100) * percent_between(old, new).den(),
{
    let (used, wall) = (cpu_used(old, new), wall_between(old, new));
    double::lemma_seconds_positive(elapsed(old.at, new.at) as u64);
    double::lemma_den_positive(used);
    double::lemma_den_positive(wall);
    let (p, q) = (wall.num(), used.den());
    assert(p * q > 0) by (nonlinear_arith)
        requires
            p > 0,
            q > 0,
    ;
    double::lemma_rounded_within(used.num() * wall.den(), p * q, cores);
    let share = used.share(wall);
    double::lemma_den_positive(share);
    let (n, d) = (share.num(), share.den());
    assert(n * 100 <= (cores * 100) * d) by (nonlinear_arith)
        requires
            n <= cores * d,
    ;
    double::lemma_rounded_within(n * 100, d, cores * 100);
}

/// The times of a process say nothing about another that got its id, nor over a time too
/// short to measure.
pub proof fn law_unlike_samples_tell_nothing(old: CpuSample, new: CpuSample)
    requires
        old.create != new.create || elapsed(old.at, new.at) < MIN_CPU_WINDOW,
    ensures
        cpu_between(Some(old), new) is None,
{
}

/// The ids of the processes of a table.
pub open spec fn ids(rows: Seq<(u32, Seq<char>)>) -> Set<u32> {
    Set::new(|pid: u32| exists|i: int| 0 <= i < rows.len() && (#[trigger] rows[i]).0 == pid)
}

/// The last sample of each watched process.
pub struct CpuTracker {
    pub cache: HashMap<u32, CpuSample>,
}

/// The entry of a key, if there is one.
pub open spec fn entry_of<V>(m: Map<u32, V>, pid: u32) -> Option<V> {
    if m.contains_key(pid) {
        Some(m[pid])
    } else {
        None
    }
}

fn seconds_run(times: ProcessTimes) -> (r: Double)
    ensures
        r == cpu_seconds(times),
{
    let ticks = Big::from_u64(times.kernel).plus(&Big::from_u64(times.user));
    double::nearest(&ticks, &Big::from_u64(1)).over(Double::whole(10_000_000))
}

impl CpuTracker {
    pub fn new() -> (t: CpuTracker)
        ensures
            t.cache@ == Map::<u32, CpuSample>::empty(),
    {
        CpuTracker { cache: HashMap::new() }
    }

    /// The share of one core that a process has used since the sample before, in percent.
    /// The reading becomes the sample of the process; one
    /// without times changes nothing.
    pub fn cpu_percent(&mut self, reading: CpuReading) -> (r: Option<Double>)
        ensures
            final(self).cache@ == cache_after(old(self).cache@, reading),
            r == cpu_seen(old(self).cache@, reading),
    {
        let times = match reading.times {
            Some(t) => t,
            None => {
                return None;
            },
        };
        let new = CpuSample {
            create: times.create,
            cpu: seconds_run(times),
            at: reading.at,
        };
        match self.cache.insert(reading.pid, new) {
            Some(o) => {
                if o.create != new.create {
                    return None;
                }
                let wall: u64 = since(o.at, new.at);
                if wall < MIN_CPU_WINDOW {
                    return None;
                }
                Some(new.cpu.minus(o.cpu).over(double::seconds_of(wall)).times(100))
            },
            None => None,
        }
    }

    /// Forgets the processes that have ended.
    pub fn end_tick(&mut self, table: &ProcessTable)
        ensures
            final(self).cache@ == old(self).cache@.restrict(ids(table.rows())),
    {
        let kept = retain(&self.cache, &id_list(&table.procs));
        self.cache = kept;
    }
}

/// The ids of the listed processes.
pub fn id_list(procs: &Vec<(u32, String)>) -> (r: Vec<u32>)
    ensures
        r@.to_set() == ids(rows_of(procs@)),
{
    let ghost rows = rows_of(procs@);
    let mut out: Vec<u32> = Vec::new();
    let mut i: usize = 0;
    while i < procs.len()
        invariant
            i <= procs@.len(),
            rows == rows_of(procs@),
            out@ == Seq::new(i as nat, |k: int| rows[k].0),
        decreases procs@.len() - i,
    {
        out.push(procs[i].0);
        i = i + 1;
        assert(out@ == Seq::new(i as nat, |k: int| rows[k].0));
    }
    proof {
        assert forall|p: u32| out@.to_set().contains(p) <==> ids(rows).contains(p) by {
            if out@.contains(p) {
                let k = choose|k: int| 0 <= k < out@.len() && out@[k] == p;
                assert(rows[k].0 == p);
            }
            if ids(rows).contains(p) {
                let k = choose|k: int| 0 <= k < rows.len() && (#[trigger] rows[k]).0 == p;
                assert(out@[k] == p);
            }
        }
        assert(out@.to_set() == ids(rows));
    }
    out
}

/// The entries of a map whose keys are listed.
pub fn retain<V: Copy>(m: &HashMap<u32, V>, pids: &Vec<u32>) -> (r: HashMap<u32, V>)
    ensures
        r@ == m@.restrict(pids@.to_set()),
{
    let mut out: HashMap<u32, V> = HashMap::new();
    let mut i: usize = 0;
    assert(out@ == m@.restrict(pids@.take(0).to_set()));
    while i < pids.len()
        invariant
            i <= pids@.len(),
            out@ == m@.restrict(pids@.take(i as int).to_set()),
        decreases pids@.len() - i,
    {
        let pid: u32 = pids[i];
        proof {
            let (a, b) = (pids@.take(i as int), pids@.take(i + 1));
            assert(b == a.push(pid));
            assert forall|p: u32| b.to_set().contains(p) <==> a.to_set().insert(pid).contains(p) by {
                if b.contains(p) && p != pid {
                    let k = choose|k: int| 0 <= k < b.len() && b[k] == p;
                    assert(a[k] == p);
                }
                if a.contains(p) {
                    let k = choose|k: int| 0 <= k < a.len() && a[k] == p;
                    assert(b[k] == p);
                }
                assert(b[i as int] == pid);
            }
            assert(b.to_set() == a.to_set().insert(pid));
        }
        match m.get(&pid) {
            Some(v) => {
                out.insert(pid, *v);
            },
            None => {},
        }
        i = i + 1;
        assert(out@ == m@.restrict(pids@.take(i as int).to_set()));
    }
    assert(pids@.take(i as int) == pids@);
    out
}

// ───────────────────────── rates ─────────────────────────

/// Turns a counter into a rate.
#[derive(Clone, Copy, Debug)]
pub struct RateMeter {
    /// The counter at the last update, and when that was.
    pub prev: Option<(u64, u64)>,
}

/// The shortest time over which a rate is measured is longer than this.
pub const MIN_RATE_WINDOW: u64 = 50_000_000;

/// How far a counter has come; one that was reset has not moved.
pub open spec fn counted(old: u64, new: u64) -> nat {
    if old <= new {
        (new - old) as nat
    } else {
        0
    }
}

/// The rate from one state of a counter to another, in units per second; none over too
/// short a time.
pub open spec fn rate_between(prev: Option<(u64, u64)>, total: u64, now: u64) -> Option<Double> {
    match prev {
        Some((old, at)) => if elapsed(at, now) > MIN_RATE_WINDOW {
            Some(double::rounded(counted(old, total), 1).share(double::seconds(elapsed(at, now) as u64)))
        } else {
            None
        },
        None => None,
    }
}

impl RateMeter {
    pub fn new() -> (m: RateMeter)
        ensures
            m.prev is None,
    {
        RateMeter { prev: None }
    }

    /// The rate since the update before, in units per second. The first update has none.
    pub fn update(&mut self, total: u64, now: u64) -> (r: Option<Double>)
        ensures
            final(self).prev == Some((total, now)),
            r == rate_between(old(self).prev, total, now),
    {
        let prev = self.prev;
        self.prev = Some((total, now));
        match prev {
            Some((old_total, at)) => {
                let dt: u64 = since(at, now);
                if dt <= MIN_RATE_WINDOW {
                    return None;
                }
                let moved: u64 = if old_total <= total {
                    total - old_total
                } else {
                    0
                };
                Some(Double::whole(moved).over(double::seconds_of(dt)))
            },
            None => None,
        }
    }
}

} // verus!
