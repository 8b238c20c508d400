//! Download managers: programs that sit in the tray and move data with hardly any use of
//! the processor.
//!
//! One is busy where its data rate is high enough, or where it has many connections and
//! the rate is at least well above the chatter of an idle program. Connections alone do
//! not count: a program that seeds holds dozens of them and moves nothing.
use std::collections::HashMap;

use vstd::prelude::*;

use crate::config::Config;
use crate::detect;
use crate::detect::net;
use crate::detect::{ProcessTable, RateMeter, Reason};
use crate::double;
use crate::double::Double;
use crate::tally;
use crate::text;

verus! {

broadcast use vstd::std_specs::hash::group_hash_axioms;

/// The least rate at which many connections count, in kilobytes per second.
pub const LOW_RATE_FLOOR_KBPS: u64 = 5;

/// The state of an established connection in the tables of the system.
pub const MIB_TCP_STATE_ESTAB: u32 = 5;

/// What the processes of one name do together.
#[derive(Clone, Copy, Debug)]
pub struct DlRead {
    /// The data rate in kilobytes per second, of the processes that could be read.
    pub kbps: Double,
    /// Established connections.
    pub conns: u32,
    /// How many processes could not be read, which is not the same as a rate of zero.
    pub io_unreadable: u32,
}

/// Whether a rate is as high as a whole number of kilobytes per second.
pub open spec fn fast(kbps: Double, least: u64) -> bool {
    !kbps.under(double::rounded(least as nat, 1))
}

/// Whether a reading is that of a busy program.
pub open spec fn busy(r: DlRead, cfg: Config) -> bool {
    ||| fast(r.kbps, cfg.dl_io_kbps)
    ||| r.conns >= cfg.dl_tcp_conns && fast(r.kbps, LOW_RATE_FLOOR_KBPS)
    ||| r.io_unreadable > 0 && r.kbps.is_zero() && r.conns >= cfg.dl_tcp_conns
}

pub fn is_busy(r: &DlRead, cfg: &Config) -> (b: bool)
    ensures
        b == busy(*r, *cfg),
{
    if !r.kbps.less(Double::whole(cfg.dl_io_kbps)) {
        return true;
    }
    if r.conns >= cfg.dl_tcp_conns && !r.kbps.less(Double::whole(LOW_RATE_FLOOR_KBPS)) {
        return true;
    }
    r.io_unreadable > 0 && r.kbps.is_nothing() && r.conns >= cfg.dl_tcp_conns
}

// ───────────────────────── connections ─────────────────────────

/// How the rows of a connection table are laid out, in words of 32 bits.
#[derive(Clone, Copy, Debug)]
pub struct RowLayout {
    pub width: usize,
    pub state: usize,
    pub pid: usize,
}

pub open spec fn v4_layout() -> RowLayout {
    RowLayout { width: 6, state: 0, pid: 5 }
}

pub open spec fn v6_layout() -> RowLayout {
    RowLayout { width: 14, state: 12, pid: 13 }
}

/// One more.
pub open spec fn one_more(n: u32) -> u32 {
    if n < u32::MAX {
        (n + 1) as u32
    } else {
        n
    }
}

pub open spec fn count_of(m: Map<u32, u32>, pid: u32) -> u32 {
    if m.contains_key(pid) {
        m[pid]
    } else {
        0
    }
}

/// Row `i` of a table starts behind its row count.
pub open spec fn row_at(l: RowLayout, i: int) -> int {
    1 + i * l.width
}

/// How many rows a table has: as many as it says, but no more than there are.
pub open spec fn row_count(words: Seq<u32>, l: RowLayout) -> nat {
    if words.len() == 0 {
        0
    } else {
        let fits = ((words.len() - 1) / l.width as int) as nat;
        if words[0] <= fits {
            words[0] as nat
        } else {
            fits
        }
    }
}

/// The counts with the established connections of the first `n` rows added.
pub open spec fn counted(m: Map<u32, u32>, words: Seq<u32>, l: RowLayout, n: nat) -> Map<u32, u32>
    decreases n,
{
    if n == 0 {
        m
    } else {
        let c = counted(m, words, l, (n - 1) as nat);
        let at = row_at(l, n - 1);
        let pid = words[at + l.pid];
        if words[at + l.state] == MIB_TCP_STATE_ESTAB {
            c.insert(pid, one_more(count_of(c, pid)))
        } else {
            c
        }
    }
}

/// The counts with those of a whole table added; a table that could not be had adds
/// nothing.
pub open spec fn table_counted(m: Map<u32, u32>, table: Option<Seq<u32>>, l: RowLayout) -> Map<
    u32,
    u32,
> {
    match table {
        Some(words) => counted(m, words, l, row_count(words, l)),
        None => m,
    }
}

pub open spec fn words_view(table: Option<Vec<u32>>) -> Option<Seq<u32>> {
    match table {
        Some(words) => Some(words@),
        None => None,
    }
}

fn count_rows(map: &mut HashMap<u32, u32>, words: &Vec<u32>, l: RowLayout)
    requires
        l.state < l.width,
        l.pid < l.width,
    ensures
        final(map)@ == counted(old(map)@, words@, l, row_count(words@, l)),
{
    if words.len() == 0 {
        return;
    }
    let fits: usize = (words.len() - 1) / l.width;
    let n: usize = if words[0] as u64 <= fits as u64 {
        words[0] as usize
    } else {
        fits
    };
    assert(fits * l.width <= words@.len() - 1) by {
        vstd::arithmetic::div_mod::lemma_fundamental_div_mod(words@.len() - 1, l.width as int);
        vstd::arithmetic::mul::lemma_mul_is_commutative(fits as int, l.width as int);
    }
    let mut i: usize = 0;
    while i < n
        invariant
            i <= n <= fits,
            fits * l.width <= words@.len() - 1,
            words@.len() <= usize::MAX,
            l.state < l.width,
            l.pid < l.width,
            map@ == counted(old(map)@, words@, l, i as nat),
        decreases n - i,
    {
        assert(i * l.width + l.width <= fits * l.width && 0 <= i * l.width) by (nonlinear_arith)
            requires
                0 <= i < fits,
        ;
        let at: usize = 1 + i * l.width;
        if words[at + l.state] == MIB_TCP_STATE_ESTAB {
            let pid: u32 = words[at + l.pid];
            let before: u32 = match map.get(&pid) {
                Some(n) => *n,
                None => 0,
            };
            map.insert(
                pid,
                if before < u32::MAX {
                    before + 1
                } else {
                    before
                },
            );
        }
        i = i + 1;
    }
}

/// Adds the established connections of an IPv4 table.
pub fn count_v4(map: &mut HashMap<u32, u32>, table: &Option<Vec<u32>>)
    ensures
        final(map)@ == table_counted(old(map)@, words_view(*table), v4_layout()),
{
    match table {
        Some(words) => count_rows(map, words, RowLayout { width: 6, state: 0, pid: 5 }),
        None => {},
    }
}

/// Adds the established connections of an IPv6 table.
pub fn count_v6(map: &mut HashMap<u32, u32>, table: &Option<Vec<u32>>)
    ensures
        final(map)@ == table_counted(old(map)@, words_view(*table), v6_layout()),
{
    match table {
        Some(words) => count_rows(map, words, RowLayout { width: 14, state: 12, pid: 13 }),
        None => {},
    }
}

/// How many established connections each process has.
pub open spec fn established(v4: Option<Seq<u32>>, v6: Option<Seq<u32>>) -> Map<u32, u32> {
    table_counted(table_counted(Map::empty(), v4, v4_layout()), v6, v6_layout())
}

/// How many established connections each process has, in both tables.
pub fn established_per_pid(v4: &Option<Vec<u32>>, v6: &Option<Vec<u32>>) -> (map: HashMap<u32, u32>)
    ensures
        map@ == established(words_view(*v4), words_view(*v6)),
{
    let mut map: HashMap<u32, u32> = HashMap::new();
    count_v4(&mut map, v4);
    count_v6(&mut map, v6);
    map
}

// ───────────────────────── fetching a table ─────────────────────────

/// `windows::Win32::Foundation::ERROR_INSUFFICIENT_BUFFER`: what a call returns that needs
/// more room. Its value is 122.
#[verifier::external_body]
fn error_insufficient_buffer() -> (r: u32)
    ensures
        r == 122u32,
{
    windows::Win32::Foundation::ERROR_INSUFFICIENT_BUFFER.0
}

/// `windows::Win32::Foundation::NO_ERROR`: what a call returns that succeeded. Its value
/// is 0.
#[verifier::external_body]
fn no_error() -> (r: u32)
    ensures
        r == 0u32,
{
    windows::Win32::Foundation::NO_ERROR.0
}

/// Asking for a connection table: first for its size, then for its rows, up to three
/// times as it may grow in between.
#[derive(Clone, Copy, Debug, PartialEq, Eq, Structural)]
pub enum TcpFetch {
    /// Ask for the size, without a buffer.
    Size,
    /// Ask for the rows, with a buffer of so many words.
    Rows { words: u32, tries_left: u8 },
    /// The buffer holds the table.
    Done,
    /// There is no table to be had.
    Failed,
}

/// The words of 32 bits that so many bytes take.
pub open spec fn words_for(bytes: u32) -> u32 {
    ((bytes + 3) / 4) as u32
}

fn words_of(bytes: u32) -> (r: u32)
    ensures
        r == words_for(bytes),
{
    bytes / 4 + if bytes % 4 == 0 {
        0
    } else {
        1
    }
}

impl TcpFetch {
    /// What to do after a call returned a code and a size in bytes.
    pub open spec fn next(self, code: u32, size: u32) -> TcpFetch {
        match self {
            TcpFetch::Size => if code == 122 && size > 0 {
                TcpFetch::Rows { words: words_for(size), tries_left: 3 }
            } else {
                TcpFetch::Failed
            },
            TcpFetch::Rows { words, tries_left } => if code == 0 {
                TcpFetch::Done
            } else if code == 122 && tries_left > 1 {
                TcpFetch::Rows { words: words_for(size), tries_left: (tries_left - 1) as u8 }
            } else {
                TcpFetch::Failed
            },
            TcpFetch::Done => TcpFetch::Done,
            TcpFetch::Failed => TcpFetch::Failed,
        }
    }

    pub fn after(self, code: u32, size: u32) -> (r: TcpFetch)
        ensures
            r == self.next(code, size),
    {
        match self {
            TcpFetch::Size => if code == error_insufficient_buffer() && size > 0 {
                TcpFetch::Rows { words: words_of(size), tries_left: 3 }
            } else {
                TcpFetch::Failed
            },
            TcpFetch::Rows { words: _, tries_left } => if code == no_error() {
                TcpFetch::Done
            } else if code == error_insufficient_buffer() && tries_left > 1 {
                TcpFetch::Rows { words: words_of(size), tries_left: tries_left - 1 }
            } else {
                TcpFetch::Failed
            },
            TcpFetch::Done => TcpFetch::Done,
            TcpFetch::Failed => TcpFetch::Failed,
        }
    }

    /// How many calls may still come.
    pub open spec fn calls_left(self) -> nat {
        match self {
            TcpFetch::Size => 4,
            TcpFetch::Rows { words, tries_left } => if tries_left > 0 {
                tries_left as nat
            } else {
                1
            },
            TcpFetch::Done => 0,
            TcpFetch::Failed => 0,
        }
    }
}

/// Every call brings the end nearer, whatever it returns.
pub proof fn law_fetching_ends(f: TcpFetch, code: u32, size: u32)
    requires
        f.calls_left() > 0,
    ensures
        f.next(code, size).calls_left() < f.calls_left(),
{
}

// ───────────────────────── the detector ─────────────────────────

/// What was read of one process, and when.
#[derive(Clone, Copy, Debug)]
pub struct IoReading {
    pub pid: u32,
    /// The bytes read and written; nothing where the process could not be read.
    pub bytes: Option<(u64, u64)>,
    pub at: u64,
}

impl IoReading {
    /// The bytes moved either way. The counter wraps round.
    pub open spec fn total(self) -> u64 {
        (((self.bytes->0).0 + (self.bytes->0).1) % 0x1_0000_0000_0000_0000) as u64
    }
}

/// The first reading of a process; where there is none it counts as unreadable.
pub open spec fn reading_of(readings: Seq<IoReading>, pid: u32) -> IoReading
    decreases readings.len(),
{
    if readings.len() == 0 {
        IoReading { pid, bytes: None, at: 0 }
    } else if readings.first().pid == pid {
        readings.first()
    } else {
        reading_of(readings.drop_first(), pid)
    }
}

fn find_reading(readings: &Vec<IoReading>, pid: u32) -> (r: IoReading)
    ensures
        r == reading_of(readings@, pid),
{
    let mut i: usize = 0;
    assert(readings@.skip(0) == readings@);
    while i < readings.len()
        invariant
            i <= readings@.len(),
            reading_of(readings@, pid) == reading_of(readings@.skip(i as int), pid),
        decreases readings@.len() - i,
    {
        assert(readings@.skip(i as int).first() == readings@[i as int]);
        assert(readings@.skip(i as int).drop_first() == readings@.skip(i + 1));
        if readings[i].pid == pid {
            return readings[i];
        }
        i = i + 1;
    }
    assert(readings@.skip(i as int).len() == 0);
    IoReading { pid, bytes: None, at: 0 }
}

pub struct DlDetector {
    /// The meter of each watched process.
    pub meters: HashMap<u32, RateMeter>,
    /// The name of each watched program that runs, with what its processes do.
    pub last: Vec<(String, DlRead)>,
}

/// What a detector knows.
pub struct DlState {
    pub meters: Map<u32, RateMeter>,
    pub last: Seq<(Seq<char>, DlRead)>,
}

pub open spec fn nothing_read() -> DlRead {
    DlRead { kbps: double::nothing(), conns: 0, io_unreadable: 0 }
}

pub open spec fn cleared() -> DlState {
    DlState { meters: Map::empty(), last: Seq::empty() }
}

pub open spec fn sum32(a: u32, b: u32) -> u32 {
    if a + b <= u32::MAX {
        (a + b) as u32
    } else {
        u32::MAX
    }
}

/// The counter of a process at its last reading, if it had one.
pub open spec fn prev_of(meters: Map<u32, RateMeter>, pid: u32) -> Option<(u64, u64)> {
    if meters.contains_key(pid) {
        meters[pid].prev
    } else {
        None
    }
}

/// What a program does, with one more of its processes added. A process whose rate
/// cannot be told yet adds nothing; one that cannot be read is counted as such.
pub open spec fn with_process(
    e: DlRead,
    meters: Map<u32, RateMeter>,
    conns: u32,
    reading: IoReading,
) -> DlRead {
    let e = DlRead { conns: sum32(e.conns, conns), ..e };
    if reading.bytes is Some {
        match detect::rate_between(prev_of(meters, reading.pid), reading.total(), reading.at) {
            Some(r) => DlRead { kbps: e.kbps.sum(net::kilo(r)), ..e },
            None => e,
        }
    } else {
        DlRead { io_unreadable: one_more(e.io_unreadable), ..e }
    }
}

/// The meters after a reading.
pub open spec fn meters_after(meters: Map<u32, RateMeter>, reading: IoReading) -> Map<
    u32,
    RateMeter,
> {
    if reading.bytes is Some {
        meters.insert(reading.pid, RateMeter { prev: Some((reading.total(), reading.at)) })
    } else {
        meters
    }
}

/// The state after the first `n` of the watched processes were looked at.
pub open spec fn surveyed(
    start: DlState,
    rows: Seq<(u32, Seq<char>)>,
    conns: Map<u32, u32>,
    readings: Seq<IoReading>,
    n: nat,
) -> DlState
    decreases n,
{
    if n == 0 {
        start
    } else {
        let s = surveyed(start, rows, conns, readings, (n - 1) as nat);
        let (pid, name) = rows[n - 1];
        let reading = reading_of(readings, pid);
        DlState {
            meters: meters_after(s.meters, reading),
            last: tally::stored(
                s.last,
                name,
                with_process(
                    tally::value_of(s.last, name, nothing_read()),
                    s.meters,
                    count_of(conns, pid),
                    reading,
                ),
            ),
        }
    }
}

/// The processes that the detector looks at; none where it is disabled.
pub open spec fn watched(cfg: Config, rows: Seq<(u32, Seq<char>)>) -> Seq<(u32, Seq<char>)> {
    if cfg.dl_enabled {
        detect::listed_rows(rows, text::views(cfg.dl_processes@))
    } else {
        Seq::empty()
    }
}

/// The state after a round. Where nothing is watched, everything is forgotten.
pub open spec fn after_tick(
    old: DlState,
    cfg: Config,
    rows: Seq<(u32, Seq<char>)>,
    conns: Map<u32, u32>,
    readings: Seq<IoReading>,
) -> DlState {
    let w = watched(cfg, rows);
    let start = DlState { meters: old.meters, last: Seq::empty() };
    let s = surveyed(start, w, conns, readings, w.len());
    if w.len() == 0 {
        cleared()
    } else {
        DlState { meters: s.meters.restrict(detect::ids(w)), last: s.last }
    }
}

pub open spec fn detail(name: Seq<char>, r: DlRead) -> Seq<char> {
    name + " io="@ + r.kbps.text(0) + "KB/s tcp="@ + text::dec(r.conns as nat)
}

/// The reasons that the first `n` names give.
pub open spec fn reasons(last: Seq<(Seq<char>, DlRead)>, cfg: Config, n: nat) -> Seq<
    (Seq<char>, Seq<char>),
>
    decreases n,
{
    if n == 0 {
        Seq::empty()
    } else {
        let before = reasons(last, cfg, (n - 1) as nat);
        let (name, r) = last[n - 1];
        if busy(r, cfg) {
            before.push(("dl"@, detail(name, r)))
        } else {
            before
        }
    }
}

pub open spec fn status_row(name: Seq<char>, r: DlRead) -> Seq<char> {
    "    "@ + text::pad_right(name, 24) + " io="@ + text::pad_left(
        r.kbps.text(1),
        ' ',
        9,
    ) + " KB/s  established_tcp="@ + text::dec(r.conns as nat) + if r.io_unreadable > 0 {
        "  ["@ + text::dec(r.io_unreadable as nat) + " proc io unreadable]"@
    } else {
        Seq::empty()
    }
}

pub open spec fn status_head(cfg: Config) -> Seq<char> {
    "  busy if io>="@ + text::dec(cfg.dl_io_kbps as nat) + "KB/s, or (tcp>="@ + text::dec(
        cfg.dl_tcp_conns as nat,
    ) + " and io>="@ + text::dec(LOW_RATE_FLOOR_KBPS as nat) + "KB/s)  watching=["@ + text::join(
        text::views(cfg.dl_processes@),
        ", "@,
    ) + "]"@
}

/// The lines that show the detector.
pub open spec fn status(cfg: Config, last: Seq<(Seq<char>, DlRead)>) -> Seq<Seq<char>> {
    if !cfg.dl_enabled {
        seq!["  (disabled)"@]
    } else if last.len() == 0 {
        seq![status_head(cfg), "    (no downloader running)"@]
    } else {
        seq![status_head(cfg)] + Seq::new(
            last.len(),
            |i: int| status_row(last[i].0, last[i].1),
        )
    }
}

fn detail_string(name: &str, r: DlRead) -> (s: String)
    ensures
        s@ == detail(name@, r),
{
    let mut s = name.to_owned();
    s.append(" io=");
    s.append(r.kbps.show(0).as_str());
    s.append("KB/s tcp=");
    text::push_dec(&mut s, r.conns as u128);
    s
}

fn row_string(name: &str, r: DlRead) -> (s: String)
    ensures
        s@ == status_row(name@, r),
{
    let mut s = "    ".to_owned();
    text::push_right_padded(&mut s, name, 24);
    s.append(" io=");
    text::push_left_padded(&mut s, r.kbps.show(1).as_str(), ' ', 9);
    s.append(" KB/s  established_tcp=");
    text::push_dec(&mut s, r.conns as u128);
    if r.io_unreadable > 0 {
        let ghost done = s@;
        s.append("  [");
        text::push_dec(&mut s, r.io_unreadable as u128);
        s.append(" proc io unreadable]");
        assert(s@ == done + ("  ["@ + text::dec(r.io_unreadable as nat)
            + " proc io unreadable]"@));
    } else {
        assert(s@ == s@ + Seq::<char>::empty());
    }
    s
}

fn head_string(cfg: &Config) -> (s: String)
    ensures
        s@ == status_head(*cfg),
{
    let mut s = "  busy if io>=".to_owned();
    text::push_dec(&mut s, cfg.dl_io_kbps as u128);
    s.append("KB/s, or (tcp>=");
    text::push_dec(&mut s, cfg.dl_tcp_conns as u128);
    s.append(" and io>=");
    text::push_dec(&mut s, LOW_RATE_FLOOR_KBPS as u128);
    s.append("KB/s)  watching=[");
    s.append(text::join_strings(&cfg.dl_processes, ", ").as_str());
    s.append("]");
    s
}

impl DlDetector {
    pub open spec fn state(self) -> DlState {
        DlState { meters: self.meters@, last: tally::rows_view(self.last@) }
    }

    /// Whether the names stand in their order, each once.
    pub open spec fn wf(self) -> bool {
        tally::sorted(self.state().last)
    }

    pub fn new() -> (d: DlDetector)
        ensures
            d.wf(),
            d.state() == cleared(),
    {
        let d = DlDetector { meters: HashMap::new(), last: Vec::new() };
        assert(d.state().last == cleared().last);
        d
    }

    /// Adds one process to what its program does.
    fn measure(&mut self, e: DlRead, conns: u32, reading: IoReading) -> (r: DlRead)
        ensures
            r == with_process(e, old(self).meters@, conns, reading),
            final(self).meters@ == meters_after(old(self).meters@, reading),
            final(self).last == old(self).last,
    {
        let mut e = e;
        e.conns = if e.conns <= u32::MAX - conns {
            e.conns + conns
        } else {
            u32::MAX
        };
        match reading.bytes {
            Some((read, written)) => {
                let bytes: u64 = net::wrapping_sum(read, written);
                let mut meter = match self.meters.get(&reading.pid) {
                    Some(m) => *m,
                    None => RateMeter::new(),
                };
                if let Some(rate) = meter.update(bytes, reading.at) {
                    e.kbps = e.kbps.plus(net::kilo_of(rate));
                }
                self.meters.insert(reading.pid, meter);
            },
            None => {
                if e.io_unreadable < u32::MAX {
                    e.io_unreadable = e.io_unreadable + 1;
                }
            },
        }
        e
    }

    /// One round: the data rate and the connections of each watched program.
    pub fn tick(
        &mut self,
        cfg: &Config,
        table: &ProcessTable,
        conns: &HashMap<u32, u32>,
        readings: &Vec<IoReading>,
    ) -> (out: Vec<Reason>)
        ensures
            final(self).wf(),
            final(self).state() == after_tick(
                old(self).state(),
                *cfg,
                table.rows(),
                conns@,
                readings@,
            ),
            detect::pairs(out@) == reasons(
                final(self).state().last,
                *cfg,
                final(self).state().last.len(),
            ),
    {
        let ghost start = DlState { meters: self.meters@, last: Seq::empty() };
        let mut out: Vec<Reason> = Vec::new();
        let mut last: Vec<(String, DlRead)> = Vec::new();
        assert(tally::rows_view(last@) == start.last);
        assert(detect::pairs(out@) == Seq::<(Seq<char>, Seq<char>)>::empty());
        let seen = if cfg.dl_enabled {
            table.matching(&cfg.dl_processes)
        } else {
            Vec::new()
        };
        let ghost rows = detect::rows_of(seen@);
        assert(rows == watched(*cfg, table.rows()));
        if seen.len() == 0 {
            self.last = last;
            self.meters = HashMap::new();
            return out;
        }
        let mut i: usize = 0;
        while i < seen.len()
            invariant
                i <= seen@.len(),
                rows == detect::rows_of(seen@),
                tally::rows_view(last@) == surveyed(start, rows, conns@, readings@, i as nat).last,
                self.meters@ == surveyed(start, rows, conns@, readings@, i as nat).meters,
                tally::sorted(tally::rows_view(last@)),
            decreases seen@.len() - i,
        {
            let pid: u32 = seen[i].0;
            let name = seen[i].1.as_str();
            let ghost view = tally::rows_view(last@);
            let own: u32 = match conns.get(&pid) {
                Some(n) => *n,
                None => 0,
            };
            let before = tally::get(
                &last,
                name,
                DlRead { kbps: Double::zero(), conns: 0, io_unreadable: 0 },
            );
            let e = self.measure(before, own, find_reading(readings, pid));
            proof {
                lemma_reading_of(readings@, pid);
                tally::law_storing_keeps_order(view, name@, e);
            }
            tally::put(&mut last, name, e);
            i = i + 1;
        }
        self.last = last;
        let kept = detect::retain(&self.meters, &detect::id_list(&seen));
        self.meters = kept;
        let ghost view = tally::rows_view(self.last@);
        let mut i: usize = 0;
        while i < self.last.len()
            invariant
                i <= self.last@.len(),
                view == tally::rows_view(self.last@),
                detect::pairs(out@) == reasons(view, *cfg, i as nat),
            decreases self.last@.len() - i,
        {
            let ghost done = detect::pairs(out@);
            let r: DlRead = self.last[i].1;
            if is_busy(&r, cfg) {
                out.push(Reason { kind: "dl", detail: detail_string(self.last[i].0.as_str(), r) });
                assert(detect::pairs(out@) == done.push(("dl"@, detail(view[i as int].0, r))));
            }
            i = i + 1;
        }
        out
    }

    /// The programs are only found by listing all processes, which is too much work for
    /// the quick look.
    pub fn probe(&mut self, cfg: &Config) -> (r: bool)
        ensures
            !r,
            *final(self) == *old(self),
    {
        false
    }

    pub fn status_lines(&self, cfg: &Config) -> (lines: Vec<String>)
        ensures
            text::views(lines@) == status(*cfg, self.state().last),
    {
        let ghost view = tally::rows_view(self.last@);
        let mut lines: Vec<String> = Vec::new();
        if !cfg.dl_enabled {
            lines.push("  (disabled)".to_owned());
            assert(text::views(lines@) == seq!["  (disabled)"@]);
            return lines;
        }
        let ghost first = status_head(*cfg);
        lines.push(head_string(cfg));
        assert(text::views(lines@) == seq![first]);
        if self.last.len() == 0 {
            lines.push("    (no downloader running)".to_owned());
            assert(text::views(lines@) == seq![first, "    (no downloader running)"@]);
            return lines;
        }
        let mut i: usize = 0;
        assert(text::views(lines@) == seq![first] + Seq::new(
            0,
            |k: int| status_row(view[k].0, view[k].1),
        ));
        while i < self.last.len()
            invariant
                i <= self.last@.len(),
                view == tally::rows_view(self.last@),
                text::views(lines@) == seq![first] + Seq::new(
                    i as nat,
                    |k: int| status_row(view[k].0, view[k].1),
                ),
            decreases self.last@.len() - i,
        {
            let ghost done = text::views(lines@);
            lines.push(row_string(self.last[i].0.as_str(), self.last[i].1));
            assert(text::views(lines@) == done.push(status_row(view[i as int].0, view[i as int].1)));
            i = i + 1;
            assert(text::views(lines@) == seq![first] + Seq::new(
                i as nat,
                |k: int| status_row(view[k].0, view[k].1),
            ));
        }
        lines
    }
}

proof fn lemma_reading_of(readings: Seq<IoReading>, pid: u32)
    ensures
        reading_of(readings, pid).pid == pid,
    decreases readings.len(),
{
    if readings.len() > 0 {
        lemma_reading_of(readings.drop_first(), pid);
    }
}

/// Connections alone do not make a program busy, however many: a program whose
/// processes can all be read and that moves less than the floor and less than the
/// threshold is idle.
pub proof fn law_connections_alone_do_not_count(r: DlRead, cfg: Config)
    requires
        r.io_unreadable == 0,
        !fast(r.kbps, LOW_RATE_FLOOR_KBPS),
        !fast(r.kbps, cfg.dl_io_kbps),
    ensures
        !busy(r, cfg),
{
}

} // verus!
