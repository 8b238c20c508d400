//! What holds of the download managers.
use vstd::prelude::*;

use crate::config::Config;
use crate::detect;
use crate::detect::dl;
use crate::detect::dl::{DlRead, DlState, IoReading};
use crate::detect::told;
use crate::detect::RateMeter;
use crate::double;
use crate::double::Double;
use crate::double_laws;
use crate::tally;
use crate::text;

verus! {

// ───────────────────────── busy or not ─────────────────────────

/// A rate of at least the configured one makes a program busy, whatever its connections
/// and whether or not all of its processes can be read.
pub proof fn law_a_high_rate_is_enough(kbps: Double, conns: u32, io_unreadable: u32, cfg: Config)
    requires
        !kbps.under(double::rounded(cfg.dl_io_kbps as nat, 1)),
    ensures
        dl::busy((DlRead { kbps, conns, io_unreadable }), cfg),
{
}

/// Enough connections and at least five kilobytes per second make a program busy, however
/// much faster it is.
pub proof fn law_connections_and_a_low_rate_are_enough(
    kbps: Double,
    conns: u32,
    io_unreadable: u32,
    cfg: Config,
)
    requires
        conns >= cfg.dl_tcp_conns,
        !kbps.under(double::rounded(5, 1)),
    ensures
        dl::busy((DlRead { kbps, conns, io_unreadable }), cfg),
{
}

/// Of a program that cannot be read the connections decide.
pub proof fn law_connections_decide_where_nothing_can_be_read(
    conns: u32,
    io_unreadable: u32,
    cfg: Config,
)
    requires
        io_unreadable > 0,
        cfg.dl_io_kbps > 0,
    ensures
        dl::busy((DlRead { kbps: double::nothing(), conns, io_unreadable }), cfg) <==> conns
            >= cfg.dl_tcp_conns,
{
    double::lemma_fraction_positive(cfg.dl_io_kbps as nat, 1);
    double::lemma_fraction_positive(5, 1);
}

/// A program below the configured rate is idle unless it has enough connections, and with
/// them it is idle below five kilobytes per second unless nothing of it can be read.
pub proof fn law_other_programs_are_idle(
    kbps: Double,
    conns: u32,
    io_unreadable: u32,
    cfg: Config,
)
    requires
        kbps.under(double::rounded(cfg.dl_io_kbps as nat, 1)),
        conns < cfg.dl_tcp_conns || kbps.under(double::rounded(5, 1)),
        conns < cfg.dl_tcp_conns || io_unreadable == 0 || !kbps.is_zero(),
    ensures
        !dl::busy((DlRead { kbps, conns, io_unreadable }), cfg),
{
}

/// More connections never turn a busy program idle.
pub proof fn law_more_connections_keep_a_program_busy(r: DlRead, more: u32, cfg: Config)
    requires
        dl::busy(r, cfg),
        more >= r.conns,
    ensures
        dl::busy((DlRead { conns: more, ..r }), cfg),
{
}

/// A higher rate never turns a busy program idle, where all of its processes can be read.
pub proof fn law_a_higher_rate_keeps_a_program_busy(r: DlRead, faster: Double, cfg: Config)
    requires
        dl::busy(r, cfg),
        r.io_unreadable == 0,
        !faster.under(r.kbps),
    ensures
        dl::busy((DlRead { kbps: faster, ..r }), cfg),
{
    if !r.kbps.under(double::rounded(cfg.dl_io_kbps as nat, 1)) {
        double_laws::law_order_is_transitive(
            double::rounded(cfg.dl_io_kbps as nat, 1),
            r.kbps,
            faster,
        );
    } else {
        double_laws::law_order_is_transitive(double::rounded(5, 1), r.kbps, faster);
    }
}

// ───────────────────────── the reasons ─────────────────────────

/// Every program that is busy gives one reason, with its rate and its connections, and no
/// other does.
pub proof fn law_every_busy_downloader_is_told(last: Seq<(Seq<char>, DlRead)>, cfg: Config)
    ensures
        told::one_each(
            last,
            |row: (Seq<char>, DlRead)| dl::busy(row.1, cfg),
            |row: (Seq<char>, DlRead)|
                (
                    "dl"@,
                    row.0 + " io="@ + row.1.kbps.text(0) + "KB/s tcp="@ + text::dec(
                        row.1.conns as nat,
                    ),
                ),
            dl::reasons(last, cfg, last.len()),
        ),
{
    let counts = |row: (Seq<char>, DlRead)| dl::busy(row.1, cfg);
    let say = |row: (Seq<char>, DlRead)|
        (
            "dl"@,
            row.0 + " io="@ + row.1.kbps.text(0) + "KB/s tcp="@ + text::dec(row.1.conns as nat),
        );
    lemma_reasons(last, cfg, counts, say, last.len());
    told::lemma_one_each(last, counts, say);
}

proof fn lemma_reasons(
    last: Seq<(Seq<char>, DlRead)>,
    cfg: Config,
    counts: spec_fn((Seq<char>, DlRead)) -> bool,
    say: spec_fn((Seq<char>, DlRead)) -> (Seq<char>, Seq<char>),
    n: nat,
)
    requires
        n <= last.len(),
        forall|row: (Seq<char>, DlRead)| #[trigger] counts(row) == dl::busy(row.1, cfg),
        forall|row: (Seq<char>, DlRead)| #[trigger] say(row) == ("dl"@, dl::detail(row.0, row.1)),
    ensures
        dl::reasons(last, cfg, n) == told::told(last, counts, say, n),
    decreases n,
{
    if n > 0 {
        lemma_reasons(last, cfg, counts, say, (n - 1) as nat);
    }
}

// ───────────────────────── what a program does ─────────────────────────

/// A process that can be read adds its rate, once that can be told, and its connections; it
/// leaves the unreadable ones as many as they were.
pub proof fn law_readable_processes_add_their_rate(
    e: DlRead,
    meters: Map<u32, RateMeter>,
    conns: u32,
    pid: u32,
    read: u64,
    written: u64,
    old: u64,
    at: u64,
    now: u64,
)
    requires
        meters.contains_key(pid),
        meters[pid].prev == Some((old, at)),
        e.conns + conns <= u32::MAX,
        read + written <= u64::MAX,
    ensures
        ({
            let gained = if read + written >= old {
                (read + written - old) as nat
            } else {
                0
            };
            let r = dl::with_process(
                e,
                meters,
                conns,
                (IoReading { pid, bytes: Some((read, written)), at: now }),
            );
            &&& detect::elapsed(at, now) > 50_000_000 ==> r.kbps == e.kbps.sum(
                double::rounded(gained, 1).share(double::seconds(detect::elapsed(at, now) as u64)).share(
                    double::rounded(1024, 1),
                ),
            )
            &&& detect::elapsed(at, now) <= 50_000_000 ==> r.kbps == e.kbps
            &&& r.conns == e.conns + conns
            &&& r.io_unreadable == e.io_unreadable
        }),
{
}

/// A process that is read for the first time has no rate yet, and one that cannot be read
/// is counted as such; both bring their connections, and neither changes the rate.
pub proof fn law_processes_without_a_rate(
    e: DlRead,
    meters: Map<u32, RateMeter>,
    conns: u32,
    reading: IoReading,
)
    requires
        reading.bytes is None || !meters.contains_key(reading.pid),
        e.conns + conns <= u32::MAX,
        e.io_unreadable < u32::MAX,
    ensures
        ({
            let r = dl::with_process(e, meters, conns, reading);
            &&& r.kbps == e.kbps
            &&& r.conns == e.conns + conns
            &&& reading.bytes is None ==> r.io_unreadable == e.io_unreadable + 1
            &&& reading.bytes is Some ==> r.io_unreadable == e.io_unreadable
        }),
{
}

/// A reading is kept for the next round, one that failed changes nothing, and other
/// processes keep theirs.
pub proof fn law_readings_are_kept(
    meters: Map<u32, RateMeter>,
    pid: u32,
    read: u64,
    written: u64,
    now: u64,
    other: u32,
)
    requires
        read + written <= u64::MAX,
        other != pid,
    ensures
        ({
            let m = dl::meters_after(
                meters,
                (IoReading { pid, bytes: Some((read, written)), at: now }),
            );
            &&& m.contains_key(pid)
            &&& m[pid].prev == Some(((read + written) as u64, now))
            &&& m.contains_key(other) == meters.contains_key(other)
            &&& meters.contains_key(other) ==> m[other] == meters[other]
        }),
        dl::meters_after(meters, (IoReading { pid, bytes: None, at: now })) == meters,
{
}

/// Every watched process is added to the program of its name and to no other.
pub proof fn law_each_process_adds_to_its_program(
    start: DlState,
    rows: Seq<(u32, Seq<char>)>,
    conns: Map<u32, u32>,
    readings: Seq<IoReading>,
    n: nat,
    other: Seq<char>,
)
    requires
        n < rows.len(),
        start.last == Seq::<(Seq<char>, DlRead)>::empty(),
        other != rows[n as int].1,
    ensures
        ({
            let s = dl::surveyed(start, rows, conns, readings, n);
            let t = dl::surveyed(start, rows, conns, readings, n + 1);
            let (pid, name) = rows[n as int];
            let none = DlRead { kbps: double::nothing(), conns: 0, io_unreadable: 0 };
            let own = if conns.contains_key(pid) {
                conns[pid]
            } else {
                0
            };
            &&& tally::sorted(t.last)
            &&& tally::value_of(t.last, name, none) == dl::with_process(
                tally::value_of(s.last, name, none),
                s.meters,
                own,
                dl::reading_of(readings, pid),
            )
            &&& tally::value_of(t.last, other, none) == tally::value_of(s.last, other, none)
            &&& t.meters == dl::meters_after(s.meters, dl::reading_of(readings, pid))
        }),
{
    lemma_surveyed_sorted(start, rows, conns, readings, n);
    let s = dl::surveyed(start, rows, conns, readings, n);
    let t = dl::surveyed(start, rows, conns, readings, n + 1);
    let (pid, name) = rows[n as int];
    let none = DlRead { kbps: double::nothing(), conns: 0, io_unreadable: 0 };
    let v = dl::with_process(
        tally::value_of(s.last, name, dl::nothing_read()),
        s.meters,
        dl::count_of(conns, pid),
        dl::reading_of(readings, pid),
    );
    assert(t.last == tally::stored(s.last, name, v));
    tally::law_storing_keeps_order(s.last, name, v);
    tally::law_storing_changes_one_name(s.last, name, v, other, none);
}

proof fn lemma_surveyed_sorted(
    start: DlState,
    rows: Seq<(u32, Seq<char>)>,
    conns: Map<u32, u32>,
    readings: Seq<IoReading>,
    n: nat,
)
    requires
        start.last == Seq::<(Seq<char>, DlRead)>::empty(),
    ensures
        tally::sorted(dl::surveyed(start, rows, conns, readings, n).last),
    decreases n,
{
    if n > 0 {
        let p = (n - 1) as nat;
        lemma_surveyed_sorted(start, rows, conns, readings, p);
        let s = dl::surveyed(start, rows, conns, readings, p);
        let (pid, name) = rows[n - 1];
        let v = dl::with_process(
            tally::value_of(s.last, name, dl::nothing_read()),
            s.meters,
            dl::count_of(conns, pid),
            dl::reading_of(readings, pid),
        );
        tally::law_storing_keeps_order(s.last, name, v);
    }
}

/// The reading of a process is the first with its id; without one it counts as unreadable.
pub proof fn law_the_first_reading_counts(readings: Seq<IoReading>, pid: u32, i: int)
    requires
        0 <= i <= readings.len(),
        forall|j: int| 0 <= j < i ==> (#[trigger] readings[j]).pid != pid,
        i < readings.len() ==> readings[i].pid == pid,
    ensures
        i < readings.len() ==> dl::reading_of(readings, pid) == readings[i],
        i == readings.len() ==> dl::reading_of(readings, pid).bytes is None,
    decreases i,
{
    if i > 0 {
        assert(readings[0].pid != pid);
        let rest = readings.drop_first();
        assert forall|j: int| 0 <= j < i - 1 implies (#[trigger] rest[j]).pid != pid by {
            assert(rest[j] == readings[j + 1]);
        }
        law_the_first_reading_counts(rest, pid, i - 1);
    }
}

proof fn lemma_lone(
    start: DlState,
    rows: Seq<(u32, Seq<char>)>,
    conns: Map<u32, u32>,
    readings: Seq<IoReading>,
    k: int,
    n: nat,
)
    requires
        0 <= k < rows.len(),
        n <= rows.len(),
        start.last == Seq::<(Seq<char>, DlRead)>::empty(),
        forall|j: int|
            0 <= j < rows.len() && j != k ==> (#[trigger] rows[j]).0 != rows[k].0 && rows[j].1
                != rows[k].1,
    ensures
        ({
            let s = dl::surveyed(start, rows, conns, readings, n);
            let (pid, name) = rows[k];
            let reading = dl::reading_of(readings, pid);
            &&& tally::sorted(s.last)
            &&& n <= k ==> dl::prev_of(s.meters, pid) == dl::prev_of(start.meters, pid)
            &&& n <= k ==> forall|i: int| 0 <= i < s.last.len() ==> (#[trigger] s.last[i]).0 != name
            &&& n > k ==> s.last.contains(
                (
                    name,
                    dl::with_process(
                        dl::nothing_read(),
                        start.meters,
                        dl::count_of(conns, pid),
                        reading,
                    ),
                ),
            )
        }),
    decreases n,
{
    lemma_surveyed_sorted(start, rows, conns, readings, n);
    if n > 0 {
        let p = (n - 1) as nat;
        lemma_lone(start, rows, conns, readings, k, p);
        let s = dl::surveyed(start, rows, conns, readings, p);
        let t = dl::surveyed(start, rows, conns, readings, n);
        let (pid, name) = rows[n - 1];
        let reading = dl::reading_of(readings, pid);
        lemma_reading_pid(readings, pid);
        lemma_reading_pid(readings, rows[k].0);
        lemma_surveyed_sorted(start, rows, conns, readings, p);
        let v = dl::with_process(
            tally::value_of(s.last, name, dl::nothing_read()),
            s.meters,
            dl::count_of(conns, pid),
            reading,
        );
        tally::law_storing_keeps_order(s.last, name, v);
        assert(t.last == tally::stored(s.last, name, v));
        if n - 1 == k {
            tally::law_rows_are_found_by_name(s.last, name, dl::nothing_read());
        } else if n - 1 < k {
            assert forall|i: int| 0 <= i < t.last.len() implies (#[trigger] t.last[i]).0
                != rows[k].1 by {
                if t.last[i] != (name, v) {
                    let j = choose|j: int| 0 <= j < s.last.len() && s.last[j] == t.last[i];
                    assert(s.last[j].0 != rows[k].1);
                }
            }
        } else {
            let row = (
                rows[k].1,
                dl::with_process(
                    dl::nothing_read(),
                    start.meters,
                    dl::count_of(conns, rows[k].0),
                    dl::reading_of(readings, rows[k].0),
                ),
            );
            let j = choose|j: int| 0 <= j < s.last.len() && s.last[j] == row;
            assert(s.last[j].0 != name);
            assert(t.last.contains(s.last[j]));
        }
    }
}

proof fn lemma_reading_pid(readings: Seq<IoReading>, pid: u32)
    ensures
        dl::reading_of(readings, pid).pid == pid,
    decreases readings.len(),
{
    if readings.len() > 0 {
        lemma_reading_pid(readings.drop_first(), pid);
    }
}

/// A round tells of a program with one process what that process has done since the round
/// before: it is among what the round knows, with its rate and its connections.
pub proof fn law_a_round_measures_a_program(
    old: DlState,
    cfg: Config,
    rows: Seq<(u32, Seq<char>)>,
    conns: Map<u32, u32>,
    readings: Seq<IoReading>,
    k: int,
)
    requires
        cfg.dl_enabled,
        ({
            let w = detect::listed_rows(rows, text::views(cfg.dl_processes@));
            0 <= k < w.len() && forall|j: int|
                0 <= j < w.len() && j != k ==> (#[trigger] w[j]).0 != w[k].0 && w[j].1 != w[k].1
        }),
    ensures
        ({
            let (pid, name) = detect::listed_rows(rows, text::views(cfg.dl_processes@))[k];
            let none = DlRead { kbps: double::nothing(), conns: 0, io_unreadable: 0 };
            let own = if conns.contains_key(pid) {
                conns[pid]
            } else {
                0
            };
            dl::after_tick(old, cfg, rows, conns, readings).last.contains(
                (name, dl::with_process(none, old.meters, own, dl::reading_of(readings, pid))),
            )
        }),
{
    let w = detect::listed_rows(rows, text::views(cfg.dl_processes@));
    let start = DlState { meters: old.meters, last: Seq::empty() };
    lemma_lone(start, w, conns, readings, k, w.len());
}

/// A disabled detector, and one whose programs do not run, knows nothing.
pub proof fn law_nothing_watched_is_nothing_known(
    old: DlState,
    cfg: Config,
    rows: Seq<(u32, Seq<char>)>,
    conns: Map<u32, u32>,
    readings: Seq<IoReading>,
)
    requires
        !cfg.dl_enabled || detect::listed_rows(rows, text::views(cfg.dl_processes@)).len() == 0,
    ensures
        dl::after_tick(old, cfg, rows, conns, readings).last.len() == 0,
        dl::after_tick(old, cfg, rows, conns, readings).meters == Map::<u32, RateMeter>::empty(),
        dl::reasons(
            dl::after_tick(old, cfg, rows, conns, readings).last,
            cfg,
            dl::after_tick(old, cfg, rows, conns, readings).last.len(),
        ).len() == 0,
{
}

// ───────────────────────── connections ─────────────────────────

/// The rows of a table that are established connections of a process, among the first `n`.
pub open spec fn established_rows(
    words: Seq<u32>,
    width: int,
    state: int,
    at: int,
    pid: u32,
    n: nat,
) -> Set<int> {
    Set::new(
        |i: int|
            0 <= i < n && words[1 + i * width + state] == 5 && words[1 + i * width + at] == pid,
    )
}

proof fn lemma_counted(
    m: Map<u32, u32>,
    words: Seq<u32>,
    l: dl::RowLayout,
    pid: u32,
    n: nat,
)
    requires
        dl::count_of(m, pid) + n <= u32::MAX,
    ensures
        ({
            let rows = established_rows(
                words,
                l.width as int,
                l.state as int,
                l.pid as int,
                pid,
                n,
            );
            &&& rows.finite()
            &&& rows.len() <= n
            &&& dl::count_of(dl::counted(m, words, l, n), pid) == dl::count_of(m, pid) + rows.len()
        }),
    decreases n,
{
    let (w, st, at) = (l.width as int, l.state as int, l.pid as int);
    let rows = established_rows(words, w, st, at, pid, n);
    if n == 0 {
        assert(rows =~= Set::<int>::empty());
    } else {
        let p = (n - 1) as nat;
        lemma_counted(m, words, l, pid, p);
        let before = established_rows(words, w, st, at, pid, p);
        if words[1 + p * w + st] == 5 && words[1 + p * w + at] == pid {
            assert(rows =~= before.insert(p as int));
        } else {
            assert(rows =~= before);
        }
    }
}

/// A process has as many connections as both tables have rows in the established state
/// with its id: rows of six words, with the state first and the id last, for IPv4, and of
/// fourteen, with both at the end, for IPv6.
pub proof fn law_connections_are_the_established_rows(
    v4: Seq<u32>,
    v6: Seq<u32>,
    a: nat,
    b: nat,
    pid: u32,
)
    requires
        v4.len() == 1 + 6 * a,
        v6.len() == 1 + 14 * b,
        v4[0] == a,
        v6[0] == b,
        a + b <= u32::MAX,
    ensures
        dl::count_of(dl::established(Some(v4), Some(v6)), pid) == established_rows(
            v4,
            6,
            0,
            5,
            pid,
            a,
        ).len() + established_rows(v6, 14, 12, 13, pid, b).len(),
{
    assert((v4.len() - 1) / 6 == a);
    assert((v6.len() - 1) / 14 == b);
    let m = Map::<u32, u32>::empty();
    lemma_counted(m, v4, dl::v4_layout(), pid, a);
    let four = dl::counted(m, v4, dl::v4_layout(), a);
    assert(dl::row_count(v4, dl::v4_layout()) == a);
    assert(dl::row_count(v6, dl::v6_layout()) == b);
    lemma_counted(four, v6, dl::v6_layout(), pid, b);
}

/// A table that could not be had adds no connection, and one that is cut short is read as
/// far as it goes.
pub proof fn law_tables_are_read_as_far_as_they_go(
    m: Map<u32, u32>,
    words: Seq<u32>,
    l: dl::RowLayout,
)
    requires
        l.width > 0,
    ensures
        dl::table_counted(m, None, l) == m,
        dl::row_count(words, l) * l.width <= words.len(),
        words.len() > 0 ==> dl::row_count(words, l) <= words[0],
        words.len() > 0 ==> dl::row_count(words, l) == words[0] || words.len() - 1 < (dl::row_count(
            words,
            l,
        ) + 1) * l.width,
        words.len() > 0 ==> 1 + dl::row_count(words, l) * l.width <= words.len(),
{
    if words.len() > 0 {
        let fits = (words.len() - 1) / l.width as int;
        let n = words.len() - 1;
        vstd::arithmetic::div_mod::lemma_remainder_upper(n, l.width as int);
        assert((fits + 1) * l.width == fits * l.width + l.width) by (nonlinear_arith);
        assert(fits >= 0 && fits * l.width <= words.len() - 1) by (nonlinear_arith)
            requires
                fits == (words.len() - 1) / l.width as int,
                l.width > 0,
                words.len() > 0,
        ;
        let n = dl::row_count(words, l);
        assert(n * l.width <= fits * l.width) by (nonlinear_arith)
            requires
                n <= fits,
                l.width > 0,
        ;
    } else {
        assert(0 * l.width == 0) by (nonlinear_arith);
    }
}

/// A round looks at every watched process in turn, from nothing on, and keeps the readings
/// of those that it watches and no others.
pub proof fn law_a_round_looks_at_every_process(
    old: DlState,
    cfg: Config,
    rows: Seq<(u32, Seq<char>)>,
    conns: Map<u32, u32>,
    readings: Seq<IoReading>,
    pid: u32,
)
    requires
        cfg.dl_enabled,
    ensures
        ({
            let w = detect::listed_rows(rows, text::views(cfg.dl_processes@));
            let start = DlState { meters: old.meters, last: Seq::empty() };
            let s = dl::surveyed(start, w, conns, readings, w.len());
            let t = dl::after_tick(old, cfg, rows, conns, readings);
            &&& t.last == s.last
            &&& t.meters.contains_key(pid) <==> s.meters.contains_key(pid) && exists|i: int|
                0 <= i < w.len() && (#[trigger] w[i]).0 == pid
            &&& t.meters.contains_key(pid) ==> t.meters[pid] == s.meters[pid]
        }),
{
}

} // verus!
