//! What holds of the process table and of the meters that the detectors share.
use vstd::prelude::*;

use crate::detect;
use crate::detect::{CpuReading, CpuSample, ProcessTimes};
use crate::double;
use crate::double::Double;
use crate::text;

verus! {

/// Names match where each character of one is that of the other, or the same letter in
/// the other case.
pub proof fn law_names_match_in_any_case(a: Seq<char>, b: Seq<char>)
    ensures
        text::same_ignoring_case(a, b) <==> a.len() == b.len() && forall|i: int|
            #![trigger a[i], b[i]]
            0 <= i < a.len() ==> {
                ||| a[i] == b[i]
                ||| 'A' <= a[i] <= 'Z' && b[i] as u32 == a[i] as u32 + 32
                ||| 'A' <= b[i] <= 'Z' && a[i] as u32 == b[i] as u32 + 32
            },
{
    let (x, y) = (text::lower(a), text::lower(b));
    if x == y {
        assert(a.len() == x.len() && b.len() == y.len());
        assert forall|i: int|
            #![trigger a[i], b[i]]
            0 <= i < a.len() implies {
            ||| a[i] == b[i]
            ||| 'A' <= a[i] <= 'Z' && b[i] as u32 == a[i] as u32 + 32
            ||| 'A' <= b[i] <= 'Z' && a[i] as u32 == b[i] as u32 + 32
        } by {
            assert(x[i] == text::lower_char(a[i]) && y[i] == text::lower_char(b[i]));
        }
    }
    if a.len() == b.len() && (forall|i: int|
        #![trigger a[i], b[i]]
        0 <= i < a.len() ==> {
            ||| a[i] == b[i]
            ||| 'A' <= a[i] <= 'Z' && b[i] as u32 == a[i] as u32 + 32
            ||| 'A' <= b[i] <= 'Z' && a[i] as u32 == b[i] as u32 + 32
        }) {
        assert forall|i: int| 0 <= i < a.len() implies x[i] == y[i] by {
            assert(a[i] == a[i] && b[i] == b[i]);
        }
        assert(x =~= y);
    }
}

/// Going through a table, each process is watched where its name matches one of the list,
/// and left out where it matches none.
pub proof fn law_watched_are_those_in_the_list(
    rows: Seq<(u32, Seq<char>)>,
    names: Seq<Seq<char>>,
    next: (u32, Seq<char>),
)
    ensures
        detect::listed_rows(Seq::empty(), names) == Seq::<(u32, Seq<char>)>::empty(),
        (exists|i: int|
            0 <= i < names.len() && text::same_ignoring_case(#[trigger] names[i], next.1))
            ==> detect::listed_rows(rows.push(next), names) == detect::listed_rows(rows, names).push(
            next,
        ),
        (forall|i: int|
            0 <= i < names.len() ==> !text::same_ignoring_case(#[trigger] names[i], next.1))
            ==> detect::listed_rows(rows.push(next), names) == detect::listed_rows(rows, names),
{
    reveal(Seq::filter);
    assert(rows.push(next).drop_last() == rows);
    assert(rows.push(next).last() == next);
}

/// The name of a process is that of the first row with its id.
pub proof fn law_a_process_has_its_first_name(rows: Seq<(u32, Seq<char>)>, pid: u32, i: int)
    requires
        0 <= i < rows.len(),
        rows[i].0 == pid,
        forall|j: int| 0 <= j < i ==> (#[trigger] rows[j]).0 != pid,
    ensures
        detect::first_name(rows, pid) == Some(rows[i].1),
    decreases i,
{
    if i > 0 {
        assert(rows[0].0 != pid);
        let rest = rows.drop_first();
        assert forall|j: int| 0 <= j < i - 1 implies (#[trigger] rest[j]).0 != pid by {
            assert(rest[j] == rows[j + 1]);
        }
        law_a_process_has_its_first_name(rest, pid, i - 1);
    }
}

/// A process that is not in the table has no name.
pub proof fn law_a_stranger_has_no_name(rows: Seq<(u32, Seq<char>)>, pid: u32)
    requires
        forall|j: int| 0 <= j < rows.len() ==> (#[trigger] rows[j]).0 != pid,
    ensures
        detect::first_name(rows, pid) is None,
    decreases rows.len(),
{
    if rows.len() > 0 {
        assert(rows[0].0 != pid);
        let rest = rows.drop_first();
        assert forall|j: int| 0 <= j < rest.len() implies (#[trigger] rest[j]).0 != pid by {
            assert(rest[j] == rows[j + 1]);
        }
        law_a_stranger_has_no_name(rest, pid);
    }
}

/// A rate is what a counter has gained, divided by the seconds that have passed; a counter
/// that went back has gained nothing, and without an earlier state, or within the twentieth
/// of a second, there is no rate.
pub proof fn law_rates_are_gains_over_time(old: u64, at: u64, total: u64, now: u64)
    ensures
        ({
            let gained = if total >= old {
                (total - old) as nat
            } else {
                0
            };
            let rate = detect::rate_between(Some((old, at)), total, now);
            &&& detect::elapsed(at, now) > 50_000_000 ==> rate == Some(
                double::rounded(gained, 1).share(double::seconds(detect::elapsed(at, now) as u64)),
            )
            &&& detect::elapsed(at, now) <= 50_000_000 ==> rate is None
        }),
        detect::rate_between(None, total, now) is None,
{
}

/// The seconds that a process has run are the ticks of its two clocks by ten millions.
pub open spec fn run_seconds(times: ProcessTimes) -> Double {
    double::rounded((times.kernel + times.user) as nat, 1).share(double::rounded(10_000_000, 1))
}

/// Two readings of one process, far enough apart, tell its share of a core: the seconds
/// that it has run in between, divided by those that have passed, in percent. A process
/// that got the id of another, readings that are close together and a first reading tell
/// nothing.
pub proof fn law_two_readings_tell_the_use(
    cache: Map<u32, CpuSample>,
    pid: u32,
    first: ProcessTimes,
    at: u64,
    second: ProcessTimes,
    now: u64,
)
    ensures
        ({
            let a = CpuReading { pid, times: Some(first), at };
            let b = CpuReading { pid, times: Some(second), at: now };
            let seen = detect::cpu_seen(detect::cache_after(cache, a), b);
            &&& first.create == second.create && detect::elapsed(at, now) >= 300_000_000 ==> seen == Some(
                run_seconds(second).excess(run_seconds(first)).share(
                    double::seconds(detect::elapsed(at, now) as u64),
                ).product(100),
            )
            &&& first.create != second.create || detect::elapsed(at, now) < 300_000_000 ==> seen is None
            &&& !cache.contains_key(pid) ==> detect::cpu_seen(cache, a) is None
        }),
{
}

/// A process that cannot be read tells nothing and leaves what is known as it is, and the
/// readings of one process leave those of the others alone.
pub proof fn law_readings_concern_one_process(
    cache: Map<u32, CpuSample>,
    reading: CpuReading,
    other: u32,
)
    requires
        other != reading.pid,
    ensures
        reading.times is None ==> detect::cpu_seen(cache, reading) is None && detect::cache_after(
            cache,
            reading,
        ) == cache,
        detect::cache_after(cache, reading).contains_key(other) == cache.contains_key(other),
        cache.contains_key(other) ==> detect::cache_after(cache, reading)[other] == cache[other],
{
}

/// The text in a buffer is what stands before its first zero, and whole characters below
/// the surrogates stand for themselves.
pub proof fn law_wide_text_ends_at_a_zero(s: Seq<u16>, rest: Seq<u16>)
    requires
        forall|i: int| 0 <= i < s.len() ==> 0 < #[trigger] s[i] < 0xD800,
    ensures
        detect::wide_text(s.push(0) + rest) == Seq::new(s.len(), |i: int| s[i] as char),
        detect::wide_text(s) == Seq::new(s.len(), |i: int| s[i] as char),
{
    assert((s.push(0) + rest).take(s.len() as int) == s);
    assert(s.take(s.len() as int) == s);
    lemma_before_zero(s, s.push(0) + rest);
    lemma_before_zero(s, s);
    lemma_plain_utf16(s);
}

proof fn lemma_before_zero(s: Seq<u16>, all: Seq<u16>)
    requires
        forall|i: int| 0 <= i < s.len() ==> #[trigger] s[i] != 0,
        s.len() <= all.len(),
        all.take(s.len() as int) == s,
        all.len() == s.len() || all[s.len() as int] == 0,
    ensures
        detect::before_zero(all) == s.len(),
    decreases s.len(),
{
    if s.len() > 0 {
        assert(all[0] == s[0]);
        let (t, rest) = (s.skip(1), all.skip(1));
        assert forall|i: int| 0 <= i < t.len() implies #[trigger] t[i] != 0 by {
            assert(t[i] == s[i + 1]);
        }
        assert(rest.take(t.len() as int) == t);
        lemma_before_zero(t, rest);
    }
}

proof fn lemma_plain_utf16(s: Seq<u16>)
    requires
        forall|i: int| 0 <= i < s.len() ==> 0 < #[trigger] s[i] < 0xD800,
    ensures
        detect::utf16(s) == Seq::new(s.len(), |i: int| s[i] as char),
    decreases s.len(),
{
    let all = Seq::new(s.len(), |i: int| s[i] as char);
    if s.len() > 0 {
        let t = s.skip(1);
        assert(s[0] < 0xD800);
        assert forall|i: int| 0 <= i < t.len() implies 0 < #[trigger] t[i] < 0xD800 by {
            assert(t[i] == s[i + 1]);
        }
        lemma_plain_utf16(t);
        assert(all == seq![s[0] as char] + Seq::new(t.len(), |i: int| t[i] as char));
    } else {
        assert(all == Seq::<char>::empty());
    }
}

/// Time passes forward: a clock that has gone back has not moved.
pub proof fn law_time_passes_forward(from: u64, to: u64)
    ensures
        from <= to ==> detect::elapsed(from, to) == to - from,
        to <= from ==> detect::elapsed(from, to) == 0,
{
}

/// A pair of surrogates is one character, and one without its partner is replaced.
pub proof fn law_surrogates_go_in_pairs(high: u16, low: u16, u: u16, rest: Seq<u16>)
    requires
        0xD800 <= high < 0xDC00,
        0xDC00 <= low < 0xE000,
        !(0xDC00 <= u < 0xE000),
    ensures
        detect::utf16(seq![high, low] + rest) == seq![
            (0x1_0000 + (high - 0xD800) * 0x400 + (low - 0xDC00)) as char,
        ] + detect::utf16(rest),
        detect::utf16(seq![high, u] + rest) == seq!['\u{FFFD}'] + detect::utf16(
            seq![u] + rest,
        ),
        detect::utf16(seq![low] + rest) == seq!['\u{FFFD}'] + detect::utf16(rest),
        detect::utf16(seq![high]) == seq!['\u{FFFD}'],
{
    let a = seq![high, low] + rest;
    assert(a.skip(2) == rest);
    let b = seq![high, u] + rest;
    assert(b.skip(1) == seq![u] + rest);
    let c = seq![low] + rest;
    assert(c.skip(1) == rest);
    assert(seq![high].skip(1) == Seq::<u16>::empty());
    reveal_with_fuel(detect::utf16, 2);
}

} // verus!
