//! What holds of the hint files.
use vstd::prelude::*;

use crate::config::Config;
use crate::detect::hint;
use crate::detect::hint::{HintFile, HintView};
use crate::detect::told;
use crate::text;

verus! {

/// A file is a hint where its name is something followed by `.hint`.
pub proof fn law_hints_are_named_so(stem: Seq<char>, name: Seq<char>)
    ensures
        stem.len() > 0 ==> hint::is_hint(stem + seq!['.', 'h', 'i', 'n', 't']),
        hint::is_hint(name) ==> name.len() > 5 && name == name.take(name.len() - 5) + seq![
            '.',
            'h',
            'i',
            'n',
            't',
        ],
{
    let end = seq!['.', 'h', 'i', 'n', 't'];
    let all = stem + end;
    assert(all.skip(all.len() - 5) == end);
    if hint::is_hint(name) {
        let s = name.take(name.len() - 5);
        assert(s + end == s + name.skip(name.len() - 5));
        assert(s + end =~= name);
    }
}

/// A hint is fresh for its time to live after it was modified, to the tick, and not from
/// then on; one that was modified after now is not fresh. Its age is in whole seconds.
pub proof fn law_hints_are_fresh_for_their_time_to_live(now: u64, modified: u64, ttl_secs: u64)
    ensures
        modified <= now ==> {
            let (secs, fresh, future) = hint::age(now, modified, ttl_secs);
            &&& fresh <==> now - modified <= ttl_secs * 10_000_000
            &&& !future
            &&& secs * 10_000_000 <= now - modified < (secs + 1) * 10_000_000
        },
        modified > now ==> hint::age(now, modified, ttl_secs) == (0u64, false, true),
{
}

/// Every fresh hint gives one reason, with its note where it has one, and no other does.
pub proof fn law_every_fresh_hint_is_told(last: Seq<HintView>)
    ensures
        told::one_each(
            last,
            |h: HintView| h.fresh,
            |h: HintView|
                (
                    "hint"@,
                    if h.note.len() > 0 {
                        h.name + "("@ + h.note + ")"@
                    } else {
                        h.name
                    },
                ),
            hint::reasons(last, last.len()),
        ),
{
    let counts = |h: HintView| h.fresh;
    let say = |h: HintView|
        (
            "hint"@,
            if h.note.len() > 0 {
                h.name + "("@ + h.note + ")"@
            } else {
                h.name
            },
        );
    lemma_reasons(last, counts, say, last.len());
    told::lemma_one_each(last, counts, say);
}

proof fn lemma_reasons(
    last: Seq<HintView>,
    counts: spec_fn(HintView) -> bool,
    say: spec_fn(HintView) -> (Seq<char>, Seq<char>),
    n: nat,
)
    requires
        n <= last.len(),
        forall|h: HintView| #[trigger] counts(h) == h.fresh,
        forall|h: HintView| #[trigger] say(h) == ("hint"@, hint::detail(h)),
    ensures
        hint::reasons(last, n) == told::told(last, counts, say, n),
    decreases n,
{
    if n > 0 {
        lemma_reasons(last, counts, say, (n - 1) as nat);
    }
}

proof fn lemma_hints_prefix(files: Seq<HintFile>, file: HintFile, now: u64, ttl: u64, n: nat)
    requires
        n <= files.len(),
    ensures
        hint::hints(files.push(file), now, ttl, n) == hint::hints(files, now, ttl, n),
    decreases n,
{
    if n > 0 {
        lemma_hints_prefix(files, file, now, ttl, (n - 1) as nat);
        assert(files.push(file)[n - 1] == files[n - 1]);
    }
}

/// A round shows each hint whose age is known, with its name, its note and its age, in the
/// order of the listing, and no other file.
pub proof fn law_each_hint_is_shown(cfg: Config, files: Seq<HintFile>, file: HintFile, now: u64)
    requires
        cfg.hint_enabled,
    ensures
        ({
            let before = hint::after_tick(cfg, files, now);
            let after = hint::after_tick(cfg, files.push(file), now);
            let shown = hint::is_hint(file.name@) && file.modified is Some;
            let (secs, fresh, future) = hint::age(now, file.modified->0, cfg.hint_ttl_secs);
            &&& shown ==> after == before.push(
                (HintView {
                    name: file.name@,
                    note: hint::note(hint::content_view(file.content)),
                    age_secs: secs,
                    future,
                    fresh,
                }),
            )
            &&& !shown ==> after == before
        }),
        hint::after_tick(cfg, Seq::empty(), now).len() == 0,
{
    lemma_hints_prefix(files, file, now, cfg.hint_ttl_secs, files.len());
    assert(files.push(file)[files.len() as int] == file);
}

/// A file that was touched within the time to live keeps the machine awake, wherever it
/// stands in the directory.
pub proof fn law_a_touched_hint_is_told(cfg: Config, files: Seq<HintFile>, now: u64, i: int)
    requires
        cfg.hint_enabled,
        0 <= i < files.len(),
        hint::is_hint(files[i].name@),
        files[i].modified is Some,
        files[i].modified->0 <= now,
        now - files[i].modified->0 <= cfg.hint_ttl_secs * 10_000_000,
    ensures
        ({
            let last = hint::after_tick(cfg, files, now);
            let note = hint::note(hint::content_view(files[i].content));
            let told = hint::reasons(last, last.len());
            &&& note.len() == 0 ==> told.contains(("hint"@, files[i].name@))
            &&& note.len() > 0 ==> told.contains(("hint"@, files[i].name@ + "("@ + note + ")"@))
        }),
{
    let last = hint::after_tick(cfg, files, now);
    let k = lemma_shown(files, now, cfg.hint_ttl_secs, files.len(), i);
    law_every_fresh_hint_is_told(last);
    let counts = |h: HintView| h.fresh;
    assert(counts(last[k]));
}

proof fn lemma_shown(files: Seq<HintFile>, now: u64, ttl: u64, n: nat, i: int) -> (k: int)
    requires
        0 <= i < n <= files.len(),
        hint::is_hint(files[i].name@),
        files[i].modified is Some,
    ensures
        0 <= k < hint::hints(files, now, ttl, n).len(),
        Some(hint::hints(files, now, ttl, n)[k]) == hint::hint_of(files[i], now, ttl),
    decreases n,
{
    let before = hint::hints(files, now, ttl, (n - 1) as nat);
    if i == n - 1 {
        before.len() as int
    } else {
        lemma_shown(files, now, ttl, (n - 1) as nat, i)
    }
}

/// Without a file that is a fresh hint there is no reason, and a disabled detector has
/// none.
pub proof fn law_without_a_fresh_hint_nothing_is_told(
    cfg: Config,
    files: Seq<HintFile>,
    now: u64,
)
    requires
        !cfg.hint_enabled || forall|i: int|
            0 <= i < files.len() ==> !hint::is_hint((#[trigger] files[i]).name@)
                || files[i].modified is None || files[i].modified->0 > now || now
                - files[i].modified->0 > cfg.hint_ttl_secs * 10_000_000,
    ensures
        ({
            let last = hint::after_tick(cfg, files, now);
            hint::reasons(last, last.len()).len() == 0
        }),
{
    let last = hint::after_tick(cfg, files, now);
    if cfg.hint_enabled {
        lemma_none_fresh(files, now, cfg.hint_ttl_secs, files.len());
    }
    lemma_none_told(last, last.len());
}

proof fn lemma_none_fresh(files: Seq<HintFile>, now: u64, ttl: u64, n: nat)
    requires
        n <= files.len(),
        forall|i: int|
            0 <= i < files.len() ==> !hint::is_hint((#[trigger] files[i]).name@)
                || files[i].modified is None || files[i].modified->0 > now || now
                - files[i].modified->0 > ttl * 10_000_000,
    ensures
        forall|k: int|
            0 <= k < hint::hints(files, now, ttl, n).len() ==> !(#[trigger] hint::hints(
                files,
                now,
                ttl,
                n,
            )[k]).fresh,
    decreases n,
{
    if n > 0 {
        lemma_none_fresh(files, now, ttl, (n - 1) as nat);
        let f = files[n - 1];
        let before = hint::hints(files, now, ttl, (n - 1) as nat);
        let after = hint::hints(files, now, ttl, n);
        assert forall|k: int| 0 <= k < after.len() implies !(#[trigger] after[k]).fresh by {
            if k < before.len() {
                assert(after[k] == before[k]);
            }
        }
    }
}

proof fn lemma_none_told(last: Seq<HintView>, n: nat)
    requires
        n <= last.len(),
        forall|k: int| 0 <= k < last.len() ==> !(#[trigger] last[k]).fresh,
    ensures
        hint::reasons(last, n).len() == 0,
    decreases n,
{
    if n > 0 {
        lemma_none_told(last, (n - 1) as nat);
        assert(!last[n - 1].fresh);
    }
}

/// A first line that ends at a line feed or a carriage return is followed by nothing that
/// matters to the note.
pub proof fn law_the_note_is_the_first_line(line: Seq<u8>, end: u8, rest: Seq<u8>)
    requires
        forall|i: int| 0 <= i < line.len() ==> #[trigger] line[i] != 10 && line[i] != 13,
        end == 10 || end == 13,
    ensures
        hint::note(Some(line.push(end) + rest)) == hint::note(Some(line)),
        hint::note(Some(line)) == hint::noted(hint::utf8_lossy(line)),
        hint::note(None).len() == 0,
{
    let all = line.push(end) + rest;
    lemma_line_end(line, all);
    assert(all.take(line.len() as int) == line);
    lemma_line_end(line, line);
    assert(line.take(line.len() as int) == line);
}

proof fn lemma_line_end(line: Seq<u8>, all: Seq<u8>)
    requires
        forall|i: int| 0 <= i < line.len() ==> #[trigger] line[i] != 10 && line[i] != 13,
        line.len() <= all.len(),
        forall|i: int| 0 <= i < line.len() ==> #[trigger] all[i] == line[i],
        all.len() == line.len() || all[line.len() as int] == 10 || all[line.len() as int] == 13,
    ensures
        hint::line_end(all) == line.len(),
    decreases line.len(),
{
    if line.len() > 0 {
        assert(all[0] == line[0]);
        let (a, b) = (line.skip(1), all.skip(1));
        assert forall|i: int| 0 <= i < a.len() implies #[trigger] a[i] != 10 && a[i] != 13 by {
            assert(a[i] == line[i + 1]);
        }
        assert forall|i: int| 0 <= i < a.len() implies #[trigger] b[i] == a[i] by {
            assert(all[i + 1] == line[i + 1]);
        }
        lemma_line_end(a, b);
    }
}

/// A line that is short enough and has no white space around it is its own note.
pub proof fn law_short_lines_are_noted_whole(line: Seq<char>)
    requires
        text::utf8_length(line) <= 60,
        line.len() > 0 ==> !text::is_white(line.first()) && !text::is_white(line.last()),
    ensures
        hint::noted(line) == line,
{
    text::lemma_trim_start_unique(line, 0);
    assert(line.skip(0) == line);
    text::lemma_trim_end_unique(line, line.len() as int);
    assert(line.take(line.len() as int) == line);
}

/// A longer line is noted from its start, as far as sixty bytes go and no character is
/// torn.
pub proof fn law_long_lines_are_noted_from_their_start(line: Seq<char>, n: int)
    requires
        0 < n < line.len(),
        text::utf8_length(line.take(n)) <= 60,
        text::utf8_length(line.take(n + 1)) > 60,
        !text::is_white(line[0]),
        !text::is_white(line[n - 1]),
    ensures
        hint::noted(line) == line.take(n),
{
    text::lemma_clipped(line, 60, n);
    let s = line.take(n);
    text::lemma_trim_start_unique(s, 0);
    assert(s.skip(0) == s);
    text::lemma_trim_end_unique(s, n);
    assert(s.take(n) == s);
}

} // verus!
