//! Hint files: any program that wants the machine awake keeps one fresh.
//!
//! A hint counts while it was modified within its time to live, so that a program that
//! has crashed does not keep the machine awake for ever. Times are those of file
//! systems: tenths of a microsecond of the wall clock, which can be set back.
use vstd::prelude::*;
use vstd::slice::slice_subrange;

use crate::config::Config;
use crate::detect;
use crate::detect::Reason;
use crate::text;

verus! {

/// How many units of a file time make a second.
pub const TICKS: u64 = 10_000_000;

/// A file in the directory of hints.
pub struct HintFile {
    pub name: String,
    /// When it was modified; nothing where that could not be read.
    pub modified: Option<u64>,
    /// What it holds; nothing where it could not be read.
    pub content: Option<Vec<u8>>,
}

/// One hint.
pub struct HintRead {
    pub name: String,
    pub note: String,
    pub age_secs: u64,
    /// Whether the file was modified after now: the clock was set back. It does not
    /// count, but is shown as what it is.
    pub future: bool,
    pub fresh: bool,
}

/// One hint, with texts as character sequences.
pub struct HintView {
    pub name: Seq<char>,
    pub note: Seq<char>,
    pub age_secs: u64,
    pub future: bool,
    pub fresh: bool,
}

impl HintRead {
    pub open spec fn seen(self) -> HintView {
        HintView {
            name: self.name@,
            note: self.note@,
            age_secs: self.age_secs,
            future: self.future,
            fresh: self.fresh,
        }
    }
}

pub open spec fn seen_all(v: Seq<HintRead>) -> Seq<HintView> {
    Seq::new(v.len(), |i: int| v[i].seen())
}

/// Whether a file name has the extension `hint`, and something before it.
pub open spec fn is_hint(name: Seq<char>) -> bool {
    name.len() > 5 && name.skip(name.len() - 5) == seq!['.', 'h', 'i', 'n', 't']
}

pub fn is_hint_name(name: &str) -> (r: bool)
    ensures
        r == is_hint(name@),
{
    let c = text::chars_of(name);
    let n: usize = c.len();
    let r = n > 5 && c[n - 5] == '.' && c[n - 4] == 'h' && c[n - 3] == 'i' && c[n - 2] == 'n' && c[n
        - 1] == 't';
    proof {
        if n > 5 {
            let tail = name@.skip(n - 5);
            if r {
                assert(tail == seq!['.', 'h', 'i', 'n', 't']);
            } else {
                assert(tail[0] == c@[n - 5] && tail[1] == c@[n - 4] && tail[2] == c@[n - 3]
                    && tail[3] == c@[n - 2] && tail[4] == c@[n - 1]);
            }
        }
    }
    r
}

// ───────────────────────── notes ─────────────────────────

/// The most bytes that a note takes.
pub const NOTE_LIMIT: u32 = 60;

/// The length of the first line.
pub open spec fn line_end(bytes: Seq<u8>) -> int
    decreases bytes.len(),
{
    if bytes.len() == 0 || bytes[0] == 10 || bytes[0] == 13 {
        0
    } else {
        1 + line_end(bytes.skip(1))
    }
}

/// What `String::from_utf8_lossy` makes of bytes.
pub uninterp spec fn utf8_lossy(bytes: Seq<u8>) -> Seq<char>;

/// `String::from_utf8_lossy` of the standard library: the bytes as text, with what is not
/// UTF-8 replaced. Bytes that are UTF-8 become the text that they encode. How much of
/// anything else one replacement character stands for is not stated.
#[verifier::external_body]
fn from_utf8_lossy(bytes: &[u8]) -> (r: String)
    ensures
        r@ == utf8_lossy(bytes@),
        vstd::utf8::valid_utf8(bytes@) ==> r@ == vstd::utf8::decode_utf8(bytes@),
{
    String::from_utf8_lossy(bytes).into_owned()
}

/// The part of a file that its note is made of: the first line.
pub fn note_bytes(bytes: &[u8]) -> (r: &[u8])
    ensures
        r@ == bytes@.take(line_end(bytes@)),
{
    let mut n: usize = 0;
    assert(bytes@.skip(0) == bytes@);
    while n < bytes.len() && bytes[n] != 10 && bytes[n] != 13
        invariant
            n <= bytes@.len(),
            line_end(bytes@) == n + line_end(bytes@.skip(n as int)),
        decreases bytes@.len() - n,
    {
        assert(bytes@.skip(n as int).skip(1) == bytes@.skip(n + 1));
        n = n + 1;
    }
    assert(bytes@.take(n as int) == bytes@.subrange(0, n as int));
    slice_subrange(bytes, 0, n)
}

/// The note of a line: as many whole characters as fit, without white space around them.
pub open spec fn noted(line: Seq<char>) -> Seq<char> {
    text::trim(text::clipped(line, NOTE_LIMIT as nat))
}

pub fn note_of(line: &str) -> (r: String)
    ensures
        r@ == noted(line@),
        vstd::utf8::encode_utf8(r@).len() <= NOTE_LIMIT,
{
    let chars = text::chars_of(line);
    let head = text::clip(chars.as_slice(), NOTE_LIMIT);
    let r = text::string_of(text::trimmed(head));
    proof {
        text::lemma_trim_shortens(head@);
        text::lemma_utf8_length(r@);
    }
    r
}

/// The note of a file; an unreadable one has none.
pub open spec fn note(content: Option<Seq<u8>>) -> Seq<char> {
    match content {
        Some(bytes) => noted(utf8_lossy(bytes.take(line_end(bytes)))),
        None => Seq::empty(),
    }
}

pub open spec fn content_view(content: Option<Vec<u8>>) -> Option<Seq<u8>> {
    match content {
        Some(bytes) => Some(bytes@),
        None => None,
    }
}

/// The note of a file: its first line, cut to 60 bytes so that a long file does not
/// fill the tooltip. The cut is made in the text, so that no character is cut in two.
pub fn read_note(content: &Option<Vec<u8>>) -> (r: String)
    ensures
        r@ == note(content_view(*content)),
        vstd::utf8::encode_utf8(r@).len() <= NOTE_LIMIT,
        match content_view(*content) {
            Some(bytes) => vstd::utf8::valid_utf8(bytes.take(line_end(bytes))) ==> r@ == noted(
                vstd::utf8::decode_utf8(bytes.take(line_end(bytes))),
            ),
            None => true,
        },
{
    match content {
        Some(bytes) => note_of(from_utf8_lossy(note_bytes(bytes.as_slice())).as_str()),
        None => {
            let r = String::new();
            assert(r@ == Seq::<char>::empty());
            r
        },
    }
}

// ───────────────────────── age ─────────────────────────

/// The age of a file in seconds, whether it is fresh, and whether it is from the
/// future. One from the future is not fresh: after the clock was set back every hint
/// would stay fresh for ever.
pub open spec fn age(now: u64, modified: u64, ttl_secs: u64) -> (u64, bool, bool) {
    if modified <= now {
        (
            ((now - modified) / TICKS as int) as u64,
            now - modified <= ttl_secs * TICKS,
            false,
        )
    } else {
        (0, false, true)
    }
}

pub fn classify(now: u64, modified: u64, ttl_secs: u64) -> (r: (u64, bool, bool))
    ensures
        r == age(now, modified, ttl_secs),
{
    if modified <= now {
        let ticks: u64 = now - modified;
        assert(ttl_secs * TICKS <= 0xFFFF_FFFF_FFFF_FFFF * TICKS) by (nonlinear_arith)
            requires
                0 <= ttl_secs <= 0xFFFF_FFFF_FFFF_FFFF,
                TICKS >= 0,
        ;
        (ticks / TICKS, ticks as u128 <= (ttl_secs as u128) * (TICKS as u128), false)
    } else {
        (0, false, true)
    }
}

/// A hint that is never touched again goes stale and stays so, while the clock goes on:
/// it is fresh for its time to live and no longer.
pub proof fn law_untouched_hints_go_stale(now: u64, later: u64, modified: u64, ttl_secs: u64)
    requires
        now <= later,
        !age(now, modified, ttl_secs).1,
        modified <= now,
    ensures
        !age(later, modified, ttl_secs).1,
{
}

/// A hint from the future is not fresh.
pub proof fn law_future_hints_do_not_count(now: u64, modified: u64, ttl_secs: u64)
    requires
        now < modified,
    ensures
        !age(now, modified, ttl_secs).1,
        age(now, modified, ttl_secs).2,
{
}

// ───────────────────────── the detector ─────────────────────────

/// What is shown of a file; nothing of one that is no hint or whose age is unknown.
pub open spec fn hint_of(file: HintFile, now: u64, ttl_secs: u64) -> Option<HintView> {
    if is_hint(file.name@) && file.modified is Some {
        let (age_secs, fresh, future) = age(now, file.modified->0, ttl_secs);
        Some(
            HintView {
                name: file.name@,
                note: note(content_view(file.content)),
                age_secs,
                future,
                fresh,
            },
        )
    } else {
        None
    }
}

/// The hints among the first `n` files.
pub open spec fn hints(files: Seq<HintFile>, now: u64, ttl_secs: u64, n: nat) -> Seq<HintView>
    decreases n,
{
    if n == 0 {
        Seq::empty()
    } else {
        let before = hints(files, now, ttl_secs, (n - 1) as nat);
        match hint_of(files[n - 1], now, ttl_secs) {
            Some(h) => before.push(h),
            None => before,
        }
    }
}

/// The files of a directory; one that could not be listed has none.
pub open spec fn files_of(listing: Option<Vec<HintFile>>) -> Seq<HintFile> {
    match listing {
        Some(files) => files@,
        None => Seq::empty(),
    }
}

/// What a detector knows after a round.
pub open spec fn after_tick(cfg: Config, files: Seq<HintFile>, now: u64) -> Seq<HintView> {
    if cfg.hint_enabled {
        hints(files, now, cfg.hint_ttl_secs, files.len())
    } else {
        Seq::empty()
    }
}

pub open spec fn detail(h: HintView) -> Seq<char> {
    if h.note.len() == 0 {
        h.name
    } else {
        h.name + "("@ + h.note + ")"@
    }
}

/// The reasons that the first `n` hints give: each fresh one is one.
pub open spec fn reasons(last: Seq<HintView>, n: nat) -> Seq<(Seq<char>, Seq<char>)>
    decreases n,
{
    if n == 0 {
        Seq::empty()
    } else {
        let before = reasons(last, (n - 1) as nat);
        if last[n - 1].fresh {
            before.push(("hint"@, detail(last[n - 1])))
        } else {
            before
        }
    }
}

pub open spec fn state_word(h: HintView) -> Seq<char> {
    if h.future {
        "FUTURE"@
    } else if h.fresh {
        "fresh "@
    } else {
        "STALE "@
    }
}

pub open spec fn status_row(h: HintView) -> Seq<char> {
    "    "@ + text::pad_right(h.name, 28) + " age="@ + text::pad_left(
        text::dec(h.age_secs as nat),
        ' ',
        4,
    ) + "s "@ + state_word(h) + " "@ + h.note
}

/// The lines that show the detector.
pub open spec fn status(cfg: Config, dir: Seq<char>, last: Seq<HintView>) -> Seq<Seq<char>> {
    let head = "  dir="@ + dir + "  ttl="@ + text::dec(cfg.hint_ttl_secs as nat) + "s"@;
    if !cfg.hint_enabled {
        seq!["  (disabled)"@]
    } else if last.len() == 0 {
        seq![head, "    (no hint files)"@]
    } else {
        seq![head] + Seq::new(last.len(), |i: int| status_row(last[i]))
    }
}

fn detail_string(h: &HintRead) -> (r: String)
    ensures
        r@ == detail(h.seen()),
{
    let mut r = h.name.as_str().to_owned();
    if h.note.as_str().unicode_len() > 0 {
        r.append("(");
        r.append(h.note.as_str());
        r.append(")");
    }
    r
}

fn row_string(h: &HintRead) -> (r: String)
    ensures
        r@ == status_row(h.seen()),
{
    let mut r = "    ".to_owned();
    text::push_right_padded(&mut r, h.name.as_str(), 28);
    r.append(" age=");
    text::push_left_padded(&mut r, text::dec_string(h.age_secs as u128).as_str(), ' ', 4);
    r.append("s ");
    if h.future {
        r.append("FUTURE");
    } else if h.fresh {
        r.append("fresh ");
    } else {
        r.append("STALE ");
    }
    r.append(" ");
    r.append(h.note.as_str());
    r
}

pub struct HintDetector {
    pub last: Vec<HintRead>,
}

impl HintDetector {
    pub open spec fn state(self) -> Seq<HintView> {
        seen_all(self.last@)
    }

    pub fn new() -> (d: HintDetector)
        ensures
            d.state() == Seq::<HintView>::empty(),
    {
        let d = HintDetector { last: Vec::new() };
        assert(d.state() == Seq::<HintView>::empty());
        d
    }

    /// A quick look is a round, as a round takes next to nothing.
    pub fn probe(&mut self, cfg: &Config, listing: &Option<Vec<HintFile>>, now: u64) -> (r: bool)
        ensures
            final(self).state() == after_tick(*cfg, files_of(*listing), now),
            r == (reasons(final(self).state(), final(self).state().len()).len() > 0),
    {
        let out = self.tick(cfg, listing, now);
        assert(detect::pairs(out@).len() == out@.len());
        out.len() > 0
    }

    /// One round over the files in the directory.
    pub fn tick(&mut self, cfg: &Config, listing: &Option<Vec<HintFile>>, now: u64) -> (out: Vec<
        Reason,
    >)
        ensures
            final(self).state() == after_tick(*cfg, files_of(*listing), now),
            detect::pairs(out@) == reasons(final(self).state(), final(self).state().len()),
    {
        let mut last: Vec<HintRead> = Vec::new();
        let mut out: Vec<Reason> = Vec::new();
        assert(seen_all(last@) == Seq::<HintView>::empty());
        assert(detect::pairs(out@) == Seq::<(Seq<char>, Seq<char>)>::empty());
        if cfg.hint_enabled {
            match listing {
                Some(files) => {
                    let mut i: usize = 0;
                    while i < files.len()
                        invariant
                            i <= files@.len(),
                            seen_all(last@) == hints(files@, now, cfg.hint_ttl_secs, i as nat),
                        decreases files@.len() - i,
                    {
                        let ghost done = seen_all(last@);
                        let file = &files[i];
                        if is_hint_name(file.name.as_str()) {
                            if let Some(modified) = file.modified {
                                let (age_secs, fresh, future) = classify(
                                    now,
                                    modified,
                                    cfg.hint_ttl_secs,
                                );
                                let h = HintRead {
                                    name: file.name.as_str().to_owned(),
                                    note: read_note(&file.content),
                                    age_secs,
                                    future,
                                    fresh,
                                };
                                let ghost v = h.seen();
                                last.push(h);
                                assert(seen_all(last@) == done.push(v));
                            }
                        }
                        i = i + 1;
                    }
                },
                None => {},
            }
        }
        self.last = last;
        let ghost view = self.state();
        let mut i: usize = 0;
        while i < self.last.len()
            invariant
                i <= self.last@.len(),
                view == self.state(),
                detect::pairs(out@) == reasons(view, i as nat),
            decreases self.last@.len() - i,
        {
            let ghost done = detect::pairs(out@);
            if self.last[i].fresh {
                out.push(Reason { kind: "hint", detail: detail_string(&self.last[i]) });
                assert(detect::pairs(out@) == done.push(("hint"@, detail(view[i as int]))));
            }
            i = i + 1;
        }
        out
    }

    /// The lines that show the detector, with the directory that it looks into.
    pub fn status_lines(&self, cfg: &Config, dir: &str) -> (lines: Vec<String>)
        ensures
            text::views(lines@) == status(*cfg, dir@, self.state()),
    {
        let ghost view = self.state();
        let mut lines: Vec<String> = Vec::new();
        if !cfg.hint_enabled {
            lines.push("  (disabled)".to_owned());
            assert(text::views(lines@) == seq!["  (disabled)"@]);
            return lines;
        }
        let mut head = "  dir=".to_owned();
        head.append(dir);
        head.append("  ttl=");
        text::push_dec(&mut head, cfg.hint_ttl_secs as u128);
        head.append("s");
        let ghost first = head@;
        lines.push(head);
        assert(text::views(lines@) == seq![first]);
        if self.last.len() == 0 {
            lines.push("    (no hint files)".to_owned());
            assert(text::views(lines@) == seq![first, "    (no hint files)"@]);
            return lines;
        }
        let mut i: usize = 0;
        assert(text::views(lines@) == seq![first] + Seq::new(0, |k: int| status_row(view[k])));
        while i < self.last.len()
            invariant
                i <= self.last@.len(),
                view == self.state(),
                text::views(lines@) == seq![first] + Seq::new(
                    i as nat,
                    |k: int| status_row(view[k]),
                ),
            decreases self.last@.len() - i,
        {
            let ghost done = text::views(lines@);
            lines.push(row_string(&self.last[i]));
            assert(text::views(lines@) == done.push(status_row(view[i as int])));
            i = i + 1;
            assert(text::views(lines@) == seq![first] + Seq::new(
                i as nat,
                |k: int| status_row(view[k]),
            ));
        }
        lines
    }
}

} // verus!
