//! What holds of the configuration file as a whole: what is written is what is
//! read, and adding keys to an older file changes nothing that it says.
use vstd::prelude::*;

use crate::config;
use crate::text;

verus! {

// ───────────────────────── trimming ─────────────────────────

spec fn all_white(s: Seq<char>) -> bool {
    forall|j: int| 0 <= j < s.len() ==> text::is_white(#[trigger] s[j])
}

/// White space around a trimmed text is all that trimming takes away.
proof fn lemma_trim_around(a: Seq<char>, s: Seq<char>, b: Seq<char>)
    requires
        all_white(a),
        all_white(b),
        text::trim(s) == s,
    ensures
        text::trim(a + s + b) == s,
{
    let w = a + s + b;
    lemma_trimmed_ends(s);
    if s.len() == 0 {
        text::lemma_trim_start_unique(w, w.len() as int);
        assert(w.skip(w.len() as int) =~= Seq::empty());
        assert(text::trim(w) =~= s);
    } else {
        assert forall|j: int| 0 <= j < a.len() implies text::is_white(#[trigger] w[j]) by {
            assert(w[j] == a[j]);
        }
        assert(w[a.len() as int] == s[0]);
        text::lemma_trim_start_unique(w, a.len() as int);
        let v = w.skip(a.len() as int);
        assert(v =~= s + b);
        assert forall|j: int| s.len() <= j < v.len() implies text::is_white(#[trigger] v[j]) by {
            assert(v[j] == b[j - s.len()]);
        }
        assert(v[s.len() - 1] == s.last());
        text::lemma_trim_end_unique(v, s.len() as int);
        assert(v.take(s.len() as int) =~= s);
    }
}

/// A text that trimming leaves alone has a visible character at either end.
proof fn lemma_trimmed_ends(s: Seq<char>)
    requires
        text::trim(s) == s,
    ensures
        s.len() > 0 ==> !text::is_white(s.first()) && !text::is_white(s.last()),
{
    text::lemma_trim_start(s);
    text::lemma_trim_end(text::trim_start(s));
    if s.len() > 0 {
        assert(text::trim_start(s).len() == s.len());
        assert(s.skip(0) =~= s);
    }
}

/// What trimming leaves is trimmed.
proof fn lemma_trim_is_trimmed(s: Seq<char>)
    ensures
        text::trim(text::trim(s)) == text::trim(s),
{
    let a = text::trim_start(s);
    let b = text::trim_end(a);
    text::lemma_trim_start(s);
    text::lemma_trim_end(a);
    if b.len() > 0 {
        assert(b[0] == a[0]);
        text::lemma_trim_start_unique(b, 0);
        assert(b.skip(0) =~= b);
        text::lemma_trim_end_unique(b, b.len() as int);
        assert(b.take(b.len() as int) =~= b);
    }
}

/// Trimming splits a text into white space, what is left, and white space.
proof fn lemma_trim_splits(s: Seq<char>) -> (r: (Seq<char>, Seq<char>))
    ensures
        all_white(r.0),
        all_white(r.1),
        s == r.0 + text::trim(s) + r.1,
{
    let a = text::trim_start(s);
    text::lemma_trim_start(s);
    text::lemma_trim_end(a);
    let n = s.len() - a.len();
    let t = text::trim(s);
    let left = s.take(n);
    let right = a.skip(t.len() as int);
    assert forall|j: int| 0 <= j < right.len() implies text::is_white(#[trigger] right[j]) by {
        assert(right[j] == a[j + t.len()]);
    }
    assert(s =~= left + t + right);
    (left, right)
}

/// White space behind a line does not change what trimming leaves of it.
proof fn lemma_trim_ignores_tail(s: Seq<char>, w: Seq<char>)
    requires
        all_white(w),
    ensures
        text::trim(s + w) == text::trim(s),
{
    let (a, b) = lemma_trim_splits(s);
    lemma_trim_is_trimmed(s);
    assert(all_white(b + w)) by {
        assert forall|j: int| 0 <= j < (b + w).len() implies text::is_white(
            #[trigger] (b + w)[j],
        ) by {
            if j >= b.len() {
                assert((b + w)[j] == w[j - b.len()]);
            }
        }
    }
    lemma_trim_around(a, text::trim(s), b + w);
    assert(s + w =~= a + text::trim(s) + (b + w));
}

/// A carriage return at the end of a line is white space.
pub proof fn lemma_strip_cr_is_invisible(l: Seq<char>)
    ensures
        text::trim(text::strip_cr(l)) == text::trim(l),
        config::entry_of(text::strip_cr(l)) == config::entry_of(l),
{
    if l.len() > 0 && l.last() == '\r' {
        assert(l =~= l.drop_last() + seq!['\r']);
        lemma_trim_ignores_tail(l.drop_last(), seq!['\r']);
    }
}

// ───────────────────────── lines ─────────────────────────

pub open spec fn one_line(l: Seq<char>) -> bool {
    forall|j: int| 0 <= j < l.len() ==> #[trigger] l[j] != '\n'
}

spec fn single_lines(ls: Seq<Seq<char>>) -> bool {
    forall|i: int| 0 <= i < ls.len() ==> one_line(#[trigger] ls[i])
}

/// No line holds a line feed.
proof fn lemma_lines_are_single(s: Seq<char>)
    ensures
        single_lines(text::lines(s)),
    decreases s.len(),
{
    if s.len() > 0 {
        let k = text::find(s, '\n');
        text::lemma_find(s, '\n');
        if k < s.len() {
            let rest = s.skip(k + 1);
            lemma_lines_are_single(rest);
            let head = text::strip_cr(s.take(k));
            assert(one_line(head)) by {
                assert forall|j: int| 0 <= j < head.len() implies #[trigger] head[j] != '\n' by {
                    assert(head[j] == s[j]);
                }
            }
            let ls = text::lines(s);
            assert forall|i: int| 0 <= i < ls.len() implies one_line(#[trigger] ls[i]) by {
                if i > 0 {
                    assert(ls[i] == text::lines(rest)[i - 1]);
                }
            }
        }
    }
}

/// Text behind a finished line starts a line of its own.
pub proof fn lemma_lines_append(a: Seq<char>, b: Seq<char>)
    requires
        a.len() == 0 || a.last() == '\n',
    ensures
        text::lines(a + b) == text::lines(a) + text::lines(b),
    decreases a.len(),
{
    if a.len() == 0 {
        assert(a + b =~= b);
        assert(text::lines(a) + text::lines(b) =~= text::lines(b));
    } else {
        let k = text::find(a, '\n');
        text::lemma_find(a, '\n');
        assert(k < a.len()) by {
            if k == a.len() {
                assert(a[a.len() - 1] != '\n');
            }
        }
        let s = a + b;
        assert forall|j: int| 0 <= j < k implies #[trigger] s[j] != '\n' by {
            assert(s[j] == a[j]);
        }
        text::lemma_find_unique(s, '\n', k);
        let rest = a.skip(k + 1);
        assert(rest.len() > 0 ==> rest.last() == a.last());
        lemma_lines_append(rest, b);
        assert(s.skip(k + 1) =~= rest + b);
        assert(s.take(k) =~= a.take(k));
        assert(text::lines(s) =~= text::lines(a) + text::lines(b));
    }
}

/// A line that is ended is one line.
pub proof fn lemma_ended_line(l: Seq<char>)
    requires
        one_line(l),
    ensures
        text::lines(l.push('\n')) == seq![text::strip_cr(l)],
{
    let s = l.push('\n');
    assert forall|j: int| 0 <= j < l.len() implies #[trigger] s[j] != '\n' by {
        assert(s[j] == l[j]);
    }
    text::lemma_find_unique(s, '\n', l.len() as int);
    assert(s.take(l.len() as int) =~= l);
    assert(s.skip(l.len() as int + 1) =~= Seq::empty());
    reveal_with_fuel(text::lines, 2);
    assert(text::lines(s) =~= seq![text::strip_cr(l)]);
}

spec fn cr_stripped(ls: Seq<Seq<char>>) -> Seq<Seq<char>> {
    ls.map_values(|l: Seq<char>| text::strip_cr(l))
}

/// Written lines are read back, but for carriage returns at their ends.
proof fn lemma_lines_of_unlines(ls: Seq<Seq<char>>)
    requires
        single_lines(ls),
        ls.len() > 0,
    ensures
        text::lines(config::unlines(ls)) == cr_stripped(ls),
        config::unlines(ls).last() == '\n',
    decreases ls.len(),
{
    let last = ls.last();
    assert(one_line(ls[ls.len() - 1]));
    lemma_ended_line(last);
    if ls.len() == 1 {
        assert(config::unlines(ls) =~= last.push('\n'));
        assert(cr_stripped(ls) =~= seq![text::strip_cr(last)]);
    } else {
        let front = ls.drop_last();
        assert forall|i: int| 0 <= i < front.len() implies one_line(#[trigger] front[i]) by {
            assert(front[i] == ls[i]);
        }
        lemma_lines_of_unlines(front);
        lemma_lines_append(config::unlines(front), last.push('\n'));
        assert(config::unlines(ls) =~= config::unlines(front) + last.push('\n'));
        assert(cr_stripped(ls) =~= cr_stripped(front) + seq![text::strip_cr(last)]);
    }
}

// ───────────────────────── entries ─────────────────────────

pub proof fn lemma_entries_append(a: Seq<Seq<char>>, b: Seq<Seq<char>>)
    ensures
        config::entries(a + b) == config::entries(a) + config::entries(b),
    decreases b.len(),
{
    if b.len() == 0 {
        assert(a + b =~= a);
        assert(config::entries(a) + config::entries(b) =~= config::entries(a));
    } else {
        lemma_entries_append(a, b.drop_last());
        assert((a + b).drop_last() =~= a + b.drop_last());
        assert((a + b).last() == b.last());
        assert(config::entries(a + b) =~= config::entries(a) + config::entries(b));
    }
}

proof fn lemma_entries_of_stripped(ls: Seq<Seq<char>>)
    ensures
        config::entries(cr_stripped(ls)) == config::entries(ls),
    decreases ls.len(),
{
    if ls.len() > 0 {
        lemma_entries_of_stripped(ls.drop_last());
        assert(cr_stripped(ls).drop_last() =~= cr_stripped(ls.drop_last()));
        lemma_strip_cr_is_invisible(ls.last());
    }
}

/// The entry of a single line.
pub proof fn lemma_entries_of_one(l: Seq<char>)
    ensures
        config::entries(seq![l]) == (match config::entry_of(l) {
            Some(e) => seq![e],
            None => Seq::empty(),
        }),
{
    reveal_with_fuel(config::entries, 2);
    assert(seq![l].drop_last() =~= Seq::empty());
    assert(config::entries(seq![l]) =~= (match config::entry_of(l) {
        Some(e) => seq![e],
        None => Seq::empty(),
    }));
}

/// Lines that do not set a key give no entry with it.
proof fn lemma_entries_without(ls: Seq<Seq<char>>, key: Seq<char>)
    requires
        forall|j: int| 0 <= j < ls.len() ==> !config::sets(#[trigger] ls[j], key),
    ensures
        !config::has_key(config::entries(ls), key),
    decreases ls.len(),
{
    if ls.len() > 0 {
        let front = ls.drop_last();
        assert forall|j: int| 0 <= j < front.len() implies !config::sets(
            #[trigger] front[j],
            key,
        ) by {
            assert(front[j] == ls[j]);
        }
        lemma_entries_without(front, key);
        assert(!config::sets(ls[ls.len() - 1], key));
        let es = config::entries(ls);
        assert forall|i: int| 0 <= i < es.len() implies (#[trigger] es[i]).0 != key by {
            let fs = config::entries(front);
            if i < fs.len() {
                assert(es[i] == fs[i]);
            }
        }
    }
}

/// The first entries decide; the others count where the first lack the key.
proof fn lemma_lookup_append(
    a: Seq<(Seq<char>, Seq<char>)>,
    b: Seq<(Seq<char>, Seq<char>)>,
    key: Seq<char>,
)
    ensures
        config::lookup(a + b, key) == if config::has_key(a, key) {
            config::lookup(a, key)
        } else {
            config::lookup(b, key)
        },
    decreases a.len(),
{
    if a.len() == 0 {
        assert(a + b =~= b);
    } else {
        let t = a.drop_first();
        lemma_lookup_append(t, b, key);
        assert((a + b).drop_first() =~= t + b);
        if a.first().0 == key {
            assert(a[0].0 == key);
        } else {
            assert(config::has_key(a, key) == config::has_key(t, key)) by {
                if config::has_key(a, key) {
                    let i = choose|i: int| 0 <= i < a.len() && (#[trigger] a[i]).0 == key;
                    assert(t[i - 1].0 == key);
                }
                if config::has_key(t, key) {
                    let i = choose|i: int| 0 <= i < t.len() && (#[trigger] t[i]).0 == key;
                    assert(a[i + 1].0 == key);
                }
            }
        }
    }
}

proof fn lemma_has_key_append(
    a: Seq<(Seq<char>, Seq<char>)>,
    b: Seq<(Seq<char>, Seq<char>)>,
    key: Seq<char>,
)
    ensures
        config::has_key(a + b, key) == (config::has_key(a, key) || config::has_key(b, key)),
{
    let s = a + b;
    if config::has_key(a, key) {
        let i = choose|i: int| 0 <= i < a.len() && (#[trigger] a[i]).0 == key;
        assert(s[i].0 == key);
    }
    if config::has_key(b, key) {
        let i = choose|i: int| 0 <= i < b.len() && (#[trigger] b[i]).0 == key;
        assert(s[i + a.len()].0 == key);
    }
    if config::has_key(s, key) {
        let i = choose|i: int| 0 <= i < s.len() && (#[trigger] s[i]).0 == key;
        if i < a.len() {
            assert(a[i].0 == key);
        } else {
            assert(b[i - a.len()].0 == key);
        }
    }
}

// ───────────────────────── rewriting ─────────────────────────

/// A key that a line can hold: no line feed, no equals sign, no white space around
/// it, and not the look of a comment.
pub open spec fn writable_key(key: Seq<char>) -> bool {
    &&& text::trim(key) == key
    &&& !key.contains('=')
    &&& !key.contains('\n')
    &&& !text::starts_with_char(key, '#')
    &&& !text::starts_with_char(key, ';')
}

/// A value that a line can hold: no line feed, no comment, no white space around it.
pub open spec fn writable_value(value: Seq<char>) -> bool {
    &&& text::trim(value) == value
    &&& !value.contains('#')
    &&& !value.contains(';')
    &&& !value.contains('\n')
}

/// What stands behind the value of a line that `rewrite` leaves: nothing, or a
/// comment set off by three spaces.
pub open spec fn comment_tail(c: Seq<char>) -> bool {
    ||| c.len() == 0
    ||| {
        &&& c.len() >= 4
        &&& c.take(3) == seq![' ', ' ', ' ']
        &&& c[3] == '#' || c[3] == ';'
        &&& !text::is_white(c.last())
    }
}

proof fn lemma_kept_comment(line: Seq<char>)
    ensures
        comment_tail(config::kept_comment(line)),
{
    let t = text::trim(line);
    let tail = t.skip(text::find(t, '=') + 1);
    let k = config::comment_start(tail);
    text::lemma_find(tail, '#');
    text::lemma_find(tail, ';');
    if k < tail.len() {
        let c = tail.skip(k);
        text::lemma_trim_end(c);
        assert(c[0] == tail[k]);
        let r = text::trim_end(c);
        assert(r.len() > 0) by {
            if r.len() == 0 {
                assert(text::is_white(c[0]));
            }
        }
        let w = config::kept_comment(line);
        assert(w.take(3) =~= seq![' ', ' ', ' ']);
        assert(w[3] == r[0]);
        assert(w.last() == r.last());
    }
}

/// A value with white space before it, and perhaps a comment, is read as the value.
proof fn lemma_value_reads_back(value: Seq<char>, c: Seq<char>)
    requires
        writable_value(value),
        comment_tail(c),
    ensures
        config::strip_comment(text::trim_end(seq![' '] + value + c)) == value,
{
    let full = seq![' '] + value + c;
    lemma_trimmed_ends(value);
    if c.len() == 0 {
        assert(full =~= seq![' '] + value);
        let n = if value.len() == 0 { 0int } else { full.len() as int };
        assert(value.len() > 0 ==> full[n - 1] == value.last());
        text::lemma_trim_end_unique(full, n);
        let tail = full.take(n);
        assert forall|j: int| 0 <= j < tail.len() implies #[trigger] tail[j] != '#' && tail[j]
            != ';' by {
            if j > 0 {
                assert(tail[j] == value[j - 1]);
                assert(value.contains(value[j - 1]));
            }
        }
        text::lemma_find_unique(tail, '#', tail.len() as int);
        text::lemma_find_unique(tail, ';', tail.len() as int);
        assert(tail.take(tail.len() as int) =~= tail);
        if value.len() > 0 {
            assert(tail =~= seq![' '] + value + Seq::<char>::empty());
            lemma_trim_around(seq![' '], value, Seq::empty());
        } else {
            assert(tail =~= value);
        }
    } else {
        assert(full.last() == c.last());
        text::lemma_trim_end_unique(full, full.len() as int);
        assert(full.take(full.len() as int) =~= full);
        let n = 1 + value.len() as int + 3;
        assert(full[n] == c[3]);
        assert forall|j: int| 0 <= j < n implies #[trigger] full[j] != '#' && full[j] != ';' by {
            if 1 <= j < 1 + value.len() {
                assert(full[j] == value[j - 1]);
                assert(value.contains(value[j - 1]));
            } else if j >= 1 + value.len() {
                assert(full[j] == c[j - 1 - value.len()]);
                assert(c[j - 1 - value.len()] == c.take(3)[j - 1 - value.len()]);
            }
        }
        text::lemma_find(full, '#');
        text::lemma_find(full, ';');
        let a = text::find(full, '#');
        let b = text::find(full, ';');
        assert(a >= n) by {
            if a < n {
                assert(full[a] == '#');
            }
        }
        assert(b >= n) by {
            if b < n {
                assert(full[b] == ';');
            }
        }
        assert(a == n || b == n) by {
            if full[n] == '#' {
                text::lemma_find_unique(full, '#', n);
            } else {
                text::lemma_find_unique(full, ';', n);
            }
        }
        assert(config::comment_start(full) == n);
        assert(full.take(n) =~= seq![' '] + value + seq![' ', ' ', ' ']) by {
            assert(c.take(3) =~= seq![' ', ' ', ' ']);
            assert forall|j: int| 0 <= j < n implies #[trigger] full.take(n)[j] == (seq![' ']
                + value + seq![' ', ' ', ' '])[j] by {
                if j >= 1 + value.len() {
                    assert(full[j] == c.take(3)[j - 1 - value.len()]);
                }
            }
        }
        lemma_trim_around(seq![' '], value, seq![' ', ' ', ' ']);
    }
}

/// The line that `rewrite` leaves sets the key to the value.
pub proof fn lemma_setting_line(key: Seq<char>, value: Seq<char>, c: Seq<char>)
    requires
        writable_key(key),
        writable_value(value),
        comment_tail(c),
    ensures
        config::entry_of(config::setting_line(key, value) + c) == Some((key, value)),
{
    let line = config::setting_line(key, value) + c;
    let eq = key.len() + 1;
    let behind = seq![' '] + value + c;
    assert(line =~= key + seq![' ', '='] + behind);
    lemma_trimmed_ends(key);
    // what trimming leaves: everything from `start`, without white space at the end
    let start = if key.len() == 0 { 1int } else { 0int };
    assert(line[0] == if key.len() == 0 { ' ' } else { key[0] });
    assert(line[key.len() as int] == ' ');
    assert(line[eq as int] == '=');
    text::lemma_trim_start_unique(line, start);
    let u = line.skip(start);
    text::lemma_trim_end(u);
    let t = text::trim_end(u);
    let at = eq - start;
    assert(u[at] == '=');
    assert(t.len() > at) by {
        if t.len() <= at {
            assert(text::is_white(u[at]));
        }
    }
    // the key
    assert forall|j: int| 0 <= j < at implies #[trigger] t[j] != '=' by {
        assert(t[j] == line[j + start]);
        if j + start < key.len() {
            assert(key.contains(key[j + start]));
        }
    }
    text::lemma_find_unique(t, '=', at);
    assert(text::trim(t.take(at)) == key) by {
        if key.len() == 0 {
            assert(t.take(at) =~= Seq::empty());
        } else {
            assert(t.take(at) =~= Seq::<char>::empty() + key + seq![' ']);
            lemma_trim_around(Seq::empty(), key, seq![' ']);
        }
    }
    assert(t[0] == if key.len() == 0 { '=' } else { key[0] });
    // the value
    let tail = t.skip(at + 1);
    assert(tail == text::trim_end(behind)) by {
        let n = tail.len() as int;
        assert forall|j: int| n <= j < behind.len() implies text::is_white(
            #[trigger] behind[j],
        ) by {
            assert(behind[j] == u[j + at + 1]);
        }
        if n > 0 {
            assert(behind[n - 1] == t.last());
        }
        text::lemma_trim_end_unique(behind, n);
        assert(behind.take(n) =~= tail);
    }
    lemma_value_reads_back(value, c);
}

/// A comment that is kept comes from one line.
proof fn lemma_kept_comment_is_single(line: Seq<char>)
    requires
        one_line(line),
        config::entry_of(line) is Some,
    ensures
        one_line(config::kept_comment(line)),
{
    let t = text::trim(line);
    let (a, b) = lemma_trim_splits(line);
    assert forall|j: int| 0 <= j < t.len() implies #[trigger] t[j] != '\n' by {
        assert(t[j] == line[j + a.len()]);
    }
    let tail = t.skip(text::find(t, '=') + 1);
    let k = config::comment_start(tail);
    text::lemma_find(t, '=');
    text::lemma_find(tail, '#');
    text::lemma_find(tail, ';');
    if k < tail.len() {
        let s = tail.skip(k);
        text::lemma_trim_end(s);
        let r = text::trim_end(s);
        let w = config::kept_comment(line);
        assert forall|j: int| 0 <= j < w.len() implies #[trigger] w[j] != '\n' by {
            if j >= 3 {
                assert(w[j] == r[j - 3]);
                assert(r[j - 3] == s[j - 3]);
                assert(s[j - 3] == t[text::find(t, '=') + 1 + k + j - 3]);
            }
        }
    }
}

/// What is written is what is read. Whatever file the configuration came from,
/// reading the rewritten text gives the key its new value, and every other key the
/// value that it had.
pub proof fn law_rewrite_reads_back(source: Seq<char>, key: Seq<char>, value: Seq<char>)
    requires
        writable_key(key),
        writable_value(value),
    ensures
        ({
            let before = config::entries(text::lines(source));
            let out = config::unlines(config::rewritten(text::lines(source), key, value));
            let after = config::entries(text::lines(out));
            &&& config::lookup(after, key) == value
            &&& forall|k: Seq<char>| k != key ==> #[trigger] config::lookup(after, k)
                == config::lookup(before, k)
        }),
{
    let ls = text::lines(source);
    let new = config::rewritten(ls, key, value);
    let i = config::first_setting(ls, key);
    lemma_lines_are_single(source);
    config::lemma_first_setting_sets(ls, key);
    let front = ls.take(i);
    let back = if i < ls.len() { ls.skip(i + 1) } else { Seq::empty() };
    let c = if i < ls.len() { config::kept_comment(ls[i]) } else { Seq::empty() };
    let line = config::setting_line(key, value) + c;
    if i < ls.len() {
        lemma_kept_comment(ls[i]);
        lemma_kept_comment_is_single(ls[i]);
        assert(new =~= front + seq![line] + back);
        assert(ls =~= front + seq![ls[i]] + back);
    } else {
        assert(line =~= config::setting_line(key, value));
        assert(new =~= front + seq![line] + back);
    }
    lemma_setting_line(key, value, c);
    // the written text holds exactly the new lines
    assert(one_line(line)) by {
        assert forall|j: int| 0 <= j < line.len() implies #[trigger] line[j] != '\n' by {
            let n = key.len() as int;
            let m = value.len() as int;
            if j < n {
                assert(line[j] == key[j] && key.contains(key[j]));
            } else if n + 3 <= j < n + 3 + m {
                assert(line[j] == value[j - n - 3] && value.contains(value[j - n - 3]));
            } else if j >= n + 3 + m {
                assert(line[j] == c[j - n - 3 - m]);
            }
        }
    }
    assert forall|j: int| 0 <= j < new.len() implies one_line(#[trigger] new[j]) by {
        if j != i {
            assert(new[j] == ls[j]);
        }
    }
    lemma_lines_of_unlines(new);
    lemma_entries_of_stripped(new);
    // the entries before and after
    let head = config::entries(front);
    let tail = config::entries(back);
    let mine = seq![(key, value)];
    lemma_entries_append(front, seq![line]);
    lemma_entries_append(front + seq![line], back);
    lemma_entries_of_one(line);
    assert forall|j: int| 0 <= j < front.len() implies !config::sets(#[trigger] front[j], key) by {
        assert(front[j] == ls[j]);
    }
    lemma_entries_without(front, key);
    let after = config::entries(new);
    assert(after == head + mine + tail);
    let before = config::entries(ls);
    let was = if i < ls.len() { config::entries(seq![ls[i]]) } else { Seq::empty() };
    if i < ls.len() {
        lemma_entries_append(front, seq![ls[i]]);
        lemma_entries_append(front + seq![ls[i]], back);
        lemma_entries_of_one(ls[i]);
    } else {
        assert(front =~= ls);
        assert(head + was + tail =~= head);
    }
    assert(before == head + was + tail);
    assert(mine[0].0 == key);
    lemma_lookup_append(head + mine, tail, key);
    lemma_lookup_append(head, mine, key);
    lemma_has_key_append(head, mine, key);
    assert forall|k: Seq<char>| k != key implies #[trigger] config::lookup(after, k)
        == config::lookup(before, k) by {
        lemma_lookup_append(head + mine, tail, k);
        lemma_lookup_append(head, mine, k);
        lemma_has_key_append(head, mine, k);
        lemma_lookup_append(head + was, tail, k);
        lemma_lookup_append(head, was, k);
        lemma_has_key_append(head, was, k);
        assert(!config::has_key(mine, k));
        assert(!config::has_key(was, k));
    }
}

/// Rewriting touches one line. Every other line, comments among them, stays as and
/// where it is; a key that no line sets gets a line at the end.
pub proof fn law_rewrite_keeps_other_lines(ls: Seq<Seq<char>>, key: Seq<char>, value: Seq<char>)
    ensures
        ({
            let new = config::rewritten(ls, key, value);
            let i = config::first_setting(ls, key);
            &&& new.len() == if i < ls.len() { ls.len() } else { ls.len() + 1 }
            &&& forall|j: int| 0 <= j < ls.len() && j != i ==> #[trigger] new[j] == ls[j]
        }),
{
    config::lemma_first_setting_sets(ls, key);
}

// ───────────────────────── adding keys ─────────────────────────

/// White space at the end of a text sets nothing.
proof fn lemma_white_tail_sets_nothing(s: Seq<char>, w: char)
    requires
        text::is_white(w),
    ensures
        config::entries(text::lines(s.push(w))) == config::entries(text::lines(s)),
    decreases s.len(),
{
    let p = s.push(w);
    reveal_with_fuel(text::lines, 2);
    let k = text::find(s, '\n');
    text::lemma_find(s, '\n');
    if k < s.len() {
        assert forall|j: int| 0 <= j < k implies #[trigger] p[j] != '\n' by {
            assert(p[j] == s[j]);
        }
        text::lemma_find_unique(p, '\n', k);
        let rest = s.skip(k + 1);
        assert(p.skip(k + 1) =~= rest.push(w));
        assert(p.take(k) =~= s.take(k));
        lemma_white_tail_sets_nothing(rest, w);
        let head = seq![text::strip_cr(s.take(k))];
        lemma_entries_append(head, text::lines(rest));
        lemma_entries_append(head, text::lines(rest.push(w)));
    } else {
        lemma_trim_ignores_tail(s, seq![w]);
        assert(p =~= s + seq![w]);
        lemma_entries_of_one(s);
        if w == '\n' {
            assert(one_line(s));
            lemma_ended_line(s);
            lemma_strip_cr_is_invisible(s);
            lemma_entries_of_one(text::strip_cr(s));
        } else {
            assert forall|j: int| 0 <= j < p.len() implies #[trigger] p[j] != '\n' by {
                if j < s.len() {
                    assert(p[j] == s[j]);
                }
            }
            text::lemma_find_unique(p, '\n', p.len() as int);
            lemma_entries_of_one(p);
        }
        if s.len() == 0 {
            assert(text::trim(s) =~= s);
            assert(config::entry_of(s) is None);
        }
    }
}

/// Cutting the white space at the end of a text changes no entry.
proof fn lemma_trim_end_keeps_entries(s: Seq<char>, n: int)
    requires
        text::trim_end(s).len() <= n <= s.len(),
    ensures
        config::entries(text::lines(text::trim_end(s))) == config::entries(text::lines(s.take(n))),
    decreases n,
{
    text::lemma_trim_end(s);
    if n > text::trim_end(s).len() {
        lemma_trim_end_keeps_entries(s, n - 1);
        assert(s.take(n) =~= s.take(n - 1).push(s[n - 1]));
        lemma_white_tail_sets_nothing(s.take(n - 1), s[n - 1]);
    }
}

/// The header in front of the added lines sets nothing.
proof fn lemma_header_sets_nothing()
    ensures
        config::ADDED_HEADER@.len() > 0,
        config::ADDED_HEADER@[0] == '\n',
        config::ADDED_HEADER@.last() == '\n',
        config::entries(text::lines(config::ADDED_HEADER@)) == Seq::<
            (Seq<char>, Seq<char>),
        >::empty(),
{
    reveal_strlit("\n\n# ── 以下为新版本追加的配置项 ──\n");
    let h = config::ADDED_HEADER@;
    let e = Seq::<char>::empty();
    let l = h.subrange(2, h.len() - 1);
    assert(h =~= e.push('\n') + (e.push('\n') + l.push('\n')));
    lemma_lines_append(e.push('\n'), e.push('\n') + l.push('\n'));
    lemma_lines_append(e.push('\n'), l.push('\n'));
    lemma_ended_line(e);
    assert(one_line(l));
    lemma_ended_line(l);
    assert(text::strip_cr(e) =~= e);
    assert(text::strip_cr(l) =~= l);
    assert(text::trim(e) =~= e);
    assert(config::entry_of(e) is None);
    lemma_entries_of_one(e);
    text::lemma_trim_start_unique(l, 0);
    assert(l.skip(0) =~= l);
    text::lemma_trim_end_unique(l, l.len() as int);
    assert(l.take(l.len() as int) =~= l);
    assert(config::entry_of(l) is None);
    lemma_entries_of_one(l);
    lemma_entries_append(seq![e], seq![e] + seq![l]);
    lemma_entries_append(seq![e], seq![l]);
    assert(config::entries(text::lines(h)) =~= Seq::<(Seq<char>, Seq<char>)>::empty());
}

/// The entries whose key the others lack.
pub open spec fn lacking_entries(
    ds: Seq<(Seq<char>, Seq<char>)>,
    es: Seq<(Seq<char>, Seq<char>)>,
) -> Seq<(Seq<char>, Seq<char>)>
    decreases ds.len(),
{
    if ds.len() == 0 {
        Seq::empty()
    } else if config::has_key(es, ds.last().0) {
        lacking_entries(ds.drop_last(), es)
    } else {
        lacking_entries(ds.drop_last(), es).push(ds.last())
    }
}

/// Comments above a key set nothing and are single lines.
proof fn lemma_comments_above(ls: Seq<Seq<char>>, i: int)
    requires
        0 <= i <= ls.len(),
        single_lines(ls),
    ensures
        config::entries(config::comments_above(ls, i)) == Seq::<(Seq<char>, Seq<char>)>::empty(),
        single_lines(config::comments_above(ls, i)),
    decreases i,
{
    if i > 0 && config::explains(ls[i - 1]) {
        lemma_comments_above(ls, i - 1);
        let c = config::comments_above(ls, i);
        assert(c.drop_last() =~= config::comments_above(ls, i - 1));
        assert(config::entry_of(ls[i - 1]) is None);
        assert forall|j: int| 0 <= j < c.len() implies one_line(#[trigger] c[j]) by {
            if j < c.len() - 1 {
                assert(c[j] == config::comments_above(ls, i - 1)[j]);
            } else {
                assert(one_line(ls[i - 1]));
            }
        }
    }
}

/// The added lines set the lacking keys, and nothing else.
proof fn lemma_lacking_lines(ls: Seq<Seq<char>>, es: Seq<(Seq<char>, Seq<char>)>, n: int)
    requires
        0 <= n <= ls.len(),
        single_lines(ls),
    ensures
        config::entries(config::lacking_lines(ls, es, n)) == lacking_entries(
            config::entries(ls.take(n)),
            es,
        ),
        single_lines(config::lacking_lines(ls, es, n)),
    decreases n,
{
    if n == 0 {
        assert(ls.take(0) =~= Seq::empty());
        assert(config::lacking_lines(ls, es, 0) =~= Seq::empty());
    } else {
        lemma_lacking_lines(ls, es, n - 1);
        assert(ls.take(n).drop_last() =~= ls.take(n - 1));
        let line = ls[n - 1];
        assert(ls.take(n).last() == line);
        let before = config::lacking_lines(ls, es, n - 1);
        if config::entry_of(line) is Some {
            let e = config::entry_of(line)->0;
            let ds = config::entries(ls.take(n));
            assert(ds.drop_last() =~= config::entries(ls.take(n - 1)));
            assert(ds.last() == e);
        }
        if config::sets_missing(line, es) {
            let c = config::comments_above(ls, n - 1);
            lemma_comments_above(ls, n - 1);
            let block = c.push(line);
            lemma_entries_append(before, block);
            assert(block.drop_last() =~= c);
            assert(config::entries(block) =~= Seq::empty().push(config::entry_of(line)->0));
            let all = config::lacking_lines(ls, es, n);
            assert(config::entries(all) =~= lacking_entries(config::entries(ls.take(n)), es));
            assert forall|j: int| 0 <= j < all.len() implies one_line(#[trigger] all[j]) by {
                if j < before.len() {
                    assert(all[j] == before[j]);
                } else if j < before.len() + c.len() {
                    assert(all[j] == c[j - before.len()]);
                } else {
                    assert(one_line(ls[n - 1]));
                }
            }
        }
    }
}

/// A migrated file says what the file said, and then what it lacked.
pub proof fn law_migration_appends(source: Seq<char>)
    ensures
        config::entries(text::lines(config::migrated(source))) == config::entries(
            text::lines(source),
        ) + lacking_entries(
            config::entries(text::lines(config::DEFAULT_CONFIG@)),
            config::entries(text::lines(source)),
        ),
{
    let es = config::entries(text::lines(source));
    let ds = text::lines(config::DEFAULT_CONFIG@);
    lemma_lines_are_single(config::DEFAULT_CONFIG@);
    lemma_lacking_lines(ds, es, ds.len() as int);
    assert(ds.take(ds.len() as int) =~= ds);
    let added = config::lacking_of(es);
    if added.len() == 0 {
        assert(config::entries(added) =~= Seq::empty());
        assert(es + config::entries(added) =~= es);
    } else {
        let t = text::trim_end(source);
        let header = config::ADDED_HEADER@;
        lemma_header_sets_nothing();
        text::lemma_trim_end(source);
        lemma_trim_end_keeps_entries(source, source.len() as int);
        assert(source.take(source.len() as int) =~= source);
        lemma_white_tail_sets_nothing(t, '\n');
        // the header's first line feed ends the last line of the file
        let rest = header.skip(1);
        let u = config::unlines(added);
        let m = config::migrated(source);
        assert(m =~= t.push('\n') + (rest + u));
        lemma_lines_append(t.push('\n'), rest + u);
        lemma_header_tail();
        lemma_lines_append(rest, u);
        lemma_lines_of_unlines(added);
        lemma_entries_of_stripped(added);
        lemma_entries_append(text::lines(t.push('\n')), text::lines(rest + u));
        lemma_entries_append(text::lines(rest), text::lines(u));
        assert(config::entries(text::lines(m)) =~= es + config::entries(added));
    }
}

/// The header behind its first line feed sets nothing either.
proof fn lemma_header_tail()
    ensures
        config::ADDED_HEADER@.skip(1).len() > 0,
        config::ADDED_HEADER@.skip(1).last() == '\n',
        config::entries(text::lines(config::ADDED_HEADER@.skip(1))) == Seq::<
            (Seq<char>, Seq<char>),
        >::empty(),
{
    reveal_strlit("\n\n# ── 以下为新版本追加的配置项 ──\n");
    let h = config::ADDED_HEADER@;
    lemma_header_sets_nothing();
    let e = Seq::<char>::empty();
    assert(h =~= e.push('\n') + h.skip(1));
    lemma_lines_append(e.push('\n'), h.skip(1));
    lemma_ended_line(e);
    lemma_entries_append(seq![text::strip_cr(e)], text::lines(h.skip(1)));
    let a = config::entries(seq![text::strip_cr(e)]);
    let b = config::entries(text::lines(h.skip(1)));
    assert((a + b).len() == 0);
    assert(b =~= Seq::<(Seq<char>, Seq<char>)>::empty());
}

/// Looking among the lacking entries for a lacking key is looking among all.
proof fn lemma_lookup_lacking(
    ds: Seq<(Seq<char>, Seq<char>)>,
    es: Seq<(Seq<char>, Seq<char>)>,
    key: Seq<char>,
)
    requires
        !config::has_key(es, key),
    ensures
        config::lookup(lacking_entries(ds, es), key) == config::lookup(ds, key),
        config::has_key(lacking_entries(ds, es), key) == config::has_key(ds, key),
    decreases ds.len(),
{
    if ds.len() > 0 {
        let front = ds.drop_last();
        let d = ds.last();
        lemma_lookup_lacking(front, es, key);
        assert(ds =~= front + seq![d]);
        lemma_lookup_append(front, seq![d], key);
        lemma_has_key_append(front, seq![d], key);
        let l = lacking_entries(front, es);
        if config::has_key(es, d.0) {
            assert(!config::has_key(seq![d], key));
            lemma_lookup_none(seq![d], key);
            lemma_lookup_none_if_absent(front, key);
        } else {
            assert(lacking_entries(ds, es) =~= l + seq![d]);
            lemma_lookup_append(l, seq![d], key);
            lemma_has_key_append(l, seq![d], key);
        }
    }
}

pub proof fn lemma_lookup_none(es: Seq<(Seq<char>, Seq<char>)>, key: Seq<char>)
    requires
        !config::has_key(es, key),
    ensures
        config::lookup(es, key) == Seq::<char>::empty(),
    decreases es.len(),
{
    if es.len() > 0 {
        assert(es[0].0 != key);
        let t = es.drop_first();
        assert(!config::has_key(t, key)) by {
            if config::has_key(t, key) {
                let i = choose|i: int| 0 <= i < t.len() && (#[trigger] t[i]).0 == key;
                assert(es[i + 1].0 == key);
            }
        }
        lemma_lookup_none(t, key);
    }
}

proof fn lemma_lookup_none_if_absent(es: Seq<(Seq<char>, Seq<char>)>, key: Seq<char>)
    ensures
        !config::has_key(es, key) ==> config::lookup(es, key) == Seq::<char>::empty(),
{
    if !config::has_key(es, key) {
        lemma_lookup_none(es, key);
    }
}

/// Adding keys keeps every value that a file sets, and gives the keys that it does
/// not set the values of the default file.
pub proof fn law_migration_keeps_values(source: Seq<char>, key: Seq<char>)
    ensures
        ({
            let es = config::entries(text::lines(source));
            let ds = config::entries(text::lines(config::DEFAULT_CONFIG@));
            let after = config::entries(text::lines(config::migrated(source)));
            &&& config::has_key(es, key) ==> config::lookup(after, key) == config::lookup(es, key)
            &&& !config::has_key(es, key) ==> config::lookup(after, key) == config::lookup(ds, key)
            &&& config::has_key(after, key) == (config::has_key(es, key) || config::has_key(
                ds,
                key,
            ))
        }),
{
    let es = config::entries(text::lines(source));
    let ds = config::entries(text::lines(config::DEFAULT_CONFIG@));
    let l = lacking_entries(ds, es);
    law_migration_appends(source);
    lemma_lookup_append(es, l, key);
    lemma_has_key_append(es, l, key);
    if !config::has_key(es, key) {
        lemma_lookup_lacking(ds, es, key);
    }
}

/// Lines whose keys are all known add nothing.
proof fn lemma_nothing_lacking(ls: Seq<Seq<char>>, es: Seq<(Seq<char>, Seq<char>)>, n: int)
    requires
        0 <= n <= ls.len(),
        forall|i: int| 0 <= i < n ==> !config::sets_missing(#[trigger] ls[i], es),
    ensures
        config::lacking_lines(ls, es, n).len() == 0,
    decreases n,
{
    if n > 0 {
        lemma_nothing_lacking(ls, es, n - 1);
        assert(!config::sets_missing(ls[n - 1], es));
    }
}

/// A line that sets a key gives an entry with it.
proof fn lemma_entry_is_listed(ls: Seq<Seq<char>>, i: int)
    requires
        0 <= i < ls.len(),
        config::entry_of(ls[i]) is Some,
    ensures
        config::has_key(config::entries(ls), (config::entry_of(ls[i])->0).0),
{
    let e = config::entry_of(ls[i])->0;
    let a = ls.take(i);
    let b = ls.skip(i + 1);
    assert(ls =~= a + seq![ls[i]] + b);
    lemma_entries_append(a, seq![ls[i]]);
    lemma_entries_append(a + seq![ls[i]], b);
    lemma_entries_of_one(ls[i]);
    assert(seq![e][0].0 == e.0);
    lemma_has_key_append(config::entries(a), seq![e], e.0);
    lemma_has_key_append(config::entries(a) + seq![e], config::entries(b), e.0);
}

/// Adding keys a second time changes nothing.
pub proof fn law_migration_is_idempotent(source: Seq<char>)
    ensures
        config::migrated(config::migrated(source)) == config::migrated(source),
{
    let m = config::migrated(source);
    let after = config::entries(text::lines(m));
    let ls = text::lines(config::DEFAULT_CONFIG@);
    assert forall|i: int| 0 <= i < ls.len() implies !config::sets_missing(
        #[trigger] ls[i],
        after,
    ) by {
        if config::entry_of(ls[i]) is Some {
            lemma_entry_is_listed(ls, i);
            law_migration_keeps_values(source, (config::entry_of(ls[i])->0).0);
        }
    }
    lemma_nothing_lacking(ls, after, ls.len() as int);
}

/// What tells the keys apart: their lengths, and a character where those are the same.
pub proof fn lemma_keys_differ()
    ensures
        "poll_interval_secs"@.len() == 18,
        "fast_poll_secs"@.len() == 14,
        "grace_secs"@.len() == 10,
        "policy_ac"@.len() == 9,
        "policy_dc"@.len() == 9,
        "never_wake_display"@.len() == 18,
        "sleep_on_release"@.len() == 16,
        "audio_enabled"@.len() == 13,
        "audio_peak_threshold"@.len() == 20,
        "audio_hold_secs"@.len() == 15,
        "audio_ignore"@.len() == 12,
        "net_enabled"@.len() == 11,
        "net_threshold_kbps"@.len() == 18,
        "net_min_consecutive_tick"@.len() == 24,
        "proc_enabled"@.len() == 12,
        "proc_cpu_percent_1core"@.len() == 22,
        "proc_busy_when_cpu"@.len() == 18,
        "dl_enabled"@.len() == 10,
        "dl_processes"@.len() == 12,
        "dl_io_kbps"@.len() == 10,
        "dl_tcp_conns"@.len() == 12,
        "hint_enabled"@.len() == 12,
        "hint_ttl_secs"@.len() == 13,
        "audio_enabled"@[0] == 'a',
        "hint_ttl_secs"@[0] == 'h',
        "proc_enabled"@[0] == 'p',
        "audio_ignore"@[0] == 'a',
        "dl_processes"@[0] == 'd',
        "dl_tcp_conns"@[0] == 'd',
        "hint_enabled"@[0] == 'h',
        "dl_enabled"@[3] == 'e',
        "grace_secs"@[3] == 'c',
        "dl_io_kbps"@[3] == 'i',
        "policy_ac"@[7] == 'a',
        "policy_dc"@[7] == 'd',
        "dl_processes"@[3] == 'p',
        "dl_tcp_conns"@[3] == 't',
        "poll_interval_secs"@[2] == 'l',
        "never_wake_display"@[2] == 'v',
        "net_threshold_kbps"@[2] == 't',
        "proc_busy_when_cpu"@[2] == 'o',
{
    reveal_strlit("poll_interval_secs");
    reveal_strlit("fast_poll_secs");
    reveal_strlit("grace_secs");
    reveal_strlit("policy_ac");
    reveal_strlit("policy_dc");
    reveal_strlit("never_wake_display");
    reveal_strlit("sleep_on_release");
    reveal_strlit("audio_enabled");
    reveal_strlit("audio_peak_threshold");
    reveal_strlit("audio_hold_secs");
    reveal_strlit("audio_ignore");
    reveal_strlit("net_enabled");
    reveal_strlit("net_threshold_kbps");
    reveal_strlit("net_min_consecutive_tick");
    reveal_strlit("proc_enabled");
    reveal_strlit("proc_cpu_percent_1core");
    reveal_strlit("proc_busy_when_cpu");
    reveal_strlit("dl_enabled");
    reveal_strlit("dl_processes");
    reveal_strlit("dl_io_kbps");
    reveal_strlit("dl_tcp_conns");
    reveal_strlit("hint_enabled");
    reveal_strlit("hint_ttl_secs");
}

/// Whatever a file says, every number is in the range in which it makes sense: the
/// fast poll is no slower than the full one, and no threshold is met by no traffic.
pub proof fn law_settings_are_sane(es: Seq<(Seq<char>, Seq<char>)>)
    ensures
        ({
            let s = config::settings_of(es);
            &&& 1 <= s.poll_interval_secs <= 3600
            &&& s.fast_poll_secs <= s.poll_interval_secs
            &&& s.grace_secs <= 3600
            &&& 1 <= s.audio_hold_secs <= 600
            &&& s.net_threshold_kbps >= 1
            &&& 1 <= s.net_min_consecutive_tick <= 100
            &&& s.dl_io_kbps >= 1
            &&& 1 <= s.dl_tcp_conns <= 10000
            &&& s.hint_ttl_secs >= 10
            &&& s.policy_ac == "system"@ || s.policy_ac == "display"@
            &&& s.policy_dc == "system"@ || s.policy_dc == "display"@
        }),
{
}

} // verus!
