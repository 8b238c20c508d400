//! What holds of single lines of the configuration.
use vstd::prelude::*;

use crate::config;
use crate::config_laws;
use crate::text;

verus! {

/// A line sets its key to what stands behind the equals sign, without the comment.
pub proof fn law_a_line_sets_its_key(key: Seq<char>, value: Seq<char>, comment: Seq<char>)
    requires
        config_laws::writable_key(key),
        config_laws::writable_value(value),
        comment.len() > 0,
        !text::is_white(comment.last()),
    ensures
        config::entry_of(key + seq![' ', '=', ' '] + value) == Some((key, value)),
        config::entry_of(key + seq![' ', '=', ' '] + value + (seq![' ', ' ', ' ', '#'] + comment))
            == Some((key, value)),
        config::entry_of(key + seq![' ', '=', ' '] + value + (seq![' ', ' ', ' ', ';'] + comment))
            == Some((key, value)),
{
    let line = config::setting_line(key, value);
    config_laws::lemma_setting_line(key, value, Seq::empty());
    assert(line + Seq::<char>::empty() == line);
    let (a, b) = (seq![' ', ' ', ' ', '#'] + comment, seq![' ', ' ', ' ', ';'] + comment);
    assert(a.take(3) == seq![' ', ' ', ' '] && b.take(3) == seq![' ', ' ', ' ']);
    assert(a.last() == comment.last() && b.last() == comment.last());
    config_laws::lemma_setting_line(key, value, a);
    config_laws::lemma_setting_line(key, value, b);
}

/// Comments and lines without an equals sign set nothing.
pub proof fn law_other_lines_set_nothing(rest: Seq<char>, line: Seq<char>)
    ensures
        config::entry_of(seq!['#'] + rest) is None,
        config::entry_of(seq![';'] + rest) is None,
        (forall|i: int| 0 <= i < line.len() ==> #[trigger] line[i] != '=') ==> config::entry_of(
            line,
        ) is None,
{
    let (a, b) = (seq!['#'] + rest, seq![';'] + rest);
    text::lemma_trim_start_unique(a, 0);
    text::lemma_trim_start_unique(b, 0);
    assert(a.skip(0) == a && b.skip(0) == b);
    text::lemma_trim_end(a);
    text::lemma_trim_end(b);
    if text::trim(a).len() > 0 {
        assert(text::trim(a)[0] == a[0]);
    }
    if text::trim(b).len() > 0 {
        assert(text::trim(b)[0] == b[0]);
    }
    if forall|i: int| 0 <= i < line.len() ==> #[trigger] line[i] != '=' {
        let u = text::trim_start(line);
        let t = text::trim(line);
        text::lemma_trim_start(line);
        text::lemma_trim_end(u);
        text::lemma_find(t, '=');
        let k = text::find(t, '=');
        if k < t.len() {
            assert(t[k] == u[k]);
            assert(u[k] == line[line.len() - u.len() + k]);
        }
    }
}

/// Changing the value of a setting leaves the comment behind it.
#[verifier::spinoff_prover]
#[verifier::rlimit(60)]
pub proof fn law_rewriting_keeps_the_comment(
    ls: Seq<Seq<char>>,
    key: Seq<char>,
    old: Seq<char>,
    value: Seq<char>,
    comment: Seq<char>,
    i: int,
)
    requires
        0 <= i < ls.len(),
        i == config::first_setting(ls, key),
        config_laws::writable_key(key),
        key.len() > 0,
        config_laws::writable_value(old),
        comment.len() > 0,
        !text::is_white(comment.last()),
        ls[i] == key + seq![' ', '=', ' '] + old + (seq![' ', ' ', ' ', '#'] + comment),
    ensures
        config::rewritten(ls, key, value)[i] == key + seq![' ', '=', ' '] + value + (seq![
            ' ',
            ' ',
            ' ',
            '#',
        ] + comment),
{
    let line = ls[i];
    let c = seq![' ', ' ', ' ', '#'] + comment;
    let at = key.len() as int + 1;
    text::lemma_trim_start(key);
    text::lemma_trim_end(text::trim_start(key));
    assert(!text::is_white(key[0])) by {
        if text::is_white(key[0]) {
            assert(text::trim_start(key).len() <= key.drop_first().len()) by {
                text::lemma_trim_start(key.drop_first());
            }
        }
    }
    assert(line[0] == key[0]);
    text::lemma_trim_start_unique(line, 0);
    assert(line.skip(0) == line);
    assert(line.last() == comment.last());
    text::lemma_trim_end_unique(line, line.len() as int);
    assert(line.take(line.len() as int) == line);
    assert(text::trim(line) == line);
    assert forall|j: int| 0 <= j < at implies #[trigger] line[j] != '=' by {
        if j < key.len() {
            assert(line[j] == key[j]);
            assert(key.contains(key[j]));
        }
    }
    assert(line[at] == '=');
    text::lemma_find_unique(line, '=', at);
    let tail = line.skip(at + 1);
    assert(tail == seq![' '] + old + c);
    let k = (old.len() + 4) as int;
    assert forall|j: int| 0 <= j < k implies #[trigger] tail[j] != '#' && tail[j] != ';' by {
        if 1 <= j < 1 + old.len() {
            assert(tail[j] == old[j - 1]);
            assert(old.contains(old[j - 1]));
        }
    }
    assert(tail[k] == '#');
    text::lemma_find_unique(tail, '#', k);
    text::lemma_find(tail, ';');
    let s = tail.skip(k);
    assert(s == seq!['#'] + comment);
    assert(s.last() == comment.last());
    text::lemma_trim_end_unique(s, s.len() as int);
    assert(s.take(s.len() as int) == s);
    assert(seq![' ', ' ', ' '] + s == c);
}

/// The first line that sets a key is the one that is rewritten.
pub proof fn law_the_first_setting_is_rewritten(
    ls: Seq<Seq<char>>,
    key: Seq<char>,
    value: Seq<char>,
    i: int,
)
    requires
        0 <= i <= ls.len(),
        forall|j: int|
            0 <= j < i ==> (config::entry_of(#[trigger] ls[j]) is None || (config::entry_of(
                ls[j],
            )->0).0 != key),
        i < ls.len() ==> config::entry_of(ls[i]) is Some && (config::entry_of(ls[i])->0).0 == key,
    ensures
        config::first_setting(ls, key) == i,
        i == ls.len() ==> config::rewritten(ls, key, value) == ls.push(
            key + seq![' ', '=', ' '] + value,
        ),
    decreases i,
{
    if i > 0 {
        let rest = ls.drop_first();
        assert(!config::sets(ls[0], key));
        assert forall|j: int| 0 <= j < i - 1 implies (config::entry_of(#[trigger] rest[j]) is None
            || (config::entry_of(rest[j])->0).0 != key) by {
            assert(rest[j] == ls[j + 1]);
        }
        law_the_first_setting_is_rewritten(rest, key, value, i - 1);
    }
}

/// The blank characters are those that Unicode calls white space.
pub proof fn law_white_space(c: char)
    ensures
        text::is_white(c) <==> {
            ||| c == ' ' || c == '\t' || c == '\n' || c == '\r'
            ||| c as u32 == 0x0B || c as u32 == 0x0C
            ||| c == '\u{85}' || c == '\u{A0}' || c == '\u{1680}'
            ||| '\u{2000}' <= c <= '\u{200A}'
            ||| c == '\u{2028}' || c == '\u{2029}' || c == '\u{202F}'
            ||| c == '\u{205F}' || c == '\u{3000}'
        },
{
}

/// Trimming cuts the white space at both ends and nothing else.
pub proof fn law_trimming_cuts_white_space(a: Seq<char>, s: Seq<char>, b: Seq<char>)
    requires
        forall|i: int| 0 <= i < a.len() ==> text::is_white(#[trigger] a[i]),
        forall|i: int| 0 <= i < b.len() ==> text::is_white(#[trigger] b[i]),
        s.len() > 0,
        !text::is_white(s.first()),
        !text::is_white(s.last()),
    ensures
        text::trim(a + s + b) == s,
        text::trim(a).len() == 0,
{
    let w = a + s + b;
    assert(w[a.len() as int] == s.first());
    text::lemma_trim_start_unique(w, a.len() as int);
    let u = w.skip(a.len() as int);
    assert(u == s + b);
    assert(u[s.len() - 1] == s.last());
    assert forall|j: int| s.len() <= j < u.len() implies text::is_white(#[trigger] u[j]) by {
        assert(u[j] == b[j - s.len()]);
    }
    text::lemma_trim_end_unique(u, s.len() as int);
    assert(u.take(s.len() as int) == s);
    text::lemma_trim_start_unique(a, a.len() as int);
}

/// A key that is added brings the comments right above it along.
pub proof fn law_added_keys_bring_their_comments(
    ls: Seq<Seq<char>>,
    es: Seq<(Seq<char>, Seq<char>)>,
    n: int,
)
    requires
        0 <= n < ls.len(),
        config::entry_of(ls[n]) is Some,
        !config::has_key(es, (config::entry_of(ls[n])->0).0),
    ensures
        ({
            let added = config::lacking_lines(ls, es, n + 1);
            &&& added.len() > 0 && added.last() == ls[n]
            &&& n > 0 && config::explains(ls[n - 1]) ==> added.len() > 1 && added[added.len() - 2]
                == ls[n - 1]
            &&& n == 0 || !config::explains(ls[n - 1]) ==> added == config::lacking_lines(
                ls,
                es,
                n,
            ).push(ls[n])
        }),
{
    let above = config::comments_above(ls, n);
    let before = config::lacking_lines(ls, es, n);
    assert(config::sets_missing(ls[n], es));
    if n > 0 && config::explains(ls[n - 1]) {
        assert(above == config::comments_above(ls, n - 1).push(ls[n - 1]));
    } else {
        assert(above.push(ls[n]) == seq![ls[n]]);
        assert(before + seq![ls[n]] == before.push(ls[n]));
    }
}

/// A line that sets a key that is there already, or none, is not added.
pub proof fn law_keys_that_are_there_are_not_added(
    ls: Seq<Seq<char>>,
    es: Seq<(Seq<char>, Seq<char>)>,
    n: int,
)
    requires
        0 <= n < ls.len(),
        config::entry_of(ls[n]) is None || config::has_key(es, (config::entry_of(ls[n])->0).0),
    ensures
        config::lacking_lines(ls, es, n + 1) == config::lacking_lines(ls, es, n),
{
}

/// The files of the program stand below the directory of the user's data, or below the
/// current one where that is not known.
pub proof fn law_the_program_has_a_directory_of_its_own(base: Seq<char>)
    requires
        base.len() > 2,
        base.last() != '\\',
        base.last() != '/',
    ensures
        config::app_dir_of(Some(base)) == base + "\\stayawake"@,
        config::app_dir_of(None) == ".\\stayawake"@,
{
    reveal_strlit("stayawake");
    reveal_strlit("\\stayawake");
    reveal_strlit(".");
    reveal_strlit(".\\stayawake");
}

/// Texts are joined with the separator between them.
pub proof fn law_joining_puts_separators_between(
    parts: Seq<Seq<char>>,
    next: Seq<char>,
    sep: Seq<char>,
)
    ensures
        text::join(Seq::empty(), sep).len() == 0,
        text::join(seq![next], sep) == next,
        parts.len() > 0 ==> text::join(parts.push(next), sep) == text::join(parts, sep) + sep
            + next,
{
    assert(parts.push(next).drop_last() == parts);
}

/// A number has no zero in front.
pub proof fn law_numbers_have_no_zero_in_front(n: nat)
    ensures
        n > 0 ==> text::dec(n)[0] != '0',
        text::dec(0) == seq!['0'],
        n < 10 ==> text::dec(n).len() == 1,
        n >= 10 ==> text::dec(n).len() == text::dec(n / 10).len() + 1,
    decreases n,
{
    if n >= 10 {
        law_numbers_have_no_zero_in_front(n / 10);
    }
}

/// Lines end at line feeds, which may have a carriage return before them; the last one may
/// go without.
pub proof fn law_lines_end_at_line_feeds(line: Seq<char>, rest: Seq<char>)
    requires
        forall|i: int| 0 <= i < line.len() ==> #[trigger] line[i] != '\n',
    ensures
        text::lines(Seq::empty()).len() == 0,
        line.len() > 0 ==> text::lines(line) == seq![line],
        line.len() == 0 || line.last() != '\r' ==> text::lines(line.push('\n') + rest) == seq![
            line,
        ] + text::lines(rest),
        text::lines(line.push('\r').push('\n') + rest) == seq![line] + text::lines(rest),
{
    let n = line.len() as int;
    let a = line.push('\n') + rest;
    text::lemma_find_unique(a, '\n', n);
    assert(a.take(n) == line && a.skip(n + 1) == rest);
    let b = line.push('\r').push('\n') + rest;
    assert forall|j: int| 0 <= j < n + 1 implies #[trigger] b[j] != '\n' by {
        if j < n {
            assert(b[j] == line[j]);
        }
    }
    text::lemma_find_unique(b, '\n', n + 1);
    assert(b.take(n + 1) == line.push('\r') && b.skip(n + 2) == rest);
    assert(line.push('\r').drop_last() == line);
    text::lemma_find(line, '\n');
    if text::find(line, '\n') < n {
        assert(line[text::find(line, '\n')] == '\n');
    }
}

} // verus!
