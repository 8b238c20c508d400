//! What holds of the settings that a file gives.
use vstd::prelude::*;

use crate::big;
use crate::config;
use crate::config::Settings;
use crate::double;
use crate::double::{Double, Number};
use crate::fixed;
use crate::text;
use crate::warnings;

verus! {

// ───────────────────────── one setting ─────────────────────────

/// Whether a whole number is what the file sets for its key: taken as it stands within the
/// range, brought to the nearer end of it from outside, and the default where the value is
/// no number.
pub open spec fn taken(
    es: Seq<(Seq<char>, Seq<char>)>,
    key: Seq<char>,
    default: u64,
    low: u64,
    high: u64,
    used: u64,
) -> bool {
    match text::parse_u64(config::lookup(es, key)) {
        Some(n) => {
            &&& low <= n <= high ==> used == n
            &&& n < low ==> used == low
            &&& n > high ==> used == high
        },
        None => used == default,
    }
}

/// Whether a switch is what the file sets for its key.
pub open spec fn switched(
    es: Seq<(Seq<char>, Seq<char>)>,
    key: Seq<char>,
    default: bool,
    used: bool,
) -> bool {
    let v = config::lookup(es, key);
    let yes = spelt(v, "true"@) || spelt(v, "1"@) || spelt(v, "yes"@) || spelt(v, "on"@);
    let no = spelt(v, "false"@) || spelt(v, "0"@) || spelt(v, "no"@) || spelt(v, "off"@);
    &&& yes ==> used
    &&& no ==> !used
    &&& !yes && !no ==> used == default
}

/// Whether a value is a word, in any case.
pub open spec fn spelt(v: Seq<char>, word: Seq<char>) -> bool {
    text::same_ignoring_case(v, word)
}

/// Whether a policy is what the file sets for its key.
pub open spec fn ruled(
    es: Seq<(Seq<char>, Seq<char>)>,
    key: Seq<char>,
    default: Seq<char>,
    used: Seq<char>,
) -> bool {
    let v = config::lookup(es, key);
    &&& spelt(v, "system"@) ==> used == "system"@
    &&& spelt(v, "display"@) ==> used == "display"@
    &&& !spelt(v, "system"@) && !spelt(v, "display"@) ==> used == default
}

/// Whether a number is what the file sets for its key.
pub open spec fn read_as(
    es: Seq<(Seq<char>, Seq<char>)>,
    key: Seq<char>,
    default: Double,
    used: Number,
) -> bool {
    match fixed::parse_number(config::lookup(es, key)) {
        Some(n) => used == n,
        None => used == (Number::Signed { negative: false, size: default }),
    }
}

proof fn lemma_words_are_lower()
    ensures
        text::lower("true"@) == "true"@,
        text::lower("1"@) == "1"@,
        text::lower("yes"@) == "yes"@,
        text::lower("on"@) == "on"@,
        text::lower("false"@) == "false"@,
        text::lower("0"@) == "0"@,
        text::lower("no"@) == "no"@,
        text::lower("off"@) == "off"@,
        text::lower("system"@) == "system"@,
        text::lower("display"@) == "display"@,
{
    reveal_strlit("true");
    reveal_strlit("1");
    reveal_strlit("yes");
    reveal_strlit("on");
    reveal_strlit("false");
    reveal_strlit("0");
    reveal_strlit("no");
    reveal_strlit("off");
    reveal_strlit("system");
    reveal_strlit("display");
    assert(text::lower("true"@) == "true"@);
    assert(text::lower("1"@) == "1"@);
    assert(text::lower("yes"@) == "yes"@);
    assert(text::lower("on"@) == "on"@);
    assert(text::lower("false"@) == "false"@);
    assert(text::lower("0"@) == "0"@);
    assert(text::lower("no"@) == "no"@);
    assert(text::lower("off"@) == "off"@);
    assert(text::lower("system"@) == "system"@);
    assert(text::lower("display"@) == "display"@);
}

proof fn lemma_words_differ()
    ensures
        "true"@ != "false"@,
        "true"@ != "0"@,
        "true"@ != "no"@,
        "true"@ != "off"@,
        "1"@ != "false"@,
        "1"@ != "0"@,
        "1"@ != "no"@,
        "1"@ != "off"@,
        "yes"@ != "false"@,
        "yes"@ != "0"@,
        "yes"@ != "no"@,
        "yes"@ != "off"@,
        "on"@ != "false"@,
        "on"@ != "0"@,
        "on"@ != "no"@,
        "on"@ != "off"@,
        "system"@ != "display"@,
{
    reveal_strlit("true");
    reveal_strlit("1");
    reveal_strlit("yes");
    reveal_strlit("on");
    reveal_strlit("false");
    reveal_strlit("0");
    reveal_strlit("no");
    reveal_strlit("off");
    reveal_strlit("system");
    reveal_strlit("display");
    assert("1"@[0] == '1' && "0"@[0] == '0');
    assert("yes"@[0] == 'y' && "off"@[0] == 'o');
    assert("on"@[0] == 'o' && "no"@[0] == 'n');
    assert("true"@.len() == 4 && "1"@.len() == 1 && "yes"@.len() == 3 && "on"@.len() == 2
        && "false"@.len() == 5 && "0"@.len() == 1 && "no"@.len() == 2 && "off"@.len() == 3
        && "system"@.len() == 6 && "display"@.len() == 7);
}

// ───────────────────────── all settings ─────────────────────────

/// Every whole number is taken from its own key, within its own range. The interval of
/// quick looks is taken up to that of full rounds, and zero, which means none, stays zero.
pub proof fn law_numbers_are_taken_from_their_keys(es: Seq<(Seq<char>, Seq<char>)>)
    ensures
        ({
            let s = config::settings_of(es);
            let max = u64::MAX;
            &&& taken(es, "poll_interval_secs"@, 15, 1, 3600, s.poll_interval_secs)
            &&& taken(es, "grace_secs"@, 90, 0, 3600, s.grace_secs)
            &&& taken(es, "audio_hold_secs"@, 20, 1, 600, s.audio_hold_secs)
            &&& taken(es, "net_threshold_kbps"@, 1024, 1, max, s.net_threshold_kbps)
            &&& taken(
                es,
                "net_min_consecutive_tick"@,
                2,
                1,
                100,
                s.net_min_consecutive_tick as u64,
            )
            &&& taken(es, "dl_io_kbps"@, 50, 1, max, s.dl_io_kbps)
            &&& taken(es, "dl_tcp_conns"@, 4, 1, 10000, s.dl_tcp_conns as u64)
            &&& taken(es, "hint_ttl_secs"@, 60, 10, max, s.hint_ttl_secs)
            &&& match text::parse_u64(config::lookup(es, "fast_poll_secs"@)) {
                Some(n) => {
                    &&& n <= s.poll_interval_secs ==> s.fast_poll_secs == n
                    &&& n > s.poll_interval_secs ==> s.fast_poll_secs == s.poll_interval_secs
                },
                None => s.fast_poll_secs == 2 || (s.poll_interval_secs < 2 && s.fast_poll_secs
                    == s.poll_interval_secs),
            }
        }),
{
}

/// Every switch is taken from its own key: four words mean yes and four no, in any case.
pub proof fn law_switches_are_taken_from_their_keys(es: Seq<(Seq<char>, Seq<char>)>)
    ensures
        ({
            let s = config::settings_of(es);
            &&& switched(es, "never_wake_display"@, true, s.never_wake_display)
            &&& switched(es, "sleep_on_release"@, false, s.sleep_on_release)
            &&& switched(es, "audio_enabled"@, true, s.audio_enabled)
            &&& switched(es, "net_enabled"@, true, s.net_enabled)
            &&& switched(es, "proc_enabled"@, true, s.proc_enabled)
            &&& switched(es, "dl_enabled"@, true, s.dl_enabled)
            &&& switched(es, "hint_enabled"@, true, s.hint_enabled)
        }),
{
    lemma_words_are_lower();
    lemma_words_differ();
}

/// The policies are taken from their own keys: `system` or `display` in any case, and the
/// defaults of the two power sources otherwise.
pub proof fn law_policies_are_taken_from_their_keys(es: Seq<(Seq<char>, Seq<char>)>)
    ensures
        ({
            let s = config::settings_of(es);
            &&& ruled(es, "policy_ac"@, "system"@, s.policy_ac)
            &&& ruled(es, "policy_dc"@, "display"@, s.policy_dc)
        }),
{
    lemma_words_are_lower();
    lemma_words_differ();
}

/// The fractions and the lists are taken from their own keys.
pub proof fn law_fractions_and_lists_are_taken_from_their_keys(es: Seq<(Seq<char>, Seq<char>)>)
    ensures
        ({
            let s = config::settings_of(es);
            &&& read_as(
                es,
                "audio_peak_threshold"@,
                double::rounded(1, 10_000),
                s.audio_peak_threshold,
            )
            &&& read_as(
                es,
                "proc_cpu_percent_1core"@,
                double::rounded(5, 1),
                s.proc_cpu_percent_1core,
            )
            &&& s.audio_ignore == config::parse_list(config::lookup(es, "audio_ignore"@))
            &&& s.proc_busy_when_cpu == config::parse_list(
                config::lookup(es, "proc_busy_when_cpu"@),
            )
            &&& s.dl_processes == config::parse_list(config::lookup(es, "dl_processes"@))
        }),
{
}

/// Settings depend on the values of their keys alone: two files that give each key the same
/// value give the same settings.
pub proof fn law_settings_depend_on_the_values(
    a: Seq<(Seq<char>, Seq<char>)>,
    b: Seq<(Seq<char>, Seq<char>)>,
)
    requires
        forall|key: Seq<char>| #[trigger] config::lookup(a, key) == config::lookup(b, key),
    ensures
        config::settings_of(a) == config::settings_of(b),
{
}

// ───────────────────────── values ─────────────────────────

/// Of the entries with a key the first counts, and without one the value is empty.
pub proof fn law_the_first_entry_counts(
    es: Seq<(Seq<char>, Seq<char>)>,
    key: Seq<char>,
    i: int,
)
    requires
        0 <= i <= es.len(),
        forall|j: int| 0 <= j < i ==> (#[trigger] es[j]).0 != key,
        i < es.len() ==> es[i].0 == key,
    ensures
        i < es.len() ==> config::lookup(es, key) == es[i].1,
        i == es.len() ==> config::lookup(es, key).len() == 0,
{
    config::lemma_lookup_skips(es, key, i);
    if i < es.len() {
        assert(es.skip(i).first() == es[i]);
    } else {
        assert(es.skip(i).len() == 0);
    }
}

/// A list is read piece by piece: what stands before a comma, without white space around
/// it, is a name unless it is blank, and then follows the rest.
pub proof fn law_lists_are_read_piece_by_piece(head: Seq<char>, rest: Seq<char>)
    requires
        forall|i: int| 0 <= i < head.len() ==> #[trigger] head[i] != ',',
    ensures
        text::trim(head).len() > 0 ==> config::parse_list(head.push(',') + rest) == seq![
            text::trim(head),
        ] + config::parse_list(rest),
        text::trim(head).len() == 0 ==> config::parse_list(head.push(',') + rest)
            == config::parse_list(rest),
        text::trim(head).len() > 0 ==> config::parse_list(head) == seq![text::trim(head)],
        text::trim(head).len() == 0 ==> config::parse_list(head).len() == 0,
{
    let all = head.push(',') + rest;
    let n = head.len() as int;
    assert forall|j: int| 0 <= j < n implies #[trigger] all[j] != ',' by {
        assert(all[j] == head[j]);
    }
    text::lemma_find_unique(all, ',', n);
    assert(all.take(n) == head);
    assert(all.skip(n + 1) == rest);
    text::lemma_find_unique(head, ',', n);
    assert(head.take(n) == head);
    assert(Seq::<Seq<char>>::empty() + config::parse_list(rest) == config::parse_list(rest));
}

/// Only digits make a number, with or without a plus in front, and every run of digits that
/// is in range makes the number that it stands for.
pub proof fn law_whole_numbers_are_digits(s: Seq<char>)
    requires
        s.len() > 0,
    ensures
        text::all_digits(s) && text::value(s) <= u64::MAX ==> text::parse_u64(s) == Some(
            text::value(s) as u64,
        ),
        text::all_digits(s) && text::value(s) <= u64::MAX ==> text::parse_u64(seq!['+'] + s)
            == Some(text::value(s) as u64),
        text::all_digits(s) && text::value(s) > u64::MAX ==> text::parse_u64(s) is None,
        !text::all_digits(s) && s[0] != '+' ==> text::parse_u64(s) is None,
        !text::all_digits(s) ==> text::parse_u64(seq!['+'] + s) is None,
        text::parse_u64(Seq::empty()) is None,
{
    let plus = seq!['+'] + s;
    assert(plus.skip(1) == s);
    if text::all_digits(s) {
        assert(text::is_digit(s[0]));
    }
}

/// Each digit counts ten times as much as the one behind it.
pub proof fn law_digits_count_by_their_place(s: Seq<char>, d: nat)
    requires
        d < 10,
    ensures
        text::value(s.push(text::digit_char(d))) == 10 * text::value(s) + d,
        text::value(Seq::empty()) == 0,
{
    let t = s.push(text::digit_char(d));
    assert(t.drop_last() == s);
    assert(t.last() == text::digit_char(d));
}

/// A character of a number without an exponent.
spec fn plain(c: char) -> bool {
    text::is_digit(c) || c == '.'
}

proof fn lemma_exponent_at(m: Seq<char>, s: Seq<char>)
    requires
        forall|i: int| 0 <= i < m.len() ==> plain(#[trigger] m[i]),
        m.len() <= s.len(),
        s.take(m.len() as int) == m,
        m.len() == s.len() || s[m.len() as int] == 'e' || s[m.len() as int] == 'E',
    ensures
        fixed::exponent_at(s) == m.len(),
        fixed::mantissa(s) == m,
{
    let low = text::lower(s);
    assert forall|j: int| 0 <= j < m.len() implies #[trigger] low[j] != 'e' by {
        assert(s[j] == m[j]);
        assert(plain(m[j]));
    }
    if m.len() < s.len() {
        assert(low[m.len() as int] == 'e');
    }
    text::lemma_find_unique(low, 'e', m.len() as int);
}

proof fn lemma_no_word(s: Seq<char>)
    requires
        s.len() > 0,
        plain(s[0]),
    ensures
        !fixed::is_infinity(s),
        !fixed::is_nan(s),
        !fixed::is_sign(s),
{
    reveal_strlit("inf");
    reveal_strlit("infinity");
    reveal_strlit("nan");
    assert("inf"@[0] == 'i' && "infinity"@[0] == 'i' && "nan"@[0] == 'n');
    assert(text::lower(s)[0] == text::lower_char(s[0]));
}

proof fn lemma_point(whole: Seq<char>, fraction: Seq<char>)
    requires
        text::all_digits(whole),
    ensures
        text::find(whole, '.') == whole.len(),
        text::find(whole.push('.') + fraction, '.') == whole.len(),
{
    let n = whole.len() as int;
    let all = whole.push('.') + fraction;
    assert forall|j: int| 0 <= j < n implies #[trigger] whole[j] != '.' by {
        assert(text::is_digit(whole[j]));
    }
    assert forall|j: int| 0 <= j < n implies #[trigger] all[j] != '.' by {
        assert(all[j] == whole[j]);
    }
    assert(all[n] == '.');
    text::lemma_find_unique(whole, '.', n);
    text::lemma_find_unique(all, '.', n);
}

/// Digits with a point among or beside them are read as the double nearest to what they
/// stand for.
pub proof fn law_fractions_are_read(whole: Seq<char>, fraction: Seq<char>)
    requires
        text::all_digits(whole),
        text::all_digits(fraction),
        whole.len() + fraction.len() > 0,
    ensures
        fixed::parse_number(whole.push('.') + fraction) == Some(
            (Number::Signed {
                negative: false,
                size: double::rounded(
                    text::value(whole + fraction),
                    big::ten(fraction.len()),
                ),
            }),
        ),
{
    let s = whole.push('.') + fraction;
    let n = whole.len() as int;
    assert forall|i: int| 0 <= i < s.len() implies plain(#[trigger] s[i]) by {
        if i < n {
            assert(s[i] == whole[i]);
            assert(text::is_digit(whole[i]));
        } else if i > n {
            assert(s[i] == fraction[i - n - 1]);
            assert(text::is_digit(fraction[i - n - 1]));
        }
    }
    assert(s.take(s.len() as int) == s);
    lemma_exponent_at(s, s);
    assert(plain(s[0]));
    lemma_no_word(s);
    lemma_point(whole, fraction);
    assert(s.take(n) == whole);
    assert(s.skip(n + 1) == fraction);
    if fraction.len() == 0 {
        let v = text::value(whole + fraction);
        assert(v * big::ten(0) == v) by (nonlinear_arith)
            requires
                big::ten(0) == 1,
        ;
    }
}

/// Digits alone are read as the double nearest to what they stand for.
pub proof fn law_digits_are_read(whole: Seq<char>)
    requires
        text::all_digits(whole),
        whole.len() > 0,
    ensures
        fixed::parse_number(whole) == Some(
            (Number::Signed { negative: false, size: double::rounded(text::value(whole), 1) }),
        ),
{
    assert forall|i: int| 0 <= i < whole.len() implies plain(#[trigger] whole[i]) by {
        assert(text::is_digit(whole[i]));
    }
    assert(whole.take(whole.len() as int) == whole);
    lemma_exponent_at(whole, whole);
    assert(plain(whole[0]));
    lemma_no_word(whole);
    lemma_point(whole, Seq::empty());
    assert(whole + Seq::<char>::empty() == whole);
    let v = text::value(whole);
    assert(v * big::ten(0) == v) by (nonlinear_arith)
        requires
            big::ten(0) == 1,
    ;
}

/// An exponent moves the point: to the right by its digits, and to the left where they
/// follow a minus.
pub proof fn law_exponents_move_the_point(whole: Seq<char>, digits: Seq<char>)
    requires
        text::all_digits(whole),
        whole.len() > 0,
        text::all_digits(digits),
        digits.len() > 0,
    ensures
        fixed::parse_number(whole.push('e') + digits) == Some(
            (Number::Signed {
                negative: false,
                size: double::rounded(text::value(whole) * big::ten(text::value(digits)), 1),
            }),
        ),
        text::value(digits) > 0 ==> fixed::parse_number(whole.push('e').push('-') + digits)
            == Some(
            (Number::Signed {
                negative: false,
                size: double::rounded(text::value(whole), big::ten(text::value(digits))),
            }),
        ),
{
    let n = whole.len() as int;
    assert forall|i: int| 0 <= i < n implies plain(#[trigger] whole[i]) by {
        assert(text::is_digit(whole[i]));
    }
    lemma_point(whole, Seq::empty());
    assert(whole + Seq::<char>::empty() == whole);
    assert(text::is_digit(digits[0]));
    let up = whole.push('e') + digits;
    assert(up.take(n) == whole);
    assert(up[n] == 'e');
    lemma_exponent_at(whole, up);
    assert(up[0] == whole[0] && plain(whole[0]));
    lemma_no_word(up);
    assert(up.skip(n + 1) == digits);
    assert(whole.take(n) == whole);
    let down = whole.push('e').push('-') + digits;
    assert(down.take(n) == whole);
    assert(down[n] == 'e');
    lemma_exponent_at(whole, down);
    assert(down[0] == whole[0]);
    lemma_no_word(down);
    let tail = down.skip(n + 1);
    assert(tail == seq!['-'] + digits);
    assert(tail.skip(1) == digits);
}

/// A number may have a point and an exponent, which is written in either case and may have
/// a plus.
pub proof fn law_points_and_exponents_go_together(
    whole: Seq<char>,
    fraction: Seq<char>,
    mark: Seq<char>,
    digits: Seq<char>,
)
    requires
        text::all_digits(whole),
        text::all_digits(fraction),
        text::all_digits(digits),
        whole.len() + fraction.len() > 0,
        digits.len() > 0,
        mark == seq!['e'] || mark == seq!['E'] || mark == seq!['e', '+'] || mark == seq!['E', '+'],
    ensures
        ({
            let s = whole.push('.') + fraction + mark + digits;
            let v = text::value(whole + fraction);
            let (e, f) = (text::value(digits), fraction.len());
            &&& e >= f ==> fixed::parse_number(s) == Some(
                (Number::Signed {
                    negative: false,
                    size: double::rounded(v * big::ten((e - f) as nat), 1),
                }),
            )
            &&& e < f ==> fixed::parse_number(s) == Some(
                (Number::Signed {
                    negative: false,
                    size: double::rounded(v, big::ten((f - e) as nat)),
                }),
            )
        }),
{
    let m = whole.push('.') + fraction;
    let s = m + mark + digits;
    let n = whole.len() as int;
    assert forall|i: int| 0 <= i < m.len() implies plain(#[trigger] m[i]) by {
        if i < n {
            assert(m[i] == whole[i]);
            assert(text::is_digit(whole[i]));
        } else if i > n {
            assert(m[i] == fraction[i - n - 1]);
            assert(text::is_digit(fraction[i - n - 1]));
        }
    }
    assert(s.take(m.len() as int) == m);
    assert(s[m.len() as int] == mark[0]);
    lemma_exponent_at(m, s);
    assert(s[0] == m[0] && plain(m[0]));
    lemma_no_word(s);
    lemma_point(whole, fraction);
    assert(m.take(n) == whole);
    assert(m.skip(n + 1) == fraction);
    assert(text::is_digit(digits[0]));
    let tail = s.skip(m.len() as int + 1);
    if mark.len() == 1 {
        assert(tail == digits);
    } else {
        assert(tail == seq!['+'] + digits);
        assert(tail.skip(1) == digits);
    }
}

/// A text with a character that no number has is none.
pub proof fn law_other_texts_are_no_numbers(s: Seq<char>, i: int)
    requires
        0 <= i < s.len(),
        !text::is_digit(s[i]),
        s[i] != '.',
        s[i] != '+',
        s[i] != '-',
        text::lower_char(s[i]) != 'e',
        !fixed::is_infinity(fixed::unsigned(s)),
        !fixed::is_nan(fixed::unsigned(s)),
    ensures
        fixed::parse_number(s) is None,
{
    let b = fixed::unsigned(s);
    let j = i - (s.len() - b.len());
    assert(0 <= j < b.len() && b[j] == s[i]);
    if fixed::is_decimal(b) {
        let low = text::lower(b);
        let k = fixed::exponent_at(b);
        text::lemma_find(low, 'e');
        let m = fixed::mantissa(b);
        let p = text::find(m, '.');
        text::lemma_find(m, '.');
        if j < k {
            assert(m[j] == b[j]);
            if j < p {
                assert(fixed::whole_digits(b)[j] == b[j]);
            } else if j > p {
                assert(fixed::fraction_digits(b)[j - p - 1] == b[j]);
            }
        } else if j == k {
            assert(low[k] == 'e');
            assert(low[k] == text::lower_char(b[k]));
        } else {
            let t = b.skip(k + 1);
            assert(t[j - k - 1] == b[j]);
            let d = fixed::exponent_digits(b);
            assert(d[j - k - 1 - (t.len() - d.len())] == b[j]);
        }
    }
}

/// A minus in front makes a number negative, a plus changes nothing, and two signs make
/// none. Infinity and what is not a number have their names, in any case.
pub proof fn law_signs_are_read(s: Seq<char>)
    requires
        s.len() > 0,
        s[0] != '+',
        s[0] != '-',
    ensures
        fixed::parse_number(seq!['+'] + s) == fixed::parse_number(s),
        fixed::parse_number(seq!['-'] + s) == (match fixed::parse_number(s) {
            Some(n) => match n {
                Number::Signed { negative, size } => Some(Number::Signed { negative: true, size }),
                Number::Nan => Some(Number::Nan),
            },
            None => None,
        }),
        spelt(s, "inf"@) || spelt(s, "infinity"@) ==> fixed::parse_number(s) == Some(
            (Number::Signed { negative: false, size: Double::Infinite }),
        ),
        spelt(s, "nan"@) ==> fixed::parse_number(s) == Some(Number::Nan),
{
    let (p, m) = (seq!['+'] + s, seq!['-'] + s);
    assert(p.skip(1) == s);
    assert(m.skip(1) == s);
    reveal_strlit("inf");
    reveal_strlit("infinity");
    reveal_strlit("nan");
    assert(text::lower("inf"@) == "inf"@);
    assert(text::lower("infinity"@) == "infinity"@);
    assert(text::lower("nan"@) == "nan"@);
    assert("nan"@[0] == 'n' && "inf"@[0] == 'i' && "infinity"@[0] == 'i');
}

// ───────────────────────── complaints ─────────────────────────

/// A key that is not set is not complained of.
pub proof fn law_what_is_not_set_is_not_complained_of(
    es: Seq<(Seq<char>, Seq<char>)>,
    key: Seq<char>,
    n: u64,
    b: bool,
    p: Seq<char>,
)
    requires
        !config::has_key(es, key),
    ensures
        warnings::whole_complaint(es, key, n).len() == 0,
        warnings::number_complaint(es, key).len() == 0,
        warnings::switch_complaint(es, key, b).len() == 0,
        warnings::policy_complaint(es, key, p).len() == 0,
{
}

/// A key that is set is complained of, once and with what is used instead, where its value
/// is not taken as it stands, and not otherwise.
pub proof fn law_what_is_not_taken_is_complained_of(
    es: Seq<(Seq<char>, Seq<char>)>,
    key: Seq<char>,
    n: u64,
    b: bool,
    p: Seq<char>,
)
    requires
        config::has_key(es, key),
    ensures
        ({
            let v = config::lookup(es, key);
            let said = |used: Seq<char>|
                key + " = "@ + v + " 无效或超出范围, 按 "@ + used + " 处理"@;
            let word = {
                ||| spelt(v, "true"@)
                ||| spelt(v, "1"@)
                ||| spelt(v, "yes"@)
                ||| spelt(v, "on"@)
                ||| spelt(v, "false"@)
                ||| spelt(v, "0"@)
                ||| spelt(v, "no"@)
                ||| spelt(v, "off"@)
            };
            &&& text::parse_u64(v) == Some(n) ==> warnings::whole_complaint(es, key, n).len() == 0
            &&& text::parse_u64(v) != Some(n) ==> warnings::whole_complaint(es, key, n) == seq![
                said(text::dec(n as nat)),
            ]
            &&& fixed::parse_number(v) is Some ==> warnings::number_complaint(es, key).len() == 0
            &&& fixed::parse_number(v) is None ==> warnings::number_complaint(es, key) == seq![
                said("默认值"@),
            ]
            &&& word ==> warnings::switch_complaint(es, key, b).len() == 0
            &&& !word ==> warnings::switch_complaint(es, key, b) == seq![
                said(if b {
                    "true"@
                } else {
                    "false"@
                }),
            ]
            &&& spelt(v, "system"@) || spelt(v, "display"@) ==> warnings::policy_complaint(
                es,
                key,
                p,
            ).len() == 0
            &&& !spelt(v, "system"@) && !spelt(v, "display"@) ==> warnings::policy_complaint(
                es,
                key,
                p,
            ) == seq![said(p)]
        }),
{
    lemma_words_are_lower();
    lemma_words_differ();
}

/// Nothing is complained of exactly where no single key is.
pub proof fn law_all_keys_are_looked_at(es: Seq<(Seq<char>, Seq<char>)>, s: Settings)
    ensures
        warnings::warnings_of(es, s).len() == warnings::whole_complaint(
            es,
            "poll_interval_secs"@,
            s.poll_interval_secs,
        ).len() + warnings::whole_complaint(es, "fast_poll_secs"@, s.fast_poll_secs).len()
            + warnings::whole_complaint(es, "grace_secs"@, s.grace_secs).len()
            + warnings::policy_complaint(es, "policy_ac"@, s.policy_ac).len()
            + warnings::policy_complaint(es, "policy_dc"@, s.policy_dc).len()
            + warnings::switch_complaint(es, "never_wake_display"@, s.never_wake_display).len()
            + warnings::switch_complaint(es, "sleep_on_release"@, s.sleep_on_release).len()
            + warnings::switch_complaint(es, "audio_enabled"@, s.audio_enabled).len()
            + warnings::number_complaint(es, "audio_peak_threshold"@).len()
            + warnings::whole_complaint(es, "audio_hold_secs"@, s.audio_hold_secs).len()
            + warnings::switch_complaint(es, "net_enabled"@, s.net_enabled).len()
            + warnings::whole_complaint(es, "net_threshold_kbps"@, s.net_threshold_kbps).len()
            + warnings::whole_complaint(
            es,
            "net_min_consecutive_tick"@,
            s.net_min_consecutive_tick as u64,
        ).len() + warnings::switch_complaint(es, "proc_enabled"@, s.proc_enabled).len()
            + warnings::number_complaint(es, "proc_cpu_percent_1core"@).len()
            + warnings::switch_complaint(es, "dl_enabled"@, s.dl_enabled).len()
            + warnings::whole_complaint(es, "dl_io_kbps"@, s.dl_io_kbps).len()
            + warnings::whole_complaint(es, "dl_tcp_conns"@, s.dl_tcp_conns as u64).len()
            + warnings::switch_complaint(es, "hint_enabled"@, s.hint_enabled).len()
            + warnings::whole_complaint(es, "hint_ttl_secs"@, s.hint_ttl_secs).len(),
{
}

/// Whether all complaints of one kind are among those that are made.
pub open spec fn made(all: Seq<Seq<char>>, some: Seq<Seq<char>>) -> bool {
    exists|a: Seq<Seq<char>>, b: Seq<Seq<char>>| all == #[trigger] (a + some + b)
}

proof fn lemma_made_itself(some: Seq<Seq<char>>)
    ensures
        made(some, some),
{
    assert(some == Seq::<Seq<char>>::empty() + some + Seq::<Seq<char>>::empty());
}

/// What is made stays made where more is added, and what is added is made.
proof fn lemma_made_with(all: Seq<Seq<char>>, more: Seq<Seq<char>>) -> (r: Seq<Seq<char>>)
    ensures
        r == all + more,
        made(r, more),
        forall|some: Seq<Seq<char>>| #[trigger] made(all, some) ==> made(r, some),
{
    let r = all + more;
    assert(r == all + more + Seq::<Seq<char>>::empty());
    assert forall|some: Seq<Seq<char>>| #[trigger] made(all, some) implies made(r, some) by {
        let (a, b) = choose|a: Seq<Seq<char>>, b: Seq<Seq<char>>| all == #[trigger] (a + some + b);
        assert(r == a + some + (b + more));
    }
    r
}

/// What is complained of in a key is complained of in the configuration.
pub proof fn law_every_complaint_is_made(es: Seq<(Seq<char>, Seq<char>)>, s: Settings)
    ensures
        ({
            let all = warnings::warnings_of(es, s);
            &&& made(all, warnings::whole_complaint(es, "poll_interval_secs"@, s.poll_interval_secs))
            &&& made(all, warnings::whole_complaint(es, "fast_poll_secs"@, s.fast_poll_secs))
            &&& made(all, warnings::whole_complaint(es, "grace_secs"@, s.grace_secs))
            &&& made(all, warnings::policy_complaint(es, "policy_ac"@, s.policy_ac))
            &&& made(all, warnings::policy_complaint(es, "policy_dc"@, s.policy_dc))
            &&& made(
                all,
                warnings::switch_complaint(es, "never_wake_display"@, s.never_wake_display),
            )
            &&& made(all, warnings::switch_complaint(es, "sleep_on_release"@, s.sleep_on_release))
            &&& made(all, warnings::switch_complaint(es, "audio_enabled"@, s.audio_enabled))
            &&& made(all, warnings::number_complaint(es, "audio_peak_threshold"@))
            &&& made(all, warnings::whole_complaint(es, "audio_hold_secs"@, s.audio_hold_secs))
            &&& made(all, warnings::switch_complaint(es, "net_enabled"@, s.net_enabled))
            &&& made(
                all,
                warnings::whole_complaint(es, "net_threshold_kbps"@, s.net_threshold_kbps),
            )
            &&& made(
                all,
                warnings::whole_complaint(
                    es,
                    "net_min_consecutive_tick"@,
                    s.net_min_consecutive_tick as u64,
                ),
            )
            &&& made(all, warnings::switch_complaint(es, "proc_enabled"@, s.proc_enabled))
            &&& made(all, warnings::number_complaint(es, "proc_cpu_percent_1core"@))
            &&& made(all, warnings::switch_complaint(es, "dl_enabled"@, s.dl_enabled))
            &&& made(all, warnings::whole_complaint(es, "dl_io_kbps"@, s.dl_io_kbps))
            &&& made(all, warnings::whole_complaint(es, "dl_tcp_conns"@, s.dl_tcp_conns as u64))
            &&& made(all, warnings::switch_complaint(es, "hint_enabled"@, s.hint_enabled))
            &&& made(all, warnings::whole_complaint(es, "hint_ttl_secs"@, s.hint_ttl_secs))
        }),
{
    let p1 = warnings::whole_complaint(es, "poll_interval_secs"@, s.poll_interval_secs);
    lemma_made_itself(p1);
    let p2 = lemma_made_with(p1, warnings::whole_complaint(es, "fast_poll_secs"@, s.fast_poll_secs));
    let p3 = lemma_made_with(p2, warnings::whole_complaint(es, "grace_secs"@, s.grace_secs));
    let p4 = lemma_made_with(p3, warnings::policy_complaint(es, "policy_ac"@, s.policy_ac));
    let p5 = lemma_made_with(p4, warnings::policy_complaint(es, "policy_dc"@, s.policy_dc));
    let p6 = lemma_made_with(p5, warnings::switch_complaint(es, "never_wake_display"@, s.never_wake_display));
    let p7 = lemma_made_with(p6, warnings::switch_complaint(es, "sleep_on_release"@, s.sleep_on_release));
    let p8 = lemma_made_with(p7, warnings::switch_complaint(es, "audio_enabled"@, s.audio_enabled));
    let p9 = lemma_made_with(p8, warnings::number_complaint(es, "audio_peak_threshold"@));
    let p10 = lemma_made_with(p9, warnings::whole_complaint(es, "audio_hold_secs"@, s.audio_hold_secs));
    let p11 = lemma_made_with(p10, warnings::switch_complaint(es, "net_enabled"@, s.net_enabled));
    let p12 = lemma_made_with(p11, warnings::whole_complaint(es, "net_threshold_kbps"@, s.net_threshold_kbps));
    let p13 = lemma_made_with(p12, warnings::whole_complaint(es, "net_min_consecutive_tick"@, s.net_min_consecutive_tick as u64));
    let p14 = lemma_made_with(p13, warnings::switch_complaint(es, "proc_enabled"@, s.proc_enabled));
    let p15 = lemma_made_with(p14, warnings::number_complaint(es, "proc_cpu_percent_1core"@));
    let p16 = lemma_made_with(p15, warnings::switch_complaint(es, "dl_enabled"@, s.dl_enabled));
    let p17 = lemma_made_with(p16, warnings::whole_complaint(es, "dl_io_kbps"@, s.dl_io_kbps));
    let p18 = lemma_made_with(p17, warnings::whole_complaint(es, "dl_tcp_conns"@, s.dl_tcp_conns as u64));
    let p19 = lemma_made_with(p18, warnings::switch_complaint(es, "hint_enabled"@, s.hint_enabled));
    let p20 = lemma_made_with(p19, warnings::whole_complaint(es, "hint_ttl_secs"@, s.hint_ttl_secs));
}

// ───────────────────────── the file ─────────────────────────

/// A file that lacks a key keeps what it says, and what is added stands behind it; one that
/// lacks none is left as it is.
pub proof fn law_migration_keeps_the_text(source: Seq<char>)
    ensures
        ({
            let m = config::migrated(source);
            let kept = text::trim_end(source);
            &&& m == source || (m.len() >= kept.len() && m.take(kept.len() as int) == kept)
            &&& config::lacking_of(config::entries(text::lines(source))).len() == 0 ==> m == source
        }),
{
    let m = config::migrated(source);
    let kept = text::trim_end(source);
    if m != source {
        assert(m.take(kept.len() as int) == kept);
    }
}

/// A file that is not there is stored with the default text. A blank file, and one that
/// cannot be read, is left alone, and the default is in effect. Any other is in effect with
/// the missing keys added, and stored where there were any.
pub proof fn law_files_are_stored_only_where_they_must_change(found: config::Found)
    ensures
        found is Absent ==> config::text_to_store(found) == Some(config::DEFAULT_CONFIG@)
            && config::effective_text(found) == config::DEFAULT_CONFIG@,
        found is Unreadable ==> config::text_to_store(found) is None && config::effective_text(
            found,
        ) == config::DEFAULT_CONFIG@,
        found matches config::Found::Text(s) ==> {
            let blank = text::trim(s@).len() == 0;
            &&& blank ==> config::text_to_store(found) is None && config::effective_text(found)
                == config::DEFAULT_CONFIG@
            &&& !blank ==> config::effective_text(found) == config::migrated(s@)
            &&& !blank && config::migrated(s@) == s@ ==> config::text_to_store(found) is None
            &&& !blank && config::migrated(s@) != s@ ==> config::text_to_store(found) == Some(
                config::effective_text(found),
            )
        },
{
}

/// A new file that cannot be stored is reported each time; a migrated one the first time.
pub proof fn law_failures_to_store_are_reported(warned: bool, error: Seq<char>)
    ensures
        config::failure_said(false, warned, error) == Some("warn: 无法写入配置文件: "@ + error),
        config::failure_said(true, false, error) == Some("warn: 无法写入迁移后的配置: "@ + error),
        config::failure_said(true, true, error) is None,
{
}

/// A name goes below a directory with one separator between them.
pub proof fn law_names_go_below_their_directory(dir: Seq<char>, name: Seq<char>)
    ensures
        config::joined(dir.push('\\'), name) == dir.push('\\') + name,
        dir.len() > 2 && dir.last() != '\\' && dir.last() != '/' ==> config::joined(dir, name)
            == dir.push('\\') + name,
        config::joined(Seq::empty(), name) == name,
{
}

} // verus!
