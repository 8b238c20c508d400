//! Text as sequences of characters: trimming, splitting, numbers, padding.
//!
//! Parsing works on `&[char]`, so that a piece of a line is a subrange and an
//! index is a character index. Strings are taken apart once, on the way in.
use vstd::prelude::*;
use vstd::slice::slice_subrange;

verus! {

// ───────────────────────── characters ─────────────────────────

/// The characters with the Unicode property `White_Space`.
pub open spec fn is_white(c: char) -> bool {
    let u = c as u32;
    ||| 9 <= u <= 13
    ||| u == 0x20
    ||| u == 0x85
    ||| u == 0xA0
    ||| u == 0x1680
    ||| 0x2000 <= u <= 0x200A
    ||| u == 0x2028
    ||| u == 0x2029
    ||| u == 0x202F
    ||| u == 0x205F
    ||| u == 0x3000
}

pub fn white(c: char) -> (r: bool)
    ensures
        r == is_white(c),
{
    let u: u32 = c as u32;
    (9 <= u && u <= 13) || u == 0x20 || u == 0x85 || u == 0xA0 || u == 0x1680 || (0x2000 <= u && u
        <= 0x200A) || u == 0x2028 || u == 0x2029 || u == 0x202F || u == 0x205F || u == 0x3000
}

/// ASCII upper-case letters become lower case; every other character stays.
pub open spec fn lower_char(c: char) -> char {
    if 'A' <= c <= 'Z' {
        (c as u32 + 32) as u8 as char
    } else {
        c
    }
}

fn lowered(c: char) -> (r: char)
    ensures
        r == lower_char(c),
{
    if 'A' <= c && c <= 'Z' {
        (c as u8 + 32) as char
    } else {
        c
    }
}

pub open spec fn is_digit(c: char) -> bool {
    '0' <= c <= '9'
}

pub open spec fn digit_value(c: char) -> nat {
    (c as u32 - '0' as u32) as nat
}

/// The decimal digit of a number below ten.
pub open spec fn digit_char(d: nat) -> char {
    ('0' as u32 + d) as u8 as char
}

pub fn digit_of(d: u8) -> (c: char)
    requires
        d < 10,
    ensures
        c == digit_char(d as nat),
{
    (48u8 + d) as char
}

// ───────────────────────── strings and characters ─────────────────────────

/// `String::push` of the standard library: it appends the one character and
/// leaves what was there before untouched.
pub assume_specification[ String::push ](s: &mut String, c: char)
    ensures
        final(s)@ == old(s)@.push(c),
;

/// The characters of a string.
pub fn chars_of(s: &str) -> (v: Vec<char>)
    ensures
        v@ == s@,
{
    let mut v: Vec<char> = Vec::new();
    for c in it: s.chars()
        invariant
            it.seq() == s@,
            v@ == it.seq().take(it.index() as int),
    {
        v.push(c);
    }
    v
}

/// The string with the given characters.
pub fn string_of(s: &[char]) -> (r: String)
    ensures
        r@ == s@,
{
    let mut r = String::new();
    push_chars(&mut r, s);
    assert(r@ =~= s@);
    r
}

pub fn push_chars(out: &mut String, s: &[char])
    ensures
        final(out)@ == old(out)@ + s@,
{
    let mut i: usize = 0;
    while i < s.len()
        invariant
            i <= s@.len(),
            out@ == old(out)@ + s@.take(i as int),
        decreases s@.len() - i,
    {
        out.push(s[i]);
        i = i + 1;
        assert(s@.take(i as int) =~= s@.take(i - 1).push(s@[i - 1]));
    }
    assert(s@.take(i as int) =~= s@);
}

/// Whether two strings hold the same characters.
pub fn same(a: &str, b: &str) -> (r: bool)
    ensures
        r == (a@ == b@),
{
    a.to_owned() == b.to_owned()
}

/// Whether two character sequences are equal.
pub fn same_chars(a: &[char], b: &[char]) -> (r: bool)
    ensures
        r == (a@ == b@),
{
    if a.len() != b.len() {
        return false;
    }
    let mut i: usize = 0;
    while i < a.len()
        invariant
            i <= a@.len(),
            a@.len() == b@.len(),
            forall|j: int| 0 <= j < i ==> a@[j] == b@[j],
        decreases a@.len() - i,
    {
        if a[i] != b[i] {
            return false;
        }
        i = i + 1;
    }
    assert(a@ =~= b@);
    true
}

/// `s` with its ASCII letters in lower case.
pub open spec fn lower(s: Seq<char>) -> Seq<char> {
    s.map_values(|c: char| lower_char(c))
}

pub fn to_lower(s: &[char]) -> (r: Vec<char>)
    ensures
        r@ == lower(s@),
{
    let mut r: Vec<char> = Vec::new();
    let mut i: usize = 0;
    while i < s.len()
        invariant
            i <= s@.len(),
            r@.len() == i,
            forall|j: int| 0 <= j < i ==> r@[j] == lower_char(s@[j]),
        decreases s@.len() - i,
    {
        r.push(lowered(s[i]));
        i = i + 1;
    }
    assert(r@ =~= lower(s@));
    r
}

/// Equality up to the case of ASCII letters.
pub open spec fn same_ignoring_case(a: Seq<char>, b: Seq<char>) -> bool {
    lower(a) == lower(b)
}

pub fn eq_ignore_case(a: &str, b: &str) -> (r: bool)
    ensures
        r == same_ignoring_case(a@, b@),
{
    let x = to_lower(chars_of(a).as_slice());
    let y = to_lower(chars_of(b).as_slice());
    same_chars(x.as_slice(), y.as_slice())
}

// ───────────────────────── trimming ─────────────────────────

/// `s` without the white space at its end.
pub open spec fn trim_end(s: Seq<char>) -> Seq<char>
    decreases s.len(),
{
    if s.len() > 0 && is_white(s.last()) {
        trim_end(s.drop_last())
    } else {
        s
    }
}

/// `s` without the white space at its start.
pub open spec fn trim_start(s: Seq<char>) -> Seq<char>
    decreases s.len(),
{
    if s.len() > 0 && is_white(s.first()) {
        trim_start(s.drop_first())
    } else {
        s
    }
}

/// `s` without the white space at either end.
pub open spec fn trim(s: Seq<char>) -> Seq<char> {
    trim_end(trim_start(s))
}

/// `trim_end` cuts a prefix that ends in a visible character, and only white space.
pub proof fn lemma_trim_end(s: Seq<char>)
    ensures
        trim_end(s).len() <= s.len(),
        trim_end(s) == s.take(trim_end(s).len() as int),
        forall|j: int| trim_end(s).len() <= j < s.len() ==> is_white(#[trigger] s[j]),
        trim_end(s).len() > 0 ==> !is_white(trim_end(s).last()),
    decreases s.len(),
{
    if s.len() > 0 && is_white(s.last()) {
        let t = s.drop_last();
        lemma_trim_end(t);
        assert(t.take(trim_end(t).len() as int) =~= s.take(trim_end(t).len() as int));
        assert forall|j: int| trim_end(s).len() <= j < s.len() implies is_white(#[trigger] s[j]) by {
            if j < s.len() - 1 {
                assert(t[j] == s[j]);
            }
        }
    } else {
        assert(s.take(s.len() as int) =~= s);
    }
}

/// `trim_start` leaves the suffix that begins with the first visible character.
pub proof fn lemma_trim_start(s: Seq<char>)
    ensures
        trim_start(s).len() <= s.len(),
        trim_start(s) == s.skip(s.len() - trim_start(s).len()),
        forall|j: int| 0 <= j < s.len() - trim_start(s).len() ==> is_white(#[trigger] s[j]),
        trim_start(s).len() > 0 ==> !is_white(trim_start(s).first()),
    decreases s.len(),
{
    if s.len() > 0 && is_white(s.first()) {
        let t = s.drop_first();
        lemma_trim_start(t);
        let k = t.len() - trim_start(t).len();
        assert(t.skip(k) =~= s.skip(k + 1));
        assert forall|j: int| 0 <= j < s.len() - trim_start(s).len() implies is_white(
            #[trigger] s[j],
        ) by {
            if j > 0 {
                assert(t[j - 1] == s[j]);
            }
        }
    } else {
        assert(s.skip(0) =~= s);
    }
}

/// The end of the trimmed text is the only place where `trim_end` can stop.
pub proof fn lemma_trim_end_unique(s: Seq<char>, n: int)
    requires
        0 <= n <= s.len(),
        forall|j: int| n <= j < s.len() ==> is_white(#[trigger] s[j]),
        n > 0 ==> !is_white(s[n - 1]),
    ensures
        trim_end(s) == s.take(n),
{
    lemma_trim_end(s);
    let m = trim_end(s).len() as int;
    if m < n {
        assert(is_white(s[n - 1]));
    }
    if m > n {
        assert(trim_end(s).last() == s[m - 1]);
    }
}

/// The start of the trimmed text is the only place where `trim_start` can stop.
pub proof fn lemma_trim_start_unique(s: Seq<char>, n: int)
    requires
        0 <= n <= s.len(),
        forall|j: int| 0 <= j < n ==> is_white(#[trigger] s[j]),
        n < s.len() ==> !is_white(s[n]),
    ensures
        trim_start(s) == s.skip(n),
{
    lemma_trim_start(s);
    let m = s.len() - trim_start(s).len();
    if m < n {
        assert(trim_start(s).first() == s[m]);
    }
    if m > n {
        assert(is_white(s[n]));
    }
}

pub fn trimmed_end(s: &[char]) -> (r: &[char])
    ensures
        r@ == trim_end(s@),
{
    let mut n: usize = s.len();
    while n > 0 && white(s[n - 1])
        invariant
            n <= s@.len(),
            forall|j: int| n <= j < s@.len() ==> is_white(#[trigger] s@[j]),
        decreases n,
    {
        n = n - 1;
    }
    proof {
        lemma_trim_end_unique(s@, n as int);
    }
    slice_subrange(s, 0, n)
}

pub fn trimmed_start(s: &[char]) -> (r: &[char])
    ensures
        r@ == trim_start(s@),
{
    let mut n: usize = 0;
    while n < s.len() && white(s[n])
        invariant
            n <= s@.len(),
            forall|j: int| 0 <= j < n ==> is_white(#[trigger] s@[j]),
        decreases s@.len() - n,
    {
        n = n + 1;
    }
    proof {
        lemma_trim_start_unique(s@, n as int);
    }
    slice_subrange(s, n, s.len())
}

pub fn trimmed(s: &[char]) -> (r: &[char])
    ensures
        r@ == trim(s@),
{
    trimmed_end(trimmed_start(s))
}

// ───────────────────────── searching and splitting ─────────────────────────

/// The index of the first `c` in `s`, or the length of `s` where there is none.
pub open spec fn find(s: Seq<char>, c: char) -> int
    decreases s.len(),
{
    if s.len() == 0 || s.first() == c {
        0
    } else {
        1 + find(s.drop_first(), c)
    }
}

pub proof fn lemma_find(s: Seq<char>, c: char)
    ensures
        0 <= find(s, c) <= s.len(),
        forall|j: int| 0 <= j < find(s, c) ==> #[trigger] s[j] != c,
        find(s, c) < s.len() ==> s[find(s, c)] == c,
    decreases s.len(),
{
    if s.len() > 0 && s.first() != c {
        lemma_find(s.drop_first(), c);
        assert forall|j: int| 0 <= j < find(s, c) implies #[trigger] s[j] != c by {
            if j > 0 {
                assert(s.drop_first()[j - 1] == s[j]);
            }
        }
    }
}

pub proof fn lemma_find_unique(s: Seq<char>, c: char, n: int)
    requires
        0 <= n <= s.len(),
        forall|j: int| 0 <= j < n ==> #[trigger] s[j] != c,
        n < s.len() ==> s[n] == c,
    ensures
        find(s, c) == n,
{
    lemma_find(s, c);
    let m = find(s, c);
    if m < n {
        assert(s[m] != c);
    }
    if m > n {
        assert(s[n] != c);
    }
}

pub fn find_char(s: &[char], c: char) -> (r: usize)
    ensures
        r == find(s@, c),
        r <= s@.len(),
{
    let mut n: usize = 0;
    while n < s.len() && s[n] != c
        invariant
            n <= s@.len(),
            forall|j: int| 0 <= j < n ==> #[trigger] s@[j] != c,
        decreases s@.len() - n,
    {
        n = n + 1;
    }
    proof {
        lemma_find_unique(s@, c, n as int);
    }
    n
}

/// Whether `s` begins with the character `c`.
pub open spec fn starts_with_char(s: Seq<char>, c: char) -> bool {
    s.len() > 0 && s[0] == c
}

pub fn has_prefix(s: &[char], p: &[char]) -> (r: bool)
    ensures
        r == p@.is_prefix_of(s@),
{
    if p.len() > s.len() {
        return false;
    }
    let head = slice_subrange(s, 0, p.len());
    assert(head@ =~= s@.subrange(0, p@.len() as int));
    same_chars(head, p)
}

/// A line that ended in a carriage return and a line feed, without the former.
pub open spec fn strip_cr(s: Seq<char>) -> Seq<char> {
    if s.len() > 0 && s.last() == '\r' {
        s.drop_last()
    } else {
        s
    }
}

/// The lines of a text. A line ends at a line feed, which may follow a carriage
/// return; neither belongs to it. The last line need not be ended.
pub open spec fn lines(s: Seq<char>) -> Seq<Seq<char>>
    decreases s.len(),
{
    if s.len() == 0 {
        Seq::empty()
    } else {
        let k = find(s, '\n');
        if 0 <= k < s.len() {
            seq![strip_cr(s.take(k))] + lines(s.skip(k + 1))
        } else {
            seq![s]
        }
    }
}

/// The views of a vector of strings.
pub open spec fn views(v: Seq<String>) -> Seq<Seq<char>> {
    v.map_values(|s: String| s@)
}

/// The views of a vector of character vectors.
pub open spec fn char_views(v: Seq<Vec<char>>) -> Seq<Seq<char>> {
    v.map_values(|s: Vec<char>| s@)
}

pub fn lines_of(s: &[char]) -> (r: Vec<Vec<char>>)
    ensures
        char_views(r@) == lines(s@),
{
    let mut out: Vec<Vec<char>> = Vec::new();
    let mut at: usize = 0;
    assert(s@.skip(0) =~= s@);
    while at < s.len()
        invariant
            at <= s@.len(),
            char_views(out@) + lines(s@.skip(at as int)) == lines(s@),
        decreases s@.len() - at,
    {
        let rest = slice_subrange(s, at, s.len());
        let k = find_char(rest, '\n');
        let ghost before = char_views(out@);
        assert(rest@ =~= s@.skip(at as int));
        if k == rest.len() {
            out.push(vstd::slice::slice_to_vec(rest));
            assert(char_views(out@) =~= before.push(rest@));
            assert(lines(rest@) =~= seq![rest@]);
            assert(lines(s@.skip(s@.len() as int)) =~= Seq::empty());
            assert(char_views(out@) + lines(s@.skip(s@.len() as int)) =~= before + lines(rest@));
            at = s.len();
        } else {
            let end: usize = if k > 0 && rest[k - 1] == '\r' { k - 1 } else { k };
            let line = slice_subrange(rest, 0, end);
            assert(line@ =~= strip_cr(rest@.take(k as int)));
            out.push(vstd::slice::slice_to_vec(line));
            assert(char_views(out@) =~= before.push(line@));
            assert(rest@.skip(k + 1) =~= s@.skip(at + k + 1));
            assert(char_views(out@) + lines(s@.skip(at + k + 1)) =~= before + lines(rest@));
            at = at + k + 1;
        }
    }
    assert(lines(s@.skip(at as int)) =~= Seq::empty());
    assert(char_views(out@) =~= lines(s@));
    out
}

/// The parts one after the other, with `sep` between each two.
pub open spec fn join(parts: Seq<Seq<char>>, sep: Seq<char>) -> Seq<char>
    decreases parts.len(),
{
    if parts.len() == 0 {
        Seq::empty()
    } else if parts.len() == 1 {
        parts[0]
    } else {
        join(parts.drop_last(), sep) + sep + parts.last()
    }
}

pub fn join_strings(parts: &Vec<String>, sep: &str) -> (r: String)
    ensures
        r@ == join(views(parts@), sep@),
{
    let mut r = String::new();
    let mut i: usize = 0;
    while i < parts.len()
        invariant
            i <= parts@.len(),
            r@ == join(views(parts@).take(i as int), sep@),
        decreases parts@.len() - i,
    {
        let ghost done = views(parts@).take(i as int);
        let ghost next = views(parts@).take(i + 1);
        assert(next.drop_last() =~= done);
        if i > 0 {
            r.append(sep);
        }
        r.append(parts[i].as_str());
        assert(r@ =~= join(next, sep@));
        i = i + 1;
    }
    assert(views(parts@).take(i as int) =~= views(parts@));
    r
}

/// Adds one line.
pub fn push_text(to: &mut Vec<String>, line: &str)
    ensures
        views(final(to)@) == views(old(to)@).push(line@),
{
    let ghost before = to@;
    to.push(line.to_owned());
    assert(views(to@) == views(before).push(line@));
}

/// Adds lines.
pub fn move_texts(to: &mut Vec<String>, from: Vec<String>)
    ensures
        views(final(to)@) == views(old(to)@) + views(from@),
{
    let mut from = from;
    let ghost before = to@;
    let ghost added = from@;
    to.append(&mut from);
    assert(to@ == before + added);
    assert(views(to@) == views(before) + views(added));
}

// ───────────────────────── numbers ─────────────────────────

pub open spec fn all_digits(s: Seq<char>) -> bool {
    forall|i: int| 0 <= i < s.len() ==> is_digit(#[trigger] s[i])
}

/// The number that a sequence of decimal digits stands for.
pub open spec fn value(s: Seq<char>) -> nat
    decreases s.len(),
{
    if s.len() == 0 {
        0
    } else {
        10 * value(s.drop_last()) + digit_value(s.last())
    }
}

/// The decimal digits of a number, without leading zeros.
pub open spec fn dec(n: nat) -> Seq<char>
    decreases n,
{
    if n < 10 {
        seq![digit_char(n)]
    } else {
        dec(n / 10).push(digit_char(n % 10))
    }
}

/// A longer run of digits never stands for a smaller number.
pub proof fn lemma_value_grows(s: Seq<char>, n: int)
    requires
        0 <= n <= s.len(),
    ensures
        value(s.take(n)) <= value(s),
    decreases s.len() - n,
{
    if n == s.len() {
        assert(s.take(n) =~= s);
    } else {
        lemma_value_grows(s, n + 1);
        assert(s.take(n + 1).drop_last() =~= s.take(n));
    }
}

/// Reading the decimal digits of a number gives the number back.
pub proof fn law_digits_round_trip(n: nat)
    ensures
        all_digits(dec(n)),
        dec(n).len() > 0,
        value(dec(n)) == n,
    decreases n,
{
    if n < 10 {
        reveal_with_fuel(value, 2);
        assert(dec(n).drop_last() =~= Seq::empty());
    } else {
        law_digits_round_trip(n / 10);
        assert(dec(n).drop_last() =~= dec(n / 10));
    }
}

pub fn push_dec(out: &mut String, n: u128)
    ensures
        final(out)@ == old(out)@ + dec(n as nat),
    decreases n,
{
    if n < 10 {
        out.push(digit_of(n as u8));
        assert(out@ =~= old(out)@ + dec(n as nat));
    } else {
        push_dec(out, n / 10);
        out.push(digit_of((n % 10) as u8));
        assert(out@ =~= old(out)@ + dec(n as nat));
    }
}

pub fn dec_string(n: u128) -> (r: String)
    ensures
        r@ == dec(n as nat),
{
    let mut r = String::new();
    push_dec(&mut r, n);
    assert(r@ =~= dec(n as nat));
    r
}

/// The digits of an unsigned number: `s` without one plus sign in front.
pub open spec fn unsigned_digits(s: Seq<char>) -> Seq<char> {
    if starts_with_char(s, '+') {
        s.skip(1)
    } else {
        s
    }
}

/// Reads an unsigned 64-bit number: at least one decimal digit and nothing else
/// but an optional plus sign in front, in range.
pub open spec fn parse_u64(s: Seq<char>) -> Option<u64> {
    let d = unsigned_digits(s);
    if d.len() > 0 && all_digits(d) && value(d) <= u64::MAX {
        Some(value(d) as u64)
    } else {
        None
    }
}

pub fn read_u64(s: &[char]) -> (r: Option<u64>)
    ensures
        r == parse_u64(s@),
{
    let start: usize = if s.len() > 0 && s[0] == '+' { 1 } else { 0 };
    let d = slice_subrange(s, start, s.len());
    assert(d@ =~= unsigned_digits(s@));
    if d.len() == 0 {
        return None;
    }
    let mut acc: u64 = 0;
    let mut i: usize = 0;
    while i < d.len()
        invariant
            i <= d@.len(),
            d@.len() > 0,
            d@ == unsigned_digits(s@),
            acc == value(d@.take(i as int)),
            forall|j: int| 0 <= j < i ==> is_digit(#[trigger] d@[j]),
        decreases d@.len() - i,
    {
        let c = d[i];
        if !('0' <= c && c <= '9') {
            assert(!is_digit(d@[i as int]));
            return None;
        }
        let v: u64 = (c as u32 - 48) as u64;
        proof {
            assert(d@.take(i + 1).drop_last() =~= d@.take(i as int));
            assert(value(d@.take(i + 1)) == 10 * acc + v);
            lemma_value_grows(d@, i + 1);
        }
        if acc > (u64::MAX - v) / 10 {
            assert(10 * acc + v > u64::MAX);
            return None;
        }
        acc = acc * 10 + v;
        i = i + 1;
    }
    assert(d@.take(i as int) =~= d@);
    Some(acc)
}

/// Every 64-bit number written in decimal is read back.
pub proof fn law_u64_round_trip(n: u64)
    ensures
        parse_u64(dec(n as nat)) == Some(n),
{
    law_digits_round_trip(n as nat);
    assert(is_digit(dec(n as nat)[0]));
}

/// The word for a truth value.
pub open spec fn truth(b: bool) -> Seq<char> {
    if b {
        "true"@
    } else {
        "false"@
    }
}

pub fn truth_word(b: bool) -> (r: &'static str)
    ensures
        r@ == truth(b),
{
    if b {
        "true"
    } else {
        "false"
    }
}

// ───────────────────────── padding ─────────────────────────

/// `n` times the character `c`.
pub open spec fn repeat(c: char, n: nat) -> Seq<char> {
    Seq::new(n, |i: int| c)
}

/// How many characters `s` lacks to be `width` long.
pub open spec fn lacking(s: Seq<char>, width: nat) -> nat {
    if s.len() < width {
        (width - s.len()) as nat
    } else {
        0
    }
}

/// `s` filled up with spaces on its right.
pub open spec fn pad_right(s: Seq<char>, width: nat) -> Seq<char> {
    s + repeat(' ', lacking(s, width))
}

/// `s` filled up with `c` on its left.
pub open spec fn pad_left(s: Seq<char>, c: char, width: nat) -> Seq<char> {
    repeat(c, lacking(s, width)) + s
}

pub fn push_repeat(out: &mut String, c: char, n: usize)
    ensures
        final(out)@ == old(out)@ + repeat(c, n as nat),
{
    let mut i: usize = 0;
    assert(out@ =~= old(out)@ + repeat(c, 0));
    while i < n
        invariant
            i <= n,
            out@ == old(out)@ + repeat(c, i as nat),
        decreases n - i,
    {
        out.push(c);
        i = i + 1;
        assert(out@ =~= old(out)@ + repeat(c, i as nat));
    }
}

pub fn push_right_padded(out: &mut String, s: &str, width: usize)
    ensures
        final(out)@ == old(out)@ + pad_right(s@, width as nat),
{
    let n = s.unicode_len();
    out.append(s);
    if n < width {
        push_repeat(out, ' ', width - n);
    } else {
        assert(repeat(' ', 0) =~= Seq::empty());
    }
    assert(out@ =~= old(out)@ + pad_right(s@, width as nat));
}

pub fn push_left_padded(out: &mut String, s: &str, c: char, width: usize)
    ensures
        final(out)@ == old(out)@ + pad_left(s@, c, width as nat),
{
    let n = s.unicode_len();
    if n < width {
        push_repeat(out, c, width - n);
    } else {
        assert(repeat(c, 0) =~= Seq::empty());
    }
    out.append(s);
    assert(out@ =~= old(out)@ + pad_left(s@, c, width as nat));
}

// ───────────────────────── lengths in bytes ─────────────────────────

/// How many bytes a character takes in UTF-8.
pub open spec fn utf8_width(c: char) -> nat {
    if (c as u32) < 0x80 {
        1
    } else if (c as u32) < 0x800 {
        2
    } else if (c as u32) < 0x1_0000 {
        3
    } else {
        4
    }
}

pub fn width_of(c: char) -> (r: u32)
    ensures
        r == utf8_width(c),
{
    let u: u32 = c as u32;
    if u < 0x80 {
        1
    } else if u < 0x800 {
        2
    } else if u < 0x1_0000 {
        3
    } else {
        4
    }
}

/// How many bytes a text takes in UTF-8.
pub open spec fn utf8_length(s: Seq<char>) -> nat
    decreases s.len(),
{
    if s.len() == 0 {
        0
    } else {
        utf8_length(s.drop_last()) + utf8_width(s.last())
    }
}

pub proof fn lemma_utf8_append(a: Seq<char>, b: Seq<char>)
    ensures
        utf8_length(a + b) == utf8_length(a) + utf8_length(b),
    decreases b.len(),
{
    if b.len() == 0 {
        assert(a + b == a);
    } else {
        assert((a + b).drop_last() == a + b.drop_last());
        lemma_utf8_append(a, b.drop_last());
    }
}

pub proof fn lemma_utf8_grows(s: Seq<char>, n: int)
    requires
        0 <= n <= s.len(),
    ensures
        utf8_length(s.take(n)) <= utf8_length(s),
        utf8_length(s.skip(n)) <= utf8_length(s),
{
    assert(s == s.take(n) + s.skip(n));
    lemma_utf8_append(s.take(n), s.skip(n));
}

proof fn lemma_utf8_width(c: char)
    ensures
        vstd::utf8::encode_scalar(c as u32).len() == utf8_width(c),
        utf8_length(seq![c]) == utf8_width(c),
{
    reveal_with_fuel(utf8_length, 2);
    assert(seq![c].drop_last() == Seq::<char>::empty());
}

/// The length is that of the encoding.
pub proof fn lemma_utf8_length(s: Seq<char>)
    ensures
        vstd::utf8::encode_utf8(s).len() == utf8_length(s),
    decreases s.len(),
{
    if s.len() > 0 {
        lemma_utf8_length(s.drop_first());
        assert(s == seq![s[0]] + s.drop_first());
        lemma_utf8_append(seq![s[0]], s.drop_first());
        lemma_utf8_width(s[0]);
    }
}

/// White space around a text only adds to its length.
pub proof fn lemma_trim_shortens(s: Seq<char>)
    ensures
        utf8_length(trim(s)) <= utf8_length(s),
{
    let t = trim_start(s);
    lemma_trim_start(s);
    lemma_utf8_grows(s, s.len() - t.len());
    lemma_trim_end(t);
    lemma_utf8_grows(t, trim_end(t).len() as int);
}

/// The longest beginning of a text that takes no more than so many bytes.
pub open spec fn clipped(s: Seq<char>, limit: nat) -> Seq<char>
    decreases s.len(),
{
    if utf8_length(s) <= limit || s.len() == 0 {
        s
    } else {
        clipped(s.drop_last(), limit)
    }
}

pub proof fn lemma_clipped(s: Seq<char>, limit: nat, n: int)
    requires
        0 <= n <= s.len(),
        utf8_length(s.take(n)) <= limit,
        n < s.len() ==> utf8_length(s.take(n + 1)) > limit,
    ensures
        clipped(s, limit) == s.take(n),
    decreases s.len(),
{
    if n == s.len() {
        assert(s.take(n) == s);
    } else {
        lemma_utf8_grows(s, n + 1);
        let t = s.drop_last();
        assert(t.take(n) == s.take(n));
        if n < t.len() {
            assert(t.take(n + 1) == s.take(n + 1));
        }
        lemma_clipped(t, limit, n);
    }
}

/// The beginning of `s` that takes no more than so many bytes.
pub fn clip(s: &[char], limit: u32) -> (r: &[char])
    requires
        limit <= 1000,
    ensures
        r@ == clipped(s@, limit as nat),
        utf8_length(r@) <= limit,
{
    let mut used: u32 = 0;
    let mut n: usize = 0;
    while n < s.len() && used + width_of(s[n]) <= limit
        invariant
            n <= s@.len(),
            used == utf8_length(s@.take(n as int)),
            used <= limit <= 1000,
        decreases s@.len() - n,
    {
        assert(s@.take(n + 1).drop_last() == s@.take(n as int));
        used = used + width_of(s[n]);
        n = n + 1;
    }
    proof {
        if n < s@.len() {
            assert(s@.take(n + 1).drop_last() == s@.take(n as int));
        }
        lemma_clipped(s@, limit as nat, n as int);
    }
    assert(s@.take(n as int) == s@.subrange(0, n as int));
    slice_subrange(s, 0, n)
}

} // verus!
