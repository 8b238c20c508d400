//! Rows with distinct names, kept in the order of the names.
//!
//! Names are ordered character by character, which is also the order of their UTF-8
//! bytes.
use vstd::prelude::*;

use crate::text;

verus! {

/// Whether `a` comes before `b`.
pub open spec fn before(a: Seq<char>, b: Seq<char>) -> bool
    decreases a.len(),
{
    if b.len() == 0 {
        false
    } else if a.len() == 0 {
        true
    } else if a.first() == b.first() {
        before(a.drop_first(), b.drop_first())
    } else {
        a.first() < b.first()
    }
}

fn comes_before(a: &[char], b: &[char]) -> (r: bool)
    ensures
        r == before(a@, b@),
{
    let mut i: usize = 0;
    assert(a@.skip(0) == a@ && b@.skip(0) == b@);
    while i < a.len() && i < b.len() && a[i] == b[i]
        invariant
            i <= a@.len(),
            i <= b@.len(),
            before(a@, b@) == before(a@.skip(i as int), b@.skip(i as int)),
        decreases a@.len() - i,
    {
        assert(a@.skip(i as int).drop_first() == a@.skip(i + 1));
        assert(b@.skip(i as int).drop_first() == b@.skip(i + 1));
        i = i + 1;
    }
    if i == b.len() {
        false
    } else if i == a.len() {
        true
    } else {
        a[i] < b[i]
    }
}

/// No name comes before itself.
pub proof fn lemma_before_irreflexive(a: Seq<char>)
    ensures
        !before(a, a),
    decreases a.len(),
{
    if a.len() > 0 {
        lemma_before_irreflexive(a.drop_first());
    }
}

pub proof fn lemma_before_transitive(a: Seq<char>, b: Seq<char>, c: Seq<char>)
    requires
        before(a, b),
        before(b, c),
    ensures
        before(a, c),
    decreases a.len(),
{
    if a.len() > 0 && a.first() == b.first() && b.first() == c.first() {
        lemma_before_transitive(a.drop_first(), b.drop_first(), c.drop_first());
    }
}

/// Of two different names one comes before the other.
pub proof fn lemma_before_total(a: Seq<char>, b: Seq<char>)
    requires
        a != b,
    ensures
        before(a, b) || before(b, a),
    decreases a.len(),
{
    if a.len() > 0 && b.len() > 0 && a.first() == b.first() {
        if a.drop_first() == b.drop_first() {
            assert(a == seq![a.first()] + a.drop_first());
            assert(b == seq![b.first()] + b.drop_first());
        }
        lemma_before_total(a.drop_first(), b.drop_first());
    } else if a.len() == 0 && b.len() == 0 {
        assert(a == b);
    }
}

/// The rows with their names as character sequences.
pub open spec fn rows_view<V>(rows: Seq<(String, V)>) -> Seq<(Seq<char>, V)> {
    Seq::new(rows.len(), |i: int| (rows[i].0@, rows[i].1))
}

/// Where a name stands or belongs: the number of rows in front that come before it.
pub open spec fn place<V>(rows: Seq<(Seq<char>, V)>, name: Seq<char>) -> int
    decreases rows.len(),
{
    if rows.len() > 0 && before(rows.first().0, name) {
        1 + place(rows.drop_first(), name)
    } else {
        0
    }
}

/// Whether the name has a row at its place.
pub open spec fn present<V>(rows: Seq<(Seq<char>, V)>, name: Seq<char>) -> bool {
    let i = place(rows, name);
    0 <= i < rows.len() && rows[i].0 == name
}

/// The rows with the row of a name replaced, or added at its place.
pub open spec fn stored<V>(rows: Seq<(Seq<char>, V)>, name: Seq<char>, v: V) -> Seq<
    (Seq<char>, V),
> {
    let i = place(rows, name);
    if present(rows, name) {
        rows.update(i, (name, v))
    } else {
        rows.insert(i, (name, v))
    }
}

/// The value of a name, or the default where it has no row.
pub open spec fn value_of<V>(rows: Seq<(Seq<char>, V)>, name: Seq<char>, default: V) -> V {
    if present(rows, name) {
        rows[place(rows, name)].1
    } else {
        default
    }
}

/// Whether the names are distinct and in order.
pub open spec fn sorted<V>(rows: Seq<(Seq<char>, V)>) -> bool {
    forall|i: int, j: int| 0 <= i < j < rows.len() ==> before(#[trigger] rows[i].0, #[trigger] rows[j].0)
}

pub proof fn lemma_place<V>(rows: Seq<(Seq<char>, V)>, name: Seq<char>)
    ensures
        0 <= place(rows, name) <= rows.len(),
        forall|j: int| 0 <= j < place(rows, name) ==> before(#[trigger] rows[j].0, name),
        place(rows, name) < rows.len() ==> !before(rows[place(rows, name)].0, name),
    decreases rows.len(),
{
    if rows.len() > 0 && before(rows.first().0, name) {
        let rest = rows.drop_first();
        lemma_place(rest, name);
        assert forall|j: int| 0 <= j < place(rows, name) implies before(
            #[trigger] rows[j].0,
            name,
        ) by {
            if j > 0 {
                assert(rest[j - 1] == rows[j]);
            }
        }
    }
}

proof fn lemma_place_unique<V>(rows: Seq<(Seq<char>, V)>, name: Seq<char>, n: int)
    requires
        0 <= n <= rows.len(),
        forall|j: int| 0 <= j < n ==> before(#[trigger] rows[j].0, name),
        n < rows.len() ==> !before(rows[n].0, name),
    ensures
        place(rows, name) == n,
{
    lemma_place(rows, name);
    let m = place(rows, name);
    if m < n {
        assert(before(rows[m].0, name));
    }
    if m > n {
        assert(before(rows[n].0, name));
    }
}

/// Storing a row keeps the rows distinct and in order; the name then has the value, and
/// every other name has the one it had.
pub proof fn law_storing_keeps_order<V>(rows: Seq<(Seq<char>, V)>, name: Seq<char>, v: V)
    requires
        sorted(rows),
    ensures
        sorted(stored(rows, name, v)),
        stored(rows, name, v).contains((name, v)),
        forall|i: int|
            0 <= i < rows.len() && rows[i].0 != name ==> stored(rows, name, v).contains(
                #[trigger] rows[i],
            ),
        forall|k: int|
            0 <= k < stored(rows, name, v).len() ==> {
                let row = #[trigger] stored(rows, name, v)[k];
                row == (name, v) || rows.contains(row)
            },
{
    let p = place(rows, name);
    let s = stored(rows, name, v);
    lemma_place(rows, name);
    assert(s[p] == (name, v));
    assert forall|i: int| 0 <= i < rows.len() && rows[i].0 != name implies s.contains(
        #[trigger] rows[i],
    ) by {
        if present(rows, name) {
            assert(s[i] == rows[i]);
        } else if i < p {
            assert(s[i] == rows[i]);
        } else {
            assert(s[i + 1] == rows[i]);
        }
    }
    assert forall|k: int| 0 <= k < s.len() implies ({
        let row = #[trigger] s[k];
        row == (name, v) || rows.contains(row)
    }) by {
        if k != p {
            if present(rows, name) || k < p {
                assert(s[k] == rows[k]);
            } else {
                assert(s[k] == rows[k - 1]);
            }
        }
    }
    assert forall|i: int, j: int| 0 <= i < j < s.len() implies before(
        #[trigger] s[i].0,
        #[trigger] s[j].0,
    ) by {
        if present(rows, name) {
            assert(s[i].0 == rows[i].0 && s[j].0 == rows[j].0);
        } else {
            // what stands at or behind the place comes behind the name
            if p < rows.len() && rows[p].0 != name {
                lemma_before_total(rows[p].0, name);
            }
            if j == p {
                assert(s[i] == rows[i]);
            } else if i == p {
                assert(s[j] == rows[j - 1]);
                if j - 1 > p {
                    lemma_before_transitive(name, rows[p].0, rows[j - 1].0);
                }
            } else if i < p && j > p {
                assert(s[i] == rows[i] && s[j] == rows[j - 1]);
            } else if i > p {
                assert(s[i] == rows[i - 1] && s[j] == rows[j - 1]);
            } else {
                assert(s[i] == rows[i] && s[j] == rows[j]);
            }
        }
    }
}

/// Rows in order have no name twice.
pub proof fn law_names_are_distinct<V>(rows: Seq<(Seq<char>, V)>, i: int, j: int)
    requires
        sorted(rows),
        0 <= i < j < rows.len(),
    ensures
        rows[i].0 != rows[j].0,
{
    lemma_before_irreflexive(rows[i].0);
}

/// A row is found by its name, and a name without a row has the default.
pub proof fn law_rows_are_found_by_name<V>(rows: Seq<(Seq<char>, V)>, name: Seq<char>, default: V)
    requires
        sorted(rows),
    ensures
        forall|i: int|
            0 <= i < rows.len() && (#[trigger] rows[i]).0 == name ==> value_of(rows, name, default)
                == rows[i].1,
        (forall|i: int| 0 <= i < rows.len() ==> (#[trigger] rows[i]).0 != name) ==> value_of(
            rows,
            name,
            default,
        ) == default,
{
    lemma_place(rows, name);
    let p = place(rows, name);
    lemma_before_irreflexive(name);
    assert forall|i: int| 0 <= i < rows.len() && (#[trigger] rows[i]).0 == name implies value_of(
        rows,
        name,
        default,
    ) == rows[i].1 by {
        if i < p {
            assert(before(rows[i].0, name));
        } else if i > p {
            assert(before(rows[p].0, rows[i].0));
        }
    }
}

/// Storing a row gives its name the value and leaves every other name with its own.
pub proof fn law_storing_changes_one_name<V>(
    rows: Seq<(Seq<char>, V)>,
    name: Seq<char>,
    v: V,
    other: Seq<char>,
    default: V,
)
    requires
        sorted(rows),
        other != name,
    ensures
        value_of(stored(rows, name, v), name, default) == v,
        value_of(stored(rows, name, v), other, default) == value_of(rows, other, default),
{
    let s = stored(rows, name, v);
    law_storing_keeps_order(rows, name, v);
    law_rows_are_found_by_name(s, name, default);
    law_rows_are_found_by_name(s, other, default);
    law_rows_are_found_by_name(rows, other, default);
    let k = choose|k: int| 0 <= k < s.len() && s[k] == (name, v);
    assert(s[k].0 == name);
    if exists|i: int| 0 <= i < rows.len() && (#[trigger] rows[i]).0 == other {
        let i = choose|i: int| 0 <= i < rows.len() && (#[trigger] rows[i]).0 == other;
        let j = choose|j: int| 0 <= j < s.len() && s[j] == rows[i];
        assert(s[j].0 == other);
    } else {
        assert forall|j: int| 0 <= j < s.len() implies (#[trigger] s[j]).0 != other by {
            if s[j] != (name, v) {
                let i = choose|i: int| 0 <= i < rows.len() && rows[i] == s[j];
                assert(rows[i].0 != other);
            }
        }
    }
}

/// Where a name stands or belongs, and whether it has a row.
fn find_place<V>(rows: &Vec<(String, V)>, name: &str) -> (r: (usize, bool))
    ensures
        r.0 == place(rows_view(rows@), name@),
        r.0 <= rows@.len(),
        r.1 == present(rows_view(rows@), name@),
{
    let ghost view = rows_view(rows@);
    let key = text::chars_of(name);
    let mut i: usize = 0;
    while i < rows.len() && comes_before(text::chars_of(rows[i].0.as_str()).as_slice(), key.as_slice())
        invariant
            i <= rows@.len(),
            view == rows_view(rows@),
            key@ == name@,
            forall|j: int| 0 <= j < i ==> before(#[trigger] view[j].0, name@),
        decreases rows@.len() - i,
    {
        assert(before(view[i as int].0, name@));
        i = i + 1;
    }
    proof {
        lemma_place_unique(view, name@, i as int);
    }
    let found = i < rows.len() && text::same(rows[i].0.as_str(), name);
    (i, found)
}

/// The value of a name, or the default where it has no row.
pub fn get<V: Copy>(rows: &Vec<(String, V)>, name: &str, default: V) -> (v: V)
    ensures
        v == value_of(rows_view(rows@), name@, default),
{
    let (i, found) = find_place(rows, name);
    if found {
        rows[i].1
    } else {
        default
    }
}

/// Replaces the row of a name, or adds one at its place.
pub fn put<V: Copy>(rows: &mut Vec<(String, V)>, name: &str, v: V)
    ensures
        rows_view(final(rows)@) == stored(rows_view(old(rows)@), name@, v),
{
    let (i, found) = find_place(rows, name);
    let ghost old_rows = rows@;
    let row: (String, V) = (name.to_owned(), v);
    if found {
        rows.set(i, row);
        assert(rows_view(rows@) == rows_view(old_rows).update(i as int, (name@, v)));
    } else {
        rows.insert(i, row);
        assert(rows_view(rows@) == rows_view(old_rows).insert(i as int, (name@, v)));
    }
}

/// Names are ordered by their first difference, and one that ends comes before one that
/// goes on.
pub proof fn law_names_are_ordered_by_their_first_difference(
    a: Seq<char>,
    b: Seq<char>,
    n: int,
)
    requires
        0 <= n <= a.len(),
        n <= b.len(),
        forall|i: int| 0 <= i < n ==> #[trigger] a[i] == b[i],
        n < a.len() && n < b.len() ==> a[n] != b[n],
    ensures
        n < a.len() && n < b.len() ==> (before(a, b) <==> a[n] < b[n]),
        n == a.len() && n < b.len() ==> before(a, b),
        n == b.len() ==> !before(a, b),
    decreases n,
{
    if n > 0 {
        let (x, y) = (a.drop_first(), b.drop_first());
        assert(a[0] == b[0]);
        assert forall|i: int| 0 <= i < n - 1 implies #[trigger] x[i] == y[i] by {
            assert(x[i] == a[i + 1] && y[i] == b[i + 1]);
            assert(a[i + 1] == b[i + 1]);
        }
        law_names_are_ordered_by_their_first_difference(x, y, n - 1);
    }
}

} // verus!
