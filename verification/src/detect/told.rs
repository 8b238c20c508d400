//! Reasons that are told of some of many rows.
use vstd::prelude::*;

verus! {

/// What is told of the first `n` rows: of each that counts one thing, of the others
/// nothing.
pub open spec fn told<A>(
    rows: Seq<A>,
    counts: spec_fn(A) -> bool,
    say: spec_fn(A) -> (Seq<char>, Seq<char>),
    n: nat,
) -> Seq<(Seq<char>, Seq<char>)>
    decreases n,
{
    if n == 0 {
        Seq::empty()
    } else {
        let before = told(rows, counts, say, (n - 1) as nat);
        if counts(rows[n - 1]) {
            before.push(say(rows[n - 1]))
        } else {
            before
        }
    }
}

/// Where the rows that count stand, among the first `n`.
pub open spec fn counted<A>(rows: Seq<A>, counts: spec_fn(A) -> bool, n: nat) -> Set<int> {
    Set::new(|i: int| 0 <= i < n && counts(rows[i]))
}

/// Whether reason `k` is that of a row that counts, one of the first `n`.
pub open spec fn founded<A>(
    rows: Seq<A>,
    counts: spec_fn(A) -> bool,
    say: spec_fn(A) -> (Seq<char>, Seq<char>),
    n: nat,
    reasons: Seq<(Seq<char>, Seq<char>)>,
    k: int,
) -> bool {
    exists|i: int| 0 <= i < n && counts(#[trigger] rows[i]) && say(rows[i]) == reasons[k]
}

/// Whether reasons are one for each row that counts: every such row has its reason, every
/// reason is that of such a row, and there are as many of the ones as of the others.
pub open spec fn one_each<A>(
    rows: Seq<A>,
    counts: spec_fn(A) -> bool,
    say: spec_fn(A) -> (Seq<char>, Seq<char>),
    reasons: Seq<(Seq<char>, Seq<char>)>,
) -> bool {
    &&& forall|i: int|
        0 <= i < rows.len() && counts(#[trigger] rows[i]) ==> reasons.contains(say(rows[i]))
    &&& forall|k: int|
        0 <= k < reasons.len() ==> #[trigger] founded(rows, counts, say, rows.len(), reasons, k)
    &&& counted(rows, counts, rows.len()).finite()
    &&& reasons.len() == counted(rows, counts, rows.len()).len()
}

pub proof fn lemma_told<A>(
    rows: Seq<A>,
    counts: spec_fn(A) -> bool,
    say: spec_fn(A) -> (Seq<char>, Seq<char>),
    n: nat,
)
    requires
        n <= rows.len(),
    ensures
        ({
            let out = told(rows, counts, say, n);
            &&& forall|i: int|
                0 <= i < n && counts(#[trigger] rows[i]) ==> out.contains(say(rows[i]))
            &&& forall|k: int|
                0 <= k < out.len() ==> #[trigger] founded(rows, counts, say, n, out, k)
            &&& counted(rows, counts, n).finite()
            &&& out.len() == counted(rows, counts, n).len()
        }),
    decreases n,
{
    let out = told(rows, counts, say, n);
    if n == 0 {
        assert(counted(rows, counts, 0) =~= Set::<int>::empty());
    } else {
        let p = (n - 1) as nat;
        lemma_told(rows, counts, say, p);
        let before = told(rows, counts, say, p);
        let (old_set, new_set) = (counted(rows, counts, p), counted(rows, counts, n));
        if counts(rows[n - 1]) {
            assert(out == before.push(say(rows[n - 1])));
            assert(new_set =~= old_set.insert(n - 1));
            assert(out[before.len() as int] == say(rows[n - 1]));
        } else {
            assert(new_set =~= old_set);
        }
        assert forall|i: int| 0 <= i < n && counts(#[trigger] rows[i]) implies out.contains(
            say(rows[i]),
        ) by {
            if i < p {
                let k = choose|k: int| 0 <= k < before.len() && before[k] == say(rows[i]);
                assert(out[k] == say(rows[i]));
            }
        }
        assert forall|k: int| 0 <= k < out.len() implies #[trigger] founded(
            rows,
            counts,
            say,
            n,
            out,
            k,
        ) by {
            if k < before.len() {
                assert(founded(rows, counts, say, p, before, k));
                let i = choose|i: int|
                    0 <= i < p && counts(#[trigger] rows[i]) && say(rows[i]) == before[k];
                assert(counts(rows[i]) && say(rows[i]) == out[k]);
            } else {
                assert(counts(rows[n - 1]) && say(rows[n - 1]) == out[k]);
            }
        }
    }
}

pub proof fn lemma_one_each<A>(
    rows: Seq<A>,
    counts: spec_fn(A) -> bool,
    say: spec_fn(A) -> (Seq<char>, Seq<char>),
)
    ensures
        one_each(rows, counts, say, told(rows, counts, say, rows.len())),
{
    lemma_told(rows, counts, say, rows.len());
}

} // verus!
