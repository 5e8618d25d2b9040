//! Choosing the first few items of a list by a strict total order, as a
//! stable sort followed by taking a prefix does.
//!
//! The search results and the conversation context are both chosen this way;
//! here it is shown once that such a choice leaves nothing open.

use vstd::prelude::*;

verus! {

/// `before` is a strict total order on the positions `0..n`.
pub open spec fn is_strict_total(before: spec_fn(int, int) -> bool, n: int) -> bool {
    &&& forall|i: int| 0 <= i < n ==> !(#[trigger] before(i, i))
    &&& forall|i: int, j: int|
        0 <= i < n && 0 <= j < n && #[trigger] before(i, j) ==> !before(j, i)
    &&& forall|i: int, j: int|
        0 <= i < n && 0 <= j < n && i != j ==> #[trigger] before(i, j) || before(j, i)
}

/// `picked` lists eligible positions of `0..n` in the order `before`, at most
/// `cap` of them, and an eligible position is left out only when `cap` were
/// picked, all of them before it.
pub open spec fn is_selection(
    before: spec_fn(int, int) -> bool,
    eligible: spec_fn(int) -> bool,
    n: int,
    cap: int,
    picked: Seq<usize>,
) -> bool {
    &&& picked.len() <= cap
    &&& forall|k: int|
        0 <= k < picked.len() ==> (#[trigger] picked[k]) < n && eligible(picked[k] as int)
    &&& forall|k: int, l: int|
        0 <= k < l < picked.len() ==> before(#[trigger] picked[k] as int, #[trigger] picked[l] as int)
    &&& forall|i: int|
        0 <= i < n && eligible(i) && !(#[trigger] picked.contains(i as usize)) ==> picked.len() == cap
            && forall|k: int| 0 <= k < picked.len() ==> before(#[trigger] picked[k] as int, i)
}

proof fn lemma_selections_agree_at(
    before: spec_fn(int, int) -> bool,
    eligible: spec_fn(int) -> bool,
    n: int,
    cap: int,
    p1: Seq<usize>,
    p2: Seq<usize>,
    k: int,
)
    requires
        is_strict_total(before, n),
        is_selection(before, eligible, n, cap, p1),
        is_selection(before, eligible, n, cap, p2),
        0 <= k < p1.len(),
        k < p2.len(),
        forall|j: int| 0 <= j < k ==> p1[j] == p2[j],
    ensures
        p1[k] == p2[k],
{
    let x = p1[k] as int;
    let y = p2[k] as int;
    assert(p1[k] < n && eligible(x));
    assert(p2[k] < n && eligible(y));
    if x != y {
        if before(x, y) {
            if p2.contains(x as usize) {
                let m = choose|m: int| 0 <= m < p2.len() && p2[m] == x as usize;
                if m < k {
                    assert(p1[m] == p2[m]);
                    assert(before(p1[m] as int, p1[k] as int));
                } else if m > k {
                    assert(before(p2[k] as int, p2[m] as int));
                }
            } else {
                assert(before(p2[k] as int, x));
            }
        } else {
            assert(before(y, x));
            if p1.contains(y as usize) {
                let m = choose|m: int| 0 <= m < p1.len() && p1[m] == y as usize;
                if m < k {
                    assert(p1[m] == p2[m]);
                    assert(before(p2[m] as int, p2[k] as int));
                } else if m > k {
                    assert(before(p1[k] as int, p1[m] as int));
                }
            } else {
                assert(before(p1[k] as int, y));
            }
        }
    }
}

proof fn lemma_selections_agree_up_to(
    before: spec_fn(int, int) -> bool,
    eligible: spec_fn(int) -> bool,
    n: int,
    cap: int,
    p1: Seq<usize>,
    p2: Seq<usize>,
    k: int,
)
    requires
        is_strict_total(before, n),
        is_selection(before, eligible, n, cap, p1),
        is_selection(before, eligible, n, cap, p2),
        0 <= k <= p1.len(),
        k <= p2.len(),
    ensures
        forall|j: int| 0 <= j < k ==> p1[j] == p2[j],
    decreases k,
{
    if k > 0 {
        lemma_selections_agree_up_to(before, eligible, n, cap, p1, p2, k - 1);
        lemma_selections_agree_at(before, eligible, n, cap, p1, p2, k - 1);
    }
}

proof fn lemma_selection_not_longer(
    before: spec_fn(int, int) -> bool,
    eligible: spec_fn(int) -> bool,
    n: int,
    cap: int,
    p1: Seq<usize>,
    p2: Seq<usize>,
)
    requires
        is_strict_total(before, n),
        is_selection(before, eligible, n, cap, p1),
        is_selection(before, eligible, n, cap, p2),
        forall|j: int| 0 <= j < p2.len() && j < p1.len() ==> p1[j] == p2[j],
    ensures
        p1.len() <= p2.len(),
{
    if p2.len() < p1.len() {
        let len = p2.len() as int;
        let x = p1[len] as int;
        assert(p1[len] < n && eligible(x));
        if p2.contains(x as usize) {
            let m = choose|m: int| 0 <= m < p2.len() && p2[m] == x as usize;
            assert(p1[m] == p2[m]);
            assert(before(p1[m] as int, p1[len] as int));
        } else {
            assert(p2.len() == cap);
        }
    }
}

/// A selection by a strict total order is determined: any two selections
/// of the same positions, with the same order, eligibility and cap, are
/// the same list.
pub proof fn lemma_selection_unique(
    before: spec_fn(int, int) -> bool,
    eligible: spec_fn(int) -> bool,
    n: int,
    cap: int,
    p1: Seq<usize>,
    p2: Seq<usize>,
)
    requires
        is_strict_total(before, n),
        is_selection(before, eligible, n, cap, p1),
        is_selection(before, eligible, n, cap, p2),
    ensures
        p1 == p2,
{
    let k = if p1.len() <= p2.len() {
        p1.len() as int
    } else {
        p2.len() as int
    };
    lemma_selections_agree_up_to(before, eligible, n, cap, p1, p2, k);
    lemma_selection_not_longer(before, eligible, n, cap, p1, p2);
    lemma_selection_not_longer(before, eligible, n, cap, p2, p1);
    assert(p1 =~= p2);
}

} // verus!
