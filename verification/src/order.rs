//! Stable sorting by an integer rank.

use vstd::prelude::*;

verus! {

/// Entry `a` goes before entry `b`: a lower rank first, and of equal ranks the
/// one that came first.
pub open spec fn goes_before(ranks: Seq<i128>, a: int, b: int) -> bool {
    ranks[a] < ranks[b] || (ranks[a] == ranks[b] && a < b)
}

/// `order` lists the indices of `ranks`, each once, in stable sorted order.
pub open spec fn is_stable_order(ranks: Seq<i128>, order: Seq<usize>) -> bool {
    &&& order.len() == ranks.len()
    &&& forall|i: int| 0 <= i < order.len() ==> (#[trigger] order[i] as int) < ranks.len()
    &&& forall|i: int, j: int|
        0 <= i < j < order.len() ==> goes_before(ranks, #[trigger] order[i] as int, #[trigger] order[j] as int)
}

/// A sorted run over the indices `lo..hi`.
spec fn is_run(ranks: Seq<i128>, run: Seq<usize>, lo: int, hi: int) -> bool {
    &&& run.len() == hi - lo
    &&& forall|i: int| 0 <= i < run.len() ==> lo <= (#[trigger] run[i] as int) < hi
    &&& forall|i: int, j: int|
        0 <= i < j < run.len() ==> goes_before(ranks, #[trigger] run[i] as int, #[trigger] run[j] as int)
}

fn merge(ranks: &Vec<i128>, left: Vec<usize>, right: Vec<usize>, Ghost(lo): Ghost<int>, Ghost(mid): Ghost<int>, Ghost(hi): Ghost<int>) -> (out: Vec<usize>)
    requires
        0 <= lo <= mid <= hi <= ranks@.len(),
        is_run(ranks@, left@, lo, mid),
        is_run(ranks@, right@, mid, hi),
    ensures
        is_run(ranks@, out@, lo, hi),
{
    let mut out: Vec<usize> = Vec::new();
    let mut i: usize = 0;
    let mut j: usize = 0;
    while i < left.len() || j < right.len()
        invariant
            0 <= lo <= mid <= hi <= ranks@.len(),
            is_run(ranks@, left@, lo, mid),
            is_run(ranks@, right@, mid, hi),
            i <= left@.len(),
            j <= right@.len(),
            out@.len() == i + j,
            forall|k: int| 0 <= k < out@.len() ==> lo <= (#[trigger] out@[k] as int) < hi,
            forall|k: int, l: int|
                0 <= k < l < out@.len() ==> goes_before(ranks@, #[trigger] out@[k] as int, #[trigger] out@[l] as int),
            forall|k: int, l: int|
                0 <= k < out@.len() && i <= l < left@.len() ==> goes_before(ranks@, #[trigger] out@[k] as int, #[trigger] left@[l] as int),
            forall|k: int, l: int|
                0 <= k < out@.len() && j <= l < right@.len() ==> goes_before(ranks@, #[trigger] out@[k] as int, #[trigger] right@[l] as int),
        decreases left@.len() - i + right@.len() - j,
    {
        let take_left: bool = if i >= left.len() {
            false
        } else if j >= right.len() {
            true
        } else {
            ranks[left[i]] <= ranks[right[j]]
        };
        if take_left {
            out.push(left[i]);
            i += 1;
        } else {
            out.push(right[j]);
            j += 1;
        }
    }
    out
}

fn sort_run(ranks: &Vec<i128>, lo: usize, hi: usize) -> (out: Vec<usize>)
    requires
        lo <= hi <= ranks@.len(),
    ensures
        is_run(ranks@, out@, lo as int, hi as int),
    decreases hi - lo,
{
    if hi - lo == 0 {
        Vec::new()
    } else if hi - lo == 1 {
        let mut out: Vec<usize> = Vec::new();
        out.push(lo);
        out
    } else {
        let mid: usize = lo + (hi - lo) / 2;
        let left: Vec<usize> = sort_run(ranks, lo, mid);
        let right: Vec<usize> = sort_run(ranks, mid, hi);
        merge(ranks, left, right, Ghost(lo as int), Ghost(mid as int), Ghost(hi as int))
    }
}

/// The stable sorted order of `ranks`, as indices.
pub fn stable_order(ranks: &Vec<i128>) -> (order: Vec<usize>)
    ensures
        is_stable_order(ranks@, order@),
        order@.len() == ranks@.len(),
        forall|i: int| 0 <= i < order@.len() ==> (#[trigger] order@[i] as int) < ranks@.len(),
        forall|i: int, j: int|
            0 <= i < j < order@.len() ==> ranks@[#[trigger] order@[i] as int] <= ranks@[#[trigger] order@[j] as int]
                && (ranks@[order@[i] as int] == ranks@[order@[j] as int] ==> order@[i] < order@[j]),
{
    sort_run(ranks, 0, ranks.len())
}

/// A strictly increasing list of indices below `n` holds at least `i` indices
/// that go before its entry `i`; read from both ends this pins every entry.
pub(crate) proof fn lemma_order_has(ranks: Seq<i128>, order: Seq<usize>, a: int) -> (i: int)
    requires
        is_stable_order(ranks, order),
        0 <= a < ranks.len(),
    ensures
        0 <= i < order.len(),
        order[i] as int == a,
{
    let s = Seq::new(order.len(), |k: int| order[k] as int);
    assert(s.no_duplicates());
    let all = vstd::set_lib::set_int_range(0, ranks.len() as int);
    vstd::set_lib::lemma_int_range(0, ranks.len() as int);
    s.unique_seq_to_set();
    assert(s.to_set().subset_of(all));
    vstd::set_lib::lemma_subset_equality(s.to_set(), all);
    assert(s.to_set().contains(a));
    let i = choose|i: int| 0 <= i < s.len() && s[i] == a;
    i
}

/// Every index stands in a stable order exactly once.
pub proof fn stable_order_is_a_permutation(ranks: Seq<i128>, order: Seq<usize>)
    requires
        is_stable_order(ranks, order),
    ensures
        forall|a: usize| (a as int) < ranks.len() ==> #[trigger] order.contains(a),
        order.no_duplicates(),
{
    assert forall|a: usize| (a as int) < ranks.len() implies #[trigger] order.contains(a) by {
        let i = lemma_order_has(ranks, order, a as int);
        assert(order[i] == a);
    }
    assert forall|i: int, j: int| 0 <= i < j < order.len() implies order[i] != order[j] by {
        assert(goes_before(ranks, order[i] as int, order[j] as int));
    }
}

/// Ranks have one stable order.
pub proof fn stable_order_is_unique(ranks: Seq<i128>, a: Seq<usize>, b: Seq<usize>)
    requires
        is_stable_order(ranks, a),
        is_stable_order(ranks, b),
    ensures
        a == b,
{
    assert forall|n: int| 0 <= n <= a.len() implies #[trigger] a.take(n) == b.take(n) by {
        lemma_prefix(ranks, a, b, n);
    }
    assert(a.take(a.len() as int) =~= a);
    assert(b.take(a.len() as int) =~= b);
    assert(a.take(a.len() as int) == b.take(a.len() as int));
}

proof fn lemma_prefix(ranks: Seq<i128>, a: Seq<usize>, b: Seq<usize>, n: int)
    requires
        is_stable_order(ranks, a),
        is_stable_order(ranks, b),
        0 <= n <= a.len(),
    ensures
        a.take(n) == b.take(n),
    decreases n,
{
    if n > 0 {
        lemma_prefix(ranks, a, b, n - 1);
        let m = n - 1;
        let i = lemma_order_has(ranks, a, b[m] as int);
        let j = lemma_order_has(ranks, b, a[m] as int);
        assert forall|k: int| 0 <= k < m implies #[trigger] a[k] == b[k] by {
            assert(a.take(m)[k] == b.take(m)[k]);
        }
        if i < m {
            assert(b[i] == a[i]);
            assert(goes_before(ranks, b[i] as int, b[m] as int));
        }
        if j < m {
            assert(a[j] == b[j]);
            assert(goes_before(ranks, a[j] as int, a[m] as int));
        }
        if i > m && j > m {
            assert(goes_before(ranks, a[m] as int, a[i] as int));
            assert(goes_before(ranks, b[m] as int, b[j] as int));
        }
        assert(a[m] == b[m]);
    }
    assert(a.take(n) =~= b.take(n)) by {
        assert forall|k: int| 0 <= k < n implies a.take(n)[k] == b.take(n)[k] by {
            if n > 0 && k < n - 1 {
                assert(a.take(n - 1)[k] == b.take(n - 1)[k]);
            }
        }
    }
}

/// `at` lists, in ascending order, exactly the indices below `n` that are
/// `wanted`.
pub open spec fn is_selection(at: Seq<int>, n: int, wanted: spec_fn(int) -> bool) -> bool {
    &&& forall|p: int, q: int| 0 <= p < q < at.len() ==> #[trigger] at[p] < #[trigger] at[q]
    &&& forall|p: int| 0 <= p < at.len() ==> 0 <= #[trigger] at[p] < n && wanted(at[p])
    &&& forall|i: int| 0 <= i < n && #[trigger] wanted(i) ==> at.contains(i)
}

/// A selection goes on with the next index where that is wanted.
pub(crate) proof fn lemma_select_next(at: Seq<int>, n: int, wanted: spec_fn(int) -> bool) -> (next: Seq<int>)
    requires
        0 <= n,
        is_selection(at, n, wanted),
    ensures
        next == (if wanted(n) {
            at.push(n)
        } else {
            at
        }),
        is_selection(next, n + 1, wanted),
{
    let next = if wanted(n) {
        at.push(n)
    } else {
        at
    };
    assert forall|i: int| 0 <= i < n + 1 && #[trigger] wanted(i) implies next.contains(i) by {
        if i < n {
            let p = at.index_of(i);
            assert(next[p] == i);
        } else {
            assert(next[at.len() as int] == n);
        }
    }
    next
}

/// Nothing is selected of nothing.
pub(crate) proof fn lemma_select_none(wanted: spec_fn(int) -> bool)
    ensures
        is_selection(Seq::<int>::empty(), 0, wanted),
{
}

/// What is wanted is selected in one way only.
pub proof fn a_selection_is_unique(a: Seq<int>, b: Seq<int>, n: int, wanted: spec_fn(int) -> bool)
    requires
        is_selection(a, n, wanted),
        is_selection(b, n, wanted),
    ensures
        a == b,
{
    lemma_selection_prefix(a, b, n, wanted, a.len() as int);
    lemma_selection_prefix(b, a, n, wanted, b.len() as int);
    assert(a =~= b);
}

proof fn lemma_selection_prefix(a: Seq<int>, b: Seq<int>, n: int, wanted: spec_fn(int) -> bool, m: int)
    requires
        is_selection(a, n, wanted),
        is_selection(b, n, wanted),
        0 <= m <= a.len(),
    ensures
        m <= b.len(),
        forall|p: int| 0 <= p < m ==> a[p] == #[trigger] b[p],
    decreases m,
{
    if m > 0 {
        let k = m - 1;
        lemma_selection_prefix(a, b, n, wanted, k);
        assert(wanted(a[k]));
        let i = b.index_of(a[k]);
        assert(b[i] == a[k]);
        if i < k {
            assert(a[i] == b[i]);
        }
        assert(wanted(b[k]));
        let j = a.index_of(b[k]);
        assert(a[j] == b[k]);
        if j < k {
            assert(a[j] == b[j]);
        }
    }
}

/// A selection depends on no more than which indices are wanted.
pub(crate) proof fn lemma_select_same(at: Seq<int>, n: int, a: spec_fn(int) -> bool, b: spec_fn(int) -> bool)
    requires
        is_selection(at, n, a),
        forall|i: int| 0 <= i < n ==> #[trigger] a(i) == #[trigger] b(i),
    ensures
        is_selection(at, n, b),
{
    assert forall|p: int| 0 <= p < at.len() implies 0 <= #[trigger] at[p] < n && b(at[p]) by {
        assert(a(at[p]));
    }
    assert forall|i: int| 0 <= i < n && #[trigger] b(i) implies at.contains(i) by {
        assert(a(i));
    }
}

} // verus!
