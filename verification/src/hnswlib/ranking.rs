//! Choosing the best few of a list of scored items.

use vstd::prelude::*;

verus! {

/// Item `i` comes before item `j`: it has the smaller key, or the same key and the
/// smaller index. This orders the items of a list strictly and totally.
pub open spec fn precedes(keys: Seq<u64>, i: int, j: int) -> bool {
    keys[i] < keys[j] || (keys[i] == keys[j] && i < j)
}

/// `order` names the `order.len()` foremost items of `keys`, foremost first.
pub open spec fn is_ranking(keys: Seq<u64>, order: Seq<usize>) -> bool {
    &&& forall|k: int| 0 <= k < order.len() ==> (#[trigger] order[k]) < keys.len()
    &&& forall|k: int, l: int|
        0 <= k < l < order.len() ==> precedes(
            keys,
            (#[trigger] order[k]) as int,
            (#[trigger] order[l]) as int,
        )
    &&& forall|k: int, j: usize|
        0 <= k < order.len() && j < keys.len() && !(#[trigger] order.contains(j)) ==> precedes(
            keys,
            (#[trigger] order[k]) as int,
            j as int,
        )
}

/// The `m` foremost items of `keys`, foremost first.
pub open spec fn ranking(keys: Seq<u64>, m: nat) -> Seq<usize> {
    choose|order: Seq<usize>| order.len() == m && is_ranking(keys, order)
}

/// A list of keys has at most one ranking of a given length.
pub proof fn lemma_ranking_unique(keys: Seq<u64>, o1: Seq<usize>, o2: Seq<usize>)
    requires
        is_ranking(keys, o1),
        is_ranking(keys, o2),
        o1.len() == o2.len(),
    ensures
        o1 == o2,
{
    assert forall|k: int| 0 <= k < o1.len() implies o1[k] == o2[k] by {
        lemma_ranking_agree(keys, o1, o2, k);
    }
}

/// A ranking of a list of keys is the ranking of its length.
pub proof fn lemma_is_the_ranking(keys: Seq<u64>, order: Seq<usize>)
    requires
        is_ranking(keys, order),
    ensures
        order == ranking(keys, order.len()),
{
    lemma_ranking_unique(keys, order, ranking(keys, order.len()));
}

/// A list of keys whose positions are machine integers has a ranking of every length
/// up to its own: `ranking(keys, m)` is one.
pub proof fn lemma_ranking_exists(keys: Seq<u64>, m: nat)
    requires
        m <= keys.len() <= usize::MAX,
    ensures
        ranking(keys, m).len() == m,
        is_ranking(keys, ranking(keys, m)),
{
    let all = lemma_sorted(keys, keys.len());
    let order = all.subrange(0, m as int);
    assert forall|k: int, j: usize|
        0 <= k < order.len() && j < keys.len() && !(#[trigger] order.contains(j)) implies precedes(
        keys,
        (#[trigger] order[k]) as int,
        j as int,
    ) by {
        assert(all.contains(j));
        let at = choose|at: int| 0 <= at < all.len() && all[at] == j;
        if at < m {
            assert(order[at] == j);
        }
    }
    assert(order.len() == m && is_ranking(keys, order));
}

/// The first `n` items of `keys` in their order, each once.
proof fn lemma_sorted(keys: Seq<u64>, n: nat) -> (all: Seq<usize>)
    requires
        n <= keys.len() <= usize::MAX,
    ensures
        all.len() == n,
        forall|k: int| 0 <= k < n ==> (#[trigger] all[k]) < n,
        forall|k: int, l: int|
            0 <= k < l < n ==> precedes(keys, (#[trigger] all[k]) as int, (#[trigger] all[l]) as int),
        forall|j: usize| j < n ==> all.contains(j),
    decreases n,
{
    if n == 0 {
        Seq::empty()
    } else {
        let rest = lemma_sorted(keys, (n - 1) as nat);
        let x = (n - 1) as usize;
        let all = lemma_placed(keys, rest, x);
        all
    }
}

/// A sorted list of items with one more item in its place.
proof fn lemma_placed(keys: Seq<u64>, rest: Seq<usize>, x: usize) -> (all: Seq<usize>)
    requires
        x < keys.len(),
        forall|k: int| 0 <= k < rest.len() ==> (#[trigger] rest[k]) < x,
        forall|k: int, l: int|
            0 <= k < l < rest.len() ==> precedes(
                keys,
                (#[trigger] rest[k]) as int,
                (#[trigger] rest[l]) as int,
            ),
    ensures
        all.len() == rest.len() + 1,
        forall|k: int| 0 <= k < all.len() ==> (#[trigger] all[k]) <= x,
        forall|k: int, l: int|
            0 <= k < l < all.len() ==> precedes(
                keys,
                (#[trigger] all[k]) as int,
                (#[trigger] all[l]) as int,
            ),
        all.contains(x),
        forall|j: usize| rest.contains(j) ==> all.contains(j),
        forall|k: int| 0 <= k < all.len() ==> (#[trigger] all[k]) == x || rest.contains(all[k]),
    decreases rest.len(),
{
    if rest.len() == 0 || precedes(keys, rest.last() as int, x as int) {
        let all = rest.push(x);
        assert(all[rest.len() as int] == x);
        assert forall|j: usize| rest.contains(j) implies all.contains(j) by {
            let at = choose|at: int| 0 <= at < rest.len() && rest[at] == j;
            assert(all[at] == j);
        }
        all
    } else {
        let last = rest.last();
        let front = rest.drop_last();
        let placed = lemma_placed(keys, front, x);
        let all = placed.push(last);
        assert(all[placed.len() as int] == last);
        assert forall|j: usize| placed.contains(j) implies all.contains(j) by {
            let at = choose|at: int| 0 <= at < placed.len() && placed[at] == j;
            assert(all[at] == j);
        }
        assert forall|j: usize| rest.contains(j) implies all.contains(j) by {
            let at = choose|at: int| 0 <= at < rest.len() && rest[at] == j;
            if at < front.len() {
                assert(front[at] == j);
            }
        }
        all
    }
}

proof fn lemma_ranking_agree(keys: Seq<u64>, o1: Seq<usize>, o2: Seq<usize>, k: int)
    requires
        is_ranking(keys, o1),
        is_ranking(keys, o2),
        o1.len() == o2.len(),
        0 <= k < o1.len(),
    ensures
        o1[k] == o2[k],
    decreases k,
{
    assert forall|p: int| 0 <= p < k implies o1[p] == o2[p] by {
        lemma_ranking_agree(keys, o1, o2, p);
    }
    if o1[k] != o2[k] {
        lemma_not_before(keys, o1, o2, k);
        lemma_not_before(keys, o2, o1, k);
    }
}

/// Where two rankings agree before position `k` and differ at `k`, the first one's item
/// there does not come before the second one's: the second ranking would have to hold
/// it, and has no place for it.
proof fn lemma_not_before(keys: Seq<u64>, o1: Seq<usize>, o2: Seq<usize>, k: int)
    requires
        is_ranking(keys, o1),
        is_ranking(keys, o2),
        o1.len() == o2.len(),
        0 <= k < o1.len(),
        forall|p: int| 0 <= p < k ==> o1[p] == o2[p],
        o1[k] != o2[k],
    ensures
        !precedes(keys, o1[k] as int, o2[k] as int),
{
    let x = o1[k];
    if o2.contains(x) {
        // before `k` it would stand twice in `o1`, after `k` it would come after `o2[k]`
        let m = choose|m: int| 0 <= m < o2.len() && o2[m] == x;
        if m < k {
            assert(precedes(keys, o1[m] as int, o1[k] as int));
        } else {
            assert(precedes(keys, o2[k] as int, o2[m] as int));
        }
    } else {
        // `o2` leaves it out, so all of `o2` comes before it
        assert(precedes(keys, o2[k] as int, x as int));
    }
}

/// Whether item `i` comes before item `j`.
fn comes_before(keys: &Vec<u64>, i: usize, j: usize) -> (r: bool)
    requires
        i < keys.len(),
        j < keys.len(),
    ensures
        r == precedes(keys@, i as int, j as int),
{
    keys[i] < keys[j] || (keys[i] == keys[j] && i < j)
}

/// `out` holds the items from `lo` up to `hi`, each once, in their order.
pub open spec fn is_sorted_range(keys: Seq<u64>, out: Seq<usize>, lo: int, hi: int) -> bool {
    &&& out.len() == hi - lo
    &&& forall|k: int| 0 <= k < out.len() ==> lo <= (#[trigger] out[k]) < hi
    &&& forall|k: int, l: int|
        0 <= k < l < out.len() ==> precedes(keys, (#[trigger] out[k]) as int, (#[trigger] out[l]) as int)
    &&& forall|j: usize| lo <= j < hi ==> out.contains(j)
}

/// Merges two sorted runs of items that stand side by side in `keys`.
fn merge(
    keys: &Vec<u64>,
    left: &Vec<usize>,
    right: &Vec<usize>,
    Ghost(lo): Ghost<int>,
    Ghost(mid): Ghost<int>,
    Ghost(hi): Ghost<int>,
) -> (out: Vec<usize>)
    requires
        0 <= lo <= mid <= hi <= keys@.len(),
        is_sorted_range(keys@, left@, lo, mid),
        is_sorted_range(keys@, right@, mid, hi),
    ensures
        is_sorted_range(keys@, out@, lo, hi),
{
    let mut out: Vec<usize> = Vec::new();
    let mut i: usize = 0;
    let mut j: usize = 0;
    while i < left.len() || j < right.len()
        invariant
            0 <= lo <= mid <= hi <= keys@.len(),
            is_sorted_range(keys@, left@, lo, mid),
            is_sorted_range(keys@, right@, mid, hi),
            i <= left@.len(),
            j <= right@.len(),
            out@.len() == i + j,
            forall|k: int| 0 <= k < out@.len() ==> lo <= (#[trigger] out@[k]) < hi,
            forall|k: int, l: int|
                0 <= k < l < out@.len() ==> precedes(
                    keys@,
                    (#[trigger] out@[k]) as int,
                    (#[trigger] out@[l]) as int,
                ),
            forall|k: int, a: int|
                0 <= k < out@.len() && i <= a < left@.len() ==> precedes(
                    keys@,
                    (#[trigger] out@[k]) as int,
                    (#[trigger] left@[a]) as int,
                ),
            forall|k: int, b: int|
                0 <= k < out@.len() && j <= b < right@.len() ==> precedes(
                    keys@,
                    (#[trigger] out@[k]) as int,
                    (#[trigger] right@[b]) as int,
                ),
            forall|a: int| 0 <= a < i ==> out@.contains(#[trigger] left@[a]),
            forall|b: int| 0 <= b < j ==> out@.contains(#[trigger] right@[b]),
        decreases left@.len() - i + right@.len() - j,
    {
        let from_left = if i == left.len() {
            false
        } else if j == right.len() {
            true
        } else {
            comes_before(keys, left[i], right[j])
        };
        let ghost sofar = out@;
        let next = if from_left {
            left[i]
        } else {
            right[j]
        };
        out.push(next);
        proof {
            assert forall|a: int| 0 <= a < i implies out@.contains(#[trigger] left@[a]) by {
                let at = choose|at: int| 0 <= at < sofar.len() && sofar[at] == left@[a];
                assert(out@[at] == left@[a]);
            }
            assert forall|b: int| 0 <= b < j implies out@.contains(#[trigger] right@[b]) by {
                let at = choose|at: int| 0 <= at < sofar.len() && sofar[at] == right@[b];
                assert(out@[at] == right@[b]);
            }
            assert(out@[sofar.len() as int] == next);
        }
        if from_left {
            i += 1;
        } else {
            j += 1;
        }
    }
    proof {
        assert forall|x: usize| lo <= x < hi implies out@.contains(x) by {
            if x < mid {
                assert(left@.contains(x));
                let a = choose|a: int| 0 <= a < left@.len() && left@[a] == x;
                assert(out@.contains(left@[a]));
            } else {
                assert(right@.contains(x));
                let b = choose|b: int| 0 <= b < right@.len() && right@[b] == x;
                assert(out@.contains(right@[b]));
            }
        }
    }
    out
}

/// The items from `lo` up to `hi` in their order.
fn sort_range(keys: &Vec<u64>, lo: usize, hi: usize) -> (out: Vec<usize>)
    requires
        lo <= hi <= keys@.len(),
    ensures
        is_sorted_range(keys@, out@, lo as int, hi as int),
    decreases hi - lo,
{
    if hi - lo <= 1 {
        let mut out: Vec<usize> = Vec::new();
        if lo < hi {
            out.push(lo);
            assert(out@[0] == lo);
        }
        return out;
    }
    let mid = lo + (hi - lo) / 2;
    let left = sort_range(keys, lo, mid);
    let right = sort_range(keys, mid, hi);
    merge(keys, &left, &right, Ghost(lo as int), Ghost(mid as int), Ghost(hi as int))
}

/// Below this number of items to choose, the foremost items are picked one by one;
/// from it on, all items are sorted.
pub const PICK_LIMIT: usize = 16;

/// Indices of the `n` smallest keys, smallest first, fewer where there are fewer keys.
/// Equal keys keep the order in which they stand in `keys`.
pub fn rank(keys: &Vec<u64>, n: usize) -> (order: Vec<usize>)
    ensures
        order@.len() == (if n <= keys.len() { n } else { keys.len() }),
        is_ranking(keys@, order@),
        order@ == ranking(keys@, order@.len()),
{
    let len = keys.len();
    let m = if n <= len { n } else { len };
    if m >= PICK_LIMIT {
        let mut all = sort_range(keys, 0, len);
        let ghost sorted = all@;
        all.truncate(m);
        proof {
            let order = all@;
            assert forall|p: int, j: usize|
                0 <= p < order.len() && j < keys@.len() && !(#[trigger] order.contains(
                    j,
                )) implies precedes(keys@, (#[trigger] order[p]) as int, j as int) by {
                assert(sorted.contains(j));
                let at = choose|at: int| 0 <= at < sorted.len() && sorted[at] == j;
                if at < m {
                    assert(order[at] == j);
                }
                assert(precedes(keys@, sorted[p] as int, sorted[at] as int));
            }
            assert forall|k: int, l: int| 0 <= k < l < order.len() implies precedes(
                keys@,
                (#[trigger] order[k]) as int,
                (#[trigger] order[l]) as int,
            ) by {
                assert(precedes(keys@, sorted[k] as int, sorted[l] as int));
            }
            lemma_is_the_ranking(keys@, order);
        }
        return all;
    }
    let mut idx: Vec<usize> = Vec::new();
    let mut c: usize = 0;
    while c < len
        invariant
            c <= len,
            idx.len() == c,
            forall|p: int| 0 <= p < c ==> idx[p] == p,
        decreases len - c,
    {
        idx.push(c);
        c += 1;
    }
    // place[j] is where index j stands in idx
    let ghost mut place: Seq<int> = Seq::new(len as nat, |j: int| j);
    let mut k: usize = 0;
    while k < m
        invariant
            k <= m <= len,
            len == keys.len(),
            idx.len() == len,
            place.len() == len,
            forall|p: int| 0 <= p < len ==> (#[trigger] idx[p]) < len && place[idx[p] as int] == p,
            forall|j: int| 0 <= j < len ==> 0 <= (#[trigger] place[j]) < len && idx[place[j]] == j,
            forall|p: int, q: int|
                0 <= p < k && p < q < len ==> precedes(
                    keys@,
                    (#[trigger] idx[p]) as int,
                    (#[trigger] idx[q]) as int,
                ),
        decreases m - k,
    {
        let mut best: usize = k;
        let mut q: usize = k + 1;
        while q < len
            invariant
                k <= best < q <= len,
                len == keys.len(),
                idx.len() == len,
                place.len() == len,
                forall|p: int|
                    0 <= p < len ==> (#[trigger] idx[p]) < len && place[idx[p] as int] == p,
                forall|p: int|
                    k <= p < q && p != best ==> precedes(
                        keys@,
                        idx[best as int] as int,
                        (#[trigger] idx[p]) as int,
                    ),
            decreases len - q,
        {
            if comes_before(keys, idx[q], idx[best]) {
                best = q;
            }
            q += 1;
        }
        let first = idx[best];
        let moved = idx[k];
        idx.set(best, moved);
        idx.set(k, first);
        proof {
            place = place.update(first as int, k as int).update(moved as int, best as int);
        }
        k += 1;
    }
    idx.truncate(m);
    proof {
        let order = idx@;
        assert forall|p: int, j: usize|
            0 <= p < order.len() && j < keys@.len() && !(#[trigger] order.contains(
                j,
            )) implies precedes(keys@, (#[trigger] order[p]) as int, j as int) by {
            let at = place[j as int];
            if at < m {
                assert(order[at] == j);
            }
        }
        lemma_is_the_ranking(keys@, order);
    }
    idx
}

} // verus!
