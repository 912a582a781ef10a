//! Stable sorting by key: the order in which the positions of a list of keys
//! come out when sorted, with equal keys kept in their given order.

use vstd::prelude::*;
use vstd::set_lib::*;

verus! {

/// A key by which items are sorted: a total preorder on the key's view,
/// together with an executable test for it.
pub trait SortKey: View {
    /// `a` sorts no later than `b`.
    spec fn le(a: Self::V, b: Self::V) -> bool;

    /// Any two keys are comparable.
    proof fn le_total(a: Self::V, b: Self::V)
        ensures
            Self::le(a, b) || Self::le(b, a),
    ;

    /// The order is transitive.
    proof fn le_transitive(a: Self::V, b: Self::V, c: Self::V)
        requires
            Self::le(a, b),
            Self::le(b, c),
        ensures
            Self::le(a, c),
    ;

    /// Decides `le` on two keys.
    fn no_later(&self, other: &Self) -> (r: bool)
        ensures
            r == Self::le(self@, other@),
    ;
}

/// The views of a list of keys.
pub open spec fn key_views<K: SortKey>(keys: Seq<K>) -> Seq<K::V> {
    Seq::new(keys.len(), |i: int| keys[i]@)
}

/// A list of positions, as mathematical integers.
pub open spec fn positions(order: Seq<usize>) -> Seq<int> {
    Seq::new(order.len(), |i: int| order[i] as int)
}

/// Position `i` comes before position `j` in the stable order: its key is
/// strictly smaller, or the keys tie and `i` is the earlier position.
pub open spec fn precedes<K: SortKey>(keys: Seq<K::V>, i: int, j: int) -> bool {
    K::le(keys[i], keys[j]) && (K::le(keys[j], keys[i]) ==> i < j)
}

/// `run` lists positions from `lo..hi`, each before the next in the stable
/// order, and has `hi - lo` entries.
pub open spec fn is_sorted_run<K: SortKey>(keys: Seq<K::V>, run: Seq<int>, lo: int, hi: int) -> bool {
    &&& run.len() == hi - lo
    &&& forall|a: int| 0 <= a < run.len() ==> lo <= #[trigger] run[a] < hi
    &&& forall|a: int, b: int|
        0 <= a < b < run.len() ==> precedes::<K>(keys, #[trigger] run[a], #[trigger] run[b])
}

/// `order` is the stable sorted order of `keys`: it lists every position of
/// `keys` once, by ascending key, and positions with tied keys ascending.
pub open spec fn is_sorted_order<K: SortKey>(keys: Seq<K::V>, order: Seq<int>) -> bool {
    is_sorted_run::<K>(keys, order, 0, keys.len() as int)
}

/// The items of `items` taken in the given order.
pub open spec fn arranged<T>(items: Seq<T>, order: Seq<int>) -> Seq<T> {
    Seq::new(order.len(), |i: int| items[order[i]])
}

/// No position comes before itself, and of two positions at most one comes
/// before the other.
pub proof fn lemma_precedes_asymmetric<K: SortKey>(keys: Seq<K::V>, i: int, j: int)
    ensures
        !(precedes::<K>(keys, i, j) && precedes::<K>(keys, j, i)),
        !precedes::<K>(keys, i, i),
{
}

/// Of two distinct positions one comes before the other.
pub proof fn lemma_precedes_total<K: SortKey>(keys: Seq<K::V>, i: int, j: int)
    requires
        i != j,
    ensures
        precedes::<K>(keys, i, j) || precedes::<K>(keys, j, i),
{
    K::le_total(keys[i], keys[j]);
}

/// A sorted run names no position twice and names every position of its
/// range.
pub proof fn lemma_sorted_run_covers<K: SortKey>(keys: Seq<K::V>, run: Seq<int>, lo: int, hi: int)
    requires
        is_sorted_run::<K>(keys, run, lo, hi),
    ensures
        run.no_duplicates(),
        forall|p: int| lo <= p < hi ==> run.contains(p),
{
    assert forall|a: int, b: int| 0 <= a < run.len() && 0 <= b < run.len() && a != b implies run[a]
        != run[b] by {
        if a < b {
            assert(precedes::<K>(keys, run[a], run[b]));
        } else {
            assert(precedes::<K>(keys, run[b], run[a]));
        }
    }
    run.unique_seq_to_set();
    lemma_int_range(lo, hi);
    let range = set_int_range(lo, hi);
    assert(run.to_set().subset_of(range)) by {
        assert forall|p: int| run.to_set().contains(p) implies range.contains(p) by {
            let a = choose|a: int| 0 <= a < run.len() && run[a] == p;
            assert(lo <= run[a] < hi);
        }
    }
    lemma_len_subset(run.to_set(), range);
    lemma_subset_equality(run.to_set(), range);
    assert forall|p: int| lo <= p < hi implies run.contains(p) by {
        assert(range.contains(p));
        assert(run.to_set().contains(p));
    }
}

proof fn lemma_sorted_orders_agree<K: SortKey>(keys: Seq<K::V>, p: Seq<int>, q: Seq<int>, n: int)
    requires
        is_sorted_order::<K>(keys, p),
        is_sorted_order::<K>(keys, q),
        0 <= n <= keys.len(),
    ensures
        forall|a: int| 0 <= a < n ==> p[a] == q[a],
    decreases n,
{
    if n > 0 {
        lemma_sorted_orders_agree::<K>(keys, p, q, n - 1);
        let a = n - 1;
        let x = p[a];
        let y = q[a];
        if x != y {
            lemma_sorted_run_covers::<K>(keys, p, 0, keys.len() as int);
            lemma_sorted_run_covers::<K>(keys, q, 0, keys.len() as int);
            lemma_precedes_total::<K>(keys, x, y);
            assert(0 <= x < keys.len());
            assert(0 <= y < keys.len());
            if precedes::<K>(keys, x, y) {
                // x must stand somewhere in q; before a it would repeat in p,
                // after a it would come after y.
                assert(q.contains(x));
                let b = choose|b: int| 0 <= b < q.len() && q[b] == x;
                if b < a {
                    assert(p[b] == q[b]);
                    assert(precedes::<K>(keys, p[b], p[a]));
                } else {
                    assert(precedes::<K>(keys, q[a], q[b]));
                }
            } else {
                assert(p.contains(y));
                let b = choose|b: int| 0 <= b < p.len() && p[b] == y;
                if b < a {
                    assert(p[b] == q[b]);
                    assert(precedes::<K>(keys, q[b], q[a]));
                } else {
                    assert(precedes::<K>(keys, p[a], p[b]));
                }
            }
        }
    }
}

/// The stable sorted order is a function of the keys: two orders that both
/// sort the same keys are the same order.
pub proof fn lemma_sorted_order_unique<K: SortKey>(keys: Seq<K::V>, p: Seq<int>, q: Seq<int>)
    requires
        is_sorted_order::<K>(keys, p),
        is_sorted_order::<K>(keys, q),
    ensures
        p == q,
{
    lemma_sorted_orders_agree::<K>(keys, p, q, keys.len() as int);
    assert(p =~= q);
}

/// Sorting rearranges: the arranged items are the given items, each as
/// often as before.
pub proof fn lemma_arranged_same_items<K: SortKey, T>(keys: Seq<K::V>, order: Seq<int>, items: Seq<T>)
    requires
        is_sorted_order::<K>(keys, order),
        items.len() == keys.len(),
    ensures
        arranged(items, order).to_set() == items.to_set(),
        arranged(items, order).len() == items.len(),
{
    lemma_sorted_run_covers::<K>(keys, order, 0, keys.len() as int);
    let out = arranged(items, order);
    assert forall|x: T| out.to_set().contains(x) <==> items.to_set().contains(x) by {
        if out.to_set().contains(x) {
            let a = choose|a: int| 0 <= a < out.len() && out[a] == x;
            assert(0 <= order[a] < items.len());
            assert(items[order[a]] == x);
        }
        if items.to_set().contains(x) {
            let p = choose|p: int| 0 <= p < items.len() && items[p] == x;
            assert(order.contains(p));
            let a = choose|a: int| 0 <= a < order.len() && order[a] == p;
            assert(out[a] == x);
        }
    }
    assert(out.to_set() =~= items.to_set());
}

/// Where a new last position goes into the sorted order of the positions
/// before it: behind every position whose key is no later than its own.
spec fn slot<K: SortKey>(keys: Seq<K::V>, prev: Seq<int>, a: int) -> int
    decreases prev.len() - a,
{
    if 0 <= a < prev.len() && K::le(keys[prev[a]], keys.last()) {
        slot::<K>(keys, prev, a + 1)
    } else {
        a
    }
}

proof fn lemma_slot<K: SortKey>(keys: Seq<K::V>, prev: Seq<int>, a: int)
    requires
        0 <= a <= prev.len(),
    ensures
        a <= slot::<K>(keys, prev, a) <= prev.len(),
        forall|b: int| a <= b < slot::<K>(keys, prev, a) ==> K::le(keys[#[trigger] prev[b]], keys.last()),
        slot::<K>(keys, prev, a) < prev.len() ==> !K::le(
            keys[prev[slot::<K>(keys, prev, a)]],
            keys.last(),
        ),
    decreases prev.len() - a,
{
    if a < prev.len() && K::le(keys[prev[a]], keys.last()) {
        lemma_slot::<K>(keys, prev, a + 1);
    }
}

/// Every list of keys has a stable sorted order.
pub proof fn lemma_sorted_order_exists<K: SortKey>(keys: Seq<K::V>) -> (order: Seq<int>)
    ensures
        is_sorted_order::<K>(keys, order),
    decreases keys.len(),
{
    if keys.len() == 0 {
        Seq::empty()
    } else {
        let m = keys.len() - 1;
        let shorter = keys.drop_last();
        let prev = lemma_sorted_order_exists::<K>(shorter);
        let at = slot::<K>(keys, prev, 0);
        lemma_slot::<K>(keys, prev, 0);
        let order = prev.insert(at, m);
        assert forall|a: int| 0 <= a < order.len() implies 0 <= #[trigger] order[a] < keys.len() by {
            if a < at {
                assert(order[a] == prev[a]);
            } else if a > at {
                assert(order[a] == prev[a - 1]);
            }
        }
        assert forall|a: int, b: int| 0 <= a < b < order.len() implies precedes::<K>(
            keys,
            #[trigger] order[a],
            #[trigger] order[b],
        ) by {
            let pa = if a < at {
                a
            } else {
                a - 1
            };
            let pb = if b < at {
                b
            } else {
                b - 1
            };
            if a != at && b != at {
                assert(order[a] == prev[pa] && order[b] == prev[pb]);
                assert(0 <= prev[pa] < m && 0 <= prev[pb] < m);
                assert(precedes::<K>(shorter, prev[pa], prev[pb]));
                assert(shorter[prev[pa]] == keys[prev[pa]]);
                assert(shorter[prev[pb]] == keys[prev[pb]]);
            } else if b == at {
                assert(order[a] == prev[a]);
                assert(0 <= prev[a] < m);
            } else {
                assert(order[b] == prev[pb]);
                assert(0 <= prev[pb] < m);
                assert(0 <= prev[at] < m);
                K::le_total(keys[prev[pb]], keys[m]);
                if pb > at {
                    assert(precedes::<K>(shorter, prev[at], prev[pb]));
                    assert(shorter[prev[at]] == keys[prev[at]]);
                    assert(shorter[prev[pb]] == keys[prev[pb]]);
                    if K::le(keys[prev[pb]], keys[m]) {
                        K::le_transitive(keys[prev[at]], keys[prev[pb]], keys[m]);
                    }
                }
            }
        }
        order
    }
}

/// The stable sorted order of `keys`: every position once, by ascending
/// key, tied keys in their given order.
pub open spec fn stable_order<K: SortKey>(keys: Seq<K::V>) -> Seq<int> {
    choose|order: Seq<int>| is_sorted_order::<K>(keys, order)
}

/// [`stable_order`] sorts.
pub proof fn lemma_stable_order<K: SortKey>(keys: Seq<K::V>)
    ensures
        is_sorted_order::<K>(keys, stable_order::<K>(keys)),
{
    let witness = lemma_sorted_order_exists::<K>(keys);
}

/// Whatever sorts the keys is [`stable_order`].
pub proof fn lemma_stable_order_only<K: SortKey>(keys: Seq<K::V>, order: Seq<int>)
    requires
        is_sorted_order::<K>(keys, order),
    ensures
        order == stable_order::<K>(keys),
{
    lemma_stable_order::<K>(keys);
    lemma_sorted_order_unique::<K>(keys, order, stable_order::<K>(keys));
}

fn merge_runs<K: SortKey>(
    keys: &Vec<K>,
    left: &Vec<usize>,
    right: &Vec<usize>,
    Ghost(lo): Ghost<int>,
    Ghost(mid): Ghost<int>,
    Ghost(hi): Ghost<int>,
) -> (out: Vec<usize>)
    requires
        0 <= lo <= mid <= hi <= keys.len(),
        is_sorted_run::<K>(key_views(keys@), positions(left@), lo, mid),
        is_sorted_run::<K>(key_views(keys@), positions(right@), mid, hi),
    ensures
        is_sorted_run::<K>(key_views(keys@), positions(out@), lo, hi),
{
    let ghost kv = key_views(keys@);
    let ghost l = positions(left@);
    let ghost r = positions(right@);
    let mut out: Vec<usize> = Vec::new();
    let mut i: usize = 0;
    let mut j: usize = 0;
    while i < left.len() || j < right.len()
        invariant
            0 <= lo <= mid <= hi <= keys.len(),
            kv == key_views(keys@),
            l == positions(left@),
            r == positions(right@),
            is_sorted_run::<K>(kv, l, lo, mid),
            is_sorted_run::<K>(kv, r, mid, hi),
            i <= left.len(),
            j <= right.len(),
            out.len() == i + j,
            forall|a: int| 0 <= a < out.len() ==> lo <= #[trigger] out[a] < hi,
            forall|a: int, b: int|
                0 <= a < b < out.len() ==> precedes::<K>(
                    kv,
                    #[trigger] out[a] as int,
                    #[trigger] out[b] as int,
                ),
            forall|a: int, b: int|
                0 <= a < out.len() && i <= b < left.len() ==> precedes::<K>(
                    kv,
                    #[trigger] out[a] as int,
                    #[trigger] l[b],
                ),
            forall|a: int, b: int|
                0 <= a < out.len() && j <= b < right.len() ==> precedes::<K>(
                    kv,
                    #[trigger] out[a] as int,
                    #[trigger] r[b],
                ),
        decreases left.len() - i + (right.len() - j),
    {
        let take_left = if i >= left.len() {
            false
        } else if j >= right.len() {
            true
        } else {
            assert(lo <= l[i as int] < mid);
            assert(mid <= r[j as int] < hi);
            keys[left[i]].no_later(&keys[right[j]])
        };
        let ghost before = out@;
        if take_left {
            let x = left[i];
            assert(lo <= l[i as int] < mid);
            proof {
                assert forall|b: int| j <= b < right.len() implies precedes::<K>(
                    kv,
                    x as int,
                    #[trigger] r[b],
                ) by {
                    assert(mid <= r[b] < hi);
                    assert(mid <= r[j as int] < hi);
                    if b > j {
                        assert(precedes::<K>(kv, r[j as int], r[b]));
                    } else {
                        K::le_total(kv[r[b]], kv[r[b]]);
                    }
                    K::le_transitive(kv[x as int], kv[r[j as int]], kv[r[b]]);
                }
                assert forall|b: int| i < b < left.len() implies precedes::<K>(
                    kv,
                    x as int,
                    #[trigger] l[b],
                ) by {
                    assert(precedes::<K>(kv, l[i as int], l[b]));
                }
            }
            out.push(x);
            i += 1;
        } else {
            let y = right[j];
            assert(mid <= r[j as int] < hi);
            proof {
                assert forall|b: int| i <= b < left.len() implies precedes::<K>(
                    kv,
                    y as int,
                    #[trigger] l[b],
                ) by {
                    assert(lo <= l[b] < mid);
                    assert(lo <= l[i as int] < mid);
                    K::le_total(kv[l[i as int]], kv[y as int]);
                    if b > i {
                        assert(precedes::<K>(kv, l[i as int], l[b]));
                    } else {
                        K::le_total(kv[l[b]], kv[l[b]]);
                    }
                    K::le_transitive(kv[y as int], kv[l[i as int]], kv[l[b]]);
                    if K::le(kv[l[b]], kv[y as int]) {
                        K::le_transitive(kv[l[i as int]], kv[l[b]], kv[y as int]);
                    }
                }
                assert forall|b: int| j < b < right.len() implies precedes::<K>(
                    kv,
                    y as int,
                    #[trigger] r[b],
                ) by {
                    assert(precedes::<K>(kv, r[j as int], r[b]));
                }
            }
            out.push(y);
            j += 1;
        }
        proof {
            assert forall|a: int| 0 <= a < out.len() implies lo <= #[trigger] out[a] < hi by {
                if a < before.len() {
                    assert(out[a] == before[a]);
                }
            }
            assert forall|a: int, b: int| 0 <= a < b < out.len() implies precedes::<K>(
                kv,
                #[trigger] out[a] as int,
                #[trigger] out[b] as int,
            ) by {
                assert(out[a] == before[a]);
                if b < before.len() {
                    assert(out[b] == before[b]);
                } else if take_left {
                    assert(out[b] as int == l[i - 1]);
                } else {
                    assert(out[b] as int == r[j - 1]);
                }
            }
        }
    }
    proof {
        let o = positions(out@);
        assert forall|a: int| 0 <= a < o.len() implies lo <= #[trigger] o[a] < hi by {
            assert(lo <= out[a] < hi);
        }
        assert forall|a: int, b: int| 0 <= a < b < o.len() implies precedes::<K>(
            kv,
            #[trigger] o[a],
            #[trigger] o[b],
        ) by {
            assert(precedes::<K>(kv, out[a] as int, out[b] as int));
        }
    }
    out
}

fn sort_range<K: SortKey>(keys: &Vec<K>, lo: usize, hi: usize) -> (run: Vec<usize>)
    requires
        lo <= hi <= keys.len(),
    ensures
        is_sorted_run::<K>(key_views(keys@), positions(run@), lo as int, hi as int),
    decreases hi - lo,
{
    if hi - lo == 0 {
        Vec::new()
    } else if hi - lo == 1 {
        let mut run: Vec<usize> = Vec::new();
        run.push(lo);
        run
    } else {
        let mid = lo + (hi - lo) / 2;
        let left = sort_range(keys, lo, mid);
        let right = sort_range(keys, mid, hi);
        merge_runs(keys, &left, &right, Ghost(lo as int), Ghost(mid as int), Ghost(hi as int))
    }
}

/// The stable sorted order of `keys`: every position once, by ascending
/// key, tied keys in their given order.
pub fn sort_order<K: SortKey>(keys: &Vec<K>) -> (order: Vec<usize>)
    ensures
        positions(order@) == stable_order::<K>(key_views(keys@)),
        is_sorted_order::<K>(key_views(keys@), positions(order@)),
        order.len() == keys.len(),
{
    let order = sort_range(keys, 0, keys.len());
    proof {
        lemma_stable_order_only::<K>(key_views(keys@), positions(order@));
    }
    order
}

} // verus!
