//! The output rows: listings sorted by lowercased name and address, then by
//! their fields as they are, with equal neighbours collapsed into one.

use crate::entry::{lemma_sort_key_injective, BusinessEntry, EntryView};
use crate::keys::lemma_list_antisymmetric;
use crate::keys::TextList;
use crate::sorting::{
    arranged, is_sorted_order, key_views, lemma_arranged_same_items, lemma_stable_order,
    lemma_stable_order_only, positions, precedes, sort_order, stable_order, SortKey,
};
use vstd::prelude::*;

verus! {

/// The items with every item that equals the one just before it left out.
pub open spec fn collapsed<T>(items: Seq<T>) -> Seq<T>
    decreases items.len(),
{
    if items.len() == 0 {
        items
    } else if items.len() >= 2 && items[items.len() - 1] == items[items.len() - 2] {
        collapsed(items.drop_last())
    } else {
        collapsed(items.drop_last()).push(items.last())
    }
}

/// The sort keys of the rows, position by position.
pub open spec fn row_keys(rows: Seq<EntryView>) -> Seq<Seq<Seq<char>>> {
    Seq::new(rows.len(), |i: int| rows[i].sort_key())
}

/// The rows in their stable sorted order by key.
pub open spec fn ordered_rows(rows: Seq<EntryView>) -> Seq<EntryView> {
    arranged(rows, stable_order::<TextList>(row_keys(rows)))
}

/// The rows as they are written out: sorted by lowercased name, then
/// lowercased address, then by every field as it is, and equal neighbours
/// collapsed into one. Equal rows are neighbours after sorting, so each row
/// is written once.
pub open spec fn sorted_rows(rows: Seq<EntryView>) -> Seq<EntryView> {
    collapsed(ordered_rows(rows))
}

/// Collapsing keeps the first of each run of equal neighbours: the result
/// holds the same items, and is a subsequence in the same order.
pub proof fn lemma_collapsed_items<T>(items: Seq<T>)
    ensures
        collapsed(items).to_set() == items.to_set(),
        collapsed(items).len() <= items.len(),
        items.len() > 0 ==> collapsed(items).len() > 0 && collapsed(items).last() == items.last(),
    decreases items.len(),
{
    if items.len() > 0 {
        let shorter = items.drop_last();
        lemma_collapsed_items(shorter);
        let out = collapsed(items);
        assert forall|x: T| out.to_set().contains(x) <==> items.to_set().contains(x) by {
            if out.to_set().contains(x) {
                let a = choose|a: int| 0 <= a < out.len() && out[a] == x;
                if a < collapsed(shorter).len() {
                    assert(collapsed(shorter).to_set().contains(out[a]));
                    assert(shorter.to_set().contains(x));
                    let b = choose|b: int| 0 <= b < shorter.len() && shorter[b] == x;
                    assert(items[b] == x);
                } else {
                    assert(x == items.last());
                }
            }
            if items.to_set().contains(x) {
                let b = choose|b: int| 0 <= b < items.len() && items[b] == x;
                if b < shorter.len() {
                    assert(shorter[b] == x);
                    assert(shorter.to_set().contains(x));
                    assert(collapsed(shorter).to_set().contains(x));
                    let a = choose|a: int|
                        0 <= a < collapsed(shorter).len() && collapsed(shorter)[a] == x;
                    assert(out[a] == x);
                } else {
                    assert(out.last() == x);
                }
            }
        }
        assert(out.to_set() =~= items.to_set());
    }
}

/// Collapsing leaves a list without repeated items as it is.
pub proof fn lemma_collapsed_distinct<T>(items: Seq<T>)
    requires
        items.no_duplicates(),
    ensures
        collapsed(items) == items,
    decreases items.len(),
{
    if items.len() > 0 {
        lemma_collapsed_distinct(items.drop_last());
        assert(items.drop_last().push(items.last()) =~= items);
    }
}

/// In collapsed rows no row equals the row just before it.
pub proof fn lemma_collapsed_neighbours<T>(items: Seq<T>)
    ensures
        forall|i: int|
            0 < i < collapsed(items).len() ==> collapsed(items)[i - 1] != #[trigger] collapsed(
                items,
            )[i],
    decreases items.len(),
{
    if items.len() > 0 {
        lemma_collapsed_neighbours(items.drop_last());
        lemma_collapsed_items(items.drop_last());
    }
}

/// The written rows hold exactly the listings that were given.
pub proof fn lemma_sorted_rows_items(rows: Seq<EntryView>)
    ensures
        sorted_rows(rows).to_set() == rows.to_set(),
{
    lemma_stable_order::<TextList>(row_keys(rows));
    lemma_arranged_same_items::<TextList, EntryView>(
        row_keys(rows),
        stable_order::<TextList>(row_keys(rows)),
        rows,
    );
    lemma_collapsed_items(ordered_rows(rows));
}

/// Whatever holds between every earlier and every later item still holds
/// between them after collapsing.
pub proof fn lemma_collapsed_keeps_order<T>(items: Seq<T>, related: spec_fn(T, T) -> bool)
    requires
        forall|a: int, b: int| 0 <= a < b < items.len() ==> related(items[a], items[b]),
    ensures
        forall|i: int, j: int|
            0 <= i < j < collapsed(items).len() ==> related(
                collapsed(items)[i],
                collapsed(items)[j],
            ),
    decreases items.len(),
{
    if items.len() > 0 {
        let shorter = items.drop_last();
        assert forall|a: int, b: int| 0 <= a < b < shorter.len() implies related(
            shorter[a],
            shorter[b],
        ) by {
            assert(related(items[a], items[b]));
        }
        lemma_collapsed_keeps_order(shorter, related);
        lemma_collapsed_items(shorter);
        let out = collapsed(items);
        let inner = collapsed(shorter);
        assert forall|i: int, j: int| 0 <= i < j < out.len() implies related(out[i], out[j]) by {
            if j < inner.len() {
                assert(related(inner[i], inner[j]));
            } else {
                assert(inner.to_set().contains(inner[i]));
                assert(shorter.to_set().contains(out[i]));
                let a = choose|a: int| 0 <= a < shorter.len() && shorter[a] == out[i];
                assert(related(items[a], items[items.len() - 1]));
            }
        }
    }
}

/// The written rows stand in key order: a row's key comes no later than
/// that of any row after it.
pub proof fn lemma_sorted_rows_ascend(rows: Seq<EntryView>)
    ensures
        forall|i: int, j: int|
            0 <= i < j < sorted_rows(rows).len() ==> TextList::le(
                sorted_rows(rows)[i].sort_key(),
                sorted_rows(rows)[j].sort_key(),
            ),
{
    let keys = row_keys(rows);
    let order = stable_order::<TextList>(keys);
    lemma_stable_order::<TextList>(keys);
    let sorted = ordered_rows(rows);
    let related = |x: EntryView, y: EntryView| TextList::le(x.sort_key(), y.sort_key());
    assert forall|a: int, b: int| 0 <= a < b < sorted.len() implies related(sorted[a], sorted[b]) by {
        assert(precedes::<TextList>(keys, order[a], order[b]));
        assert(0 <= order[a] < rows.len() && 0 <= order[b] < rows.len());
    }
    lemma_collapsed_keeps_order(sorted, related);
}

/// Whatever order sorts the rows by key, rows with the same key in their
/// given order, is the one in which they are written.
pub proof fn lemma_ordered_rows_unique(rows: Seq<EntryView>, order: Seq<int>)
    requires
        is_sorted_order::<TextList>(row_keys(rows), order),
    ensures
        order == stable_order::<TextList>(row_keys(rows)),
        arranged(rows, order) == ordered_rows(rows),
{
    lemma_stable_order_only::<TextList>(row_keys(rows), order);
}

/// A row comes strictly before another: its key comes no later, and it is
/// another row.
pub open spec fn row_before(a: EntryView, b: EntryView) -> bool {
    TextList::le(a.sort_key(), b.sort_key()) && a != b
}

/// Each row of the list comes strictly before every row after it.
pub open spec fn strictly_ascending(rows: Seq<EntryView>) -> bool {
    forall|i: int, j: int| 0 <= i < j < rows.len() ==> row_before(rows[i], rows[j])
}

/// The written rows ascend strictly: no row is written twice.
pub proof fn lemma_sorted_rows_strict(rows: Seq<EntryView>)
    ensures
        strictly_ascending(sorted_rows(rows)),
        sorted_rows(rows).no_duplicates(),
{
    let out = sorted_rows(rows);
    lemma_sorted_rows_ascend(rows);
    lemma_collapsed_neighbours(ordered_rows(rows));
    assert forall|i: int, j: int| 0 <= i < j < out.len() implies row_before(out[i], out[j]) by {
        if out[i] == out[j] {
            // the row after `i` lies between two equal rows, so it equals them
            if j > i + 1 {
                assert(TextList::le(out[i].sort_key(), out[i + 1].sort_key()));
                assert(TextList::le(out[i + 1].sort_key(), out[j].sort_key()));
                lemma_list_antisymmetric(out[i].sort_key(), out[i + 1].sort_key());
                lemma_sort_key_injective(out[i], out[i + 1]);
            }
            assert(out[i] != out[(i + 1)]);
        }
    }
    assert forall|i: int, j: int| 0 <= i < out.len() && 0 <= j < out.len() && i != j implies out[i]
        != out[j] by {
        if i < j {
            assert(row_before(out[i], out[j]));
        } else {
            assert(row_before(out[j], out[i]));
        }
    }
}

proof fn lemma_ascending_agree(a: Seq<EntryView>, b: Seq<EntryView>, n: int)
    requires
        strictly_ascending(a),
        strictly_ascending(b),
        a.to_set() == b.to_set(),
        0 <= n <= a.len(),
        n <= b.len(),
    ensures
        forall|i: int| 0 <= i < n ==> a[i] == b[i],
    decreases n,
{
    if n > 0 {
        lemma_ascending_agree(a, b, n - 1);
        let p = n - 1;
        let x = a[p];
        let y = b[p];
        if x != y {
            TextList::le_total(x.sort_key(), y.sort_key());
            if TextList::le(x.sort_key(), y.sort_key()) {
                assert(a.to_set().contains(x));
                assert(b.contains(x));
                let q = choose|q: int| 0 <= q < b.len() && b[q] == x;
                if q < p {
                    assert(a[q] == b[q]);
                    assert(row_before(a[q], a[p]));
                } else {
                    assert(row_before(b[p], b[q]));
                    lemma_list_antisymmetric(x.sort_key(), y.sort_key());
                    lemma_sort_key_injective(x, y);
                }
            } else {
                assert(b.to_set().contains(y));
                assert(a.contains(y));
                let q = choose|q: int| 0 <= q < a.len() && a[q] == y;
                if q < p {
                    assert(a[q] == b[q]);
                    assert(row_before(b[q], b[p]));
                } else {
                    assert(row_before(a[p], a[q]));
                    lemma_list_antisymmetric(x.sort_key(), y.sort_key());
                    lemma_sort_key_injective(x, y);
                }
            }
        }
    }
}

/// The written rows are a function of the set of listings: two lists that
/// hold the same listings, in whatever order and however often, are written
/// as the same rows in the same order.
pub proof fn lemma_sorted_rows_of_set(a: Seq<EntryView>, b: Seq<EntryView>)
    requires
        a.to_set() == b.to_set(),
    ensures
        sorted_rows(a) == sorted_rows(b),
{
    let x = sorted_rows(a);
    let y = sorted_rows(b);
    lemma_sorted_rows_strict(a);
    lemma_sorted_rows_strict(b);
    lemma_sorted_rows_items(a);
    lemma_sorted_rows_items(b);
    x.unique_seq_to_set();
    y.unique_seq_to_set();
    lemma_ascending_agree(x, y, x.len() as int);
    assert(x =~= y);
}

/// Sorts the listings by lowercased name, then lowercased address, then by
/// every field as it is, and drops every listing that equals the one before
/// it.
pub fn sort_and_dedup(entries: Vec<BusinessEntry>) -> (rows: Vec<BusinessEntry>)
    ensures
        rows.deep_view() == sorted_rows(entries.deep_view()),
{
    let ghost given = entries.deep_view();
    let mut keys: Vec<TextList> = Vec::new();
    let mut i: usize = 0;
    while i < entries.len()
        invariant
            i <= entries.len(),
            keys.len() == i,
            forall|k: int| 0 <= k < i ==> (#[trigger] keys[k])@ == entries[k]@.sort_key(),
        decreases entries.len() - i,
    {
        keys.push(entries[i].sort_key());
        i += 1;
    }
    assert(key_views(keys@) =~= row_keys(given));
    let order = sort_order(&keys);
    let ghost sorted = ordered_rows(given);
    assert(sorted.len() == entries.len());
    let mut rows: Vec<BusinessEntry> = Vec::new();
    let mut i: usize = 0;
    while i < order.len()
        invariant
            i <= order.len(),
            order.len() == entries.len(),
            given == entries.deep_view(),
            sorted == arranged(given, positions(order@)),
            is_sorted_order::<TextList>(row_keys(given), positions(order@)),
            rows.deep_view() == collapsed(sorted.take(i as int)),
        decreases order.len() - i,
    {
        let ghost prefix = sorted.take(i as int);
        let ghost next = sorted.take(i + 1);
        assert(next.drop_last() == prefix);
        assert(0 <= positions(order@)[i as int] < entries.len());
        assert(next.last() == entries[order[i as int] as int]@);
        let repeated = if i == 0 {
            false
        } else {
            assert(0 <= positions(order@)[i - 1] < entries.len());
            assert(next[i - 1] == entries[order[i - 1] as int]@);
            entries[order[i]].same_as(&entries[order[i - 1]])
        };
        if !repeated {
            let ghost before = rows.deep_view();
            rows.push(entries[order[i]].clone());
            assert(rows.deep_view() == before.push(next.last()));
        }
        i += 1;
    }
    assert(sorted.take(order.len() as int) == sorted);
    rows
}

} // verus!
