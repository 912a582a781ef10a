//! The set of listings gathered in one run.

use crate::entry::{BusinessEntry, EntryView};
use crate::rows::{sort_and_dedup, sorted_rows};
use vstd::prelude::*;

verus! {

/// The items with `item` added at the end, unless it is among them already.
pub open spec fn inserted<T>(items: Seq<T>, item: T) -> Seq<T> {
    if items.contains(item) {
        items
    } else {
        items.push(item)
    }
}

/// The items after inserting each of `more` in turn.
pub open spec fn inserted_all<T>(items: Seq<T>, more: Seq<T>) -> Seq<T>
    decreases more.len(),
{
    if more.len() == 0 {
        items
    } else {
        inserted(inserted_all(items, more.drop_last()), more.last())
    }
}

/// Inserting an item keeps a list free of repeats, and adds exactly that
/// item to what the list holds.
pub proof fn lemma_inserted<T>(items: Seq<T>, item: T)
    requires
        items.no_duplicates(),
    ensures
        inserted(items, item).no_duplicates(),
        inserted(items, item).to_set() == items.to_set().insert(item),
{
    let out = inserted(items, item);
    assert forall|x: T| out.to_set().contains(x) <==> items.to_set().insert(item).contains(x) by {
        if out.to_set().contains(x) {
            let a = choose|a: int| 0 <= a < out.len() && out[a] == x;
            if a < items.len() {
                assert(items[a] == x);
            }
        }
        if items.to_set().contains(x) {
            let a = choose|a: int| 0 <= a < items.len() && items[a] == x;
            assert(out[a] == x);
        }
        if x == item && !items.contains(item) {
            assert(out[items.len() as int] == x);
        }
    }
    assert(out.to_set() =~= items.to_set().insert(item));
}

/// Inserting the same listing a second time changes nothing: neither the
/// listings held nor their number.
pub proof fn lemma_insert_idempotent<T>(items: Seq<T>, item: T)
    ensures
        inserted(inserted(items, item), item) == inserted(items, item),
        inserted(inserted(items, item), item).len() == inserted(items, item).len(),
{
    if !items.contains(item) {
        assert(items.push(item)[items.len() as int] == item);
    }
}

/// Inserting many items keeps a list free of repeats, and adds exactly
/// those items to what the list holds.
pub proof fn lemma_inserted_all<T>(items: Seq<T>, more: Seq<T>)
    requires
        items.no_duplicates(),
    ensures
        inserted_all(items, more).no_duplicates(),
        inserted_all(items, more).to_set() == items.to_set().union(more.to_set()),
    decreases more.len(),
{
    if more.len() == 0 {
        assert(more.to_set() =~= Set::empty());
        assert(items.to_set().union(more.to_set()) =~= items.to_set());
    } else {
        let shorter = more.drop_last();
        lemma_inserted_all(items, shorter);
        lemma_inserted(inserted_all(items, shorter), more.last());
        assert forall|x: T| more.to_set().contains(x) <==> (shorter.to_set().contains(x) || x
            == more.last()) by {
            if more.to_set().contains(x) {
                let a = choose|a: int| 0 <= a < more.len() && more[a] == x;
                if a < shorter.len() {
                    assert(shorter[a] == x);
                }
            }
            if shorter.to_set().contains(x) {
                let a = choose|a: int| 0 <= a < shorter.len() && shorter[a] == x;
                assert(more[a] == x);
            }
            if x == more.last() {
                assert(more[more.len() - 1] == x);
            }
        }
        assert(inserted_all(items, more).to_set() =~= items.to_set().union(more.to_set()));
    }
}

/// Inserting two batches one after the other is inserting them as one.
pub proof fn lemma_inserted_all_concat<T>(items: Seq<T>, first: Seq<T>, second: Seq<T>)
    ensures
        inserted_all(items, first + second) == inserted_all(inserted_all(items, first), second),
    decreases second.len(),
{
    if second.len() == 0 {
        assert(first + second =~= first);
    } else {
        lemma_inserted_all_concat(items, first, second.drop_last());
        assert((first + second).drop_last() =~= first + second.drop_last());
        assert((first + second).last() == second.last());
    }
}

/// The listings held after taking in `rows` one by one: a row is inserted
/// when it is valid and dropped when it is not.
pub open spec fn ingested(entries: Seq<EntryView>, rows: Seq<EntryView>) -> Seq<EntryView>
    decreases rows.len(),
{
    if rows.len() == 0 {
        entries
    } else if rows.last().is_valid() {
        inserted(ingested(entries, rows.drop_last()), rows.last())
    } else {
        ingested(entries, rows.drop_last())
    }
}

/// Every listing is valid.
pub open spec fn all_valid(entries: Seq<EntryView>) -> bool {
    forall|i: int| 0 <= i < entries.len() ==> (#[trigger] entries[i]).is_valid()
}

/// The valid listings among the rows.
pub open spec fn valid_rows(rows: Seq<EntryView>) -> Set<EntryView> {
    Set::new(|row: EntryView| rows.contains(row) && row.is_valid())
}

/// Taking in rows adds exactly the valid ones to what is held, whatever
/// their order, and holds each listing once. A listing without a name or
/// without phones is never taken in, whatever its other fields hold.
pub proof fn lemma_ingested(entries: Seq<EntryView>, rows: Seq<EntryView>)
    requires
        entries.no_duplicates(),
    ensures
        ingested(entries, rows).no_duplicates(),
        ingested(entries, rows).to_set() == entries.to_set().union(valid_rows(rows)),
        all_valid(entries) ==> all_valid(ingested(entries, rows)),
    decreases rows.len(),
{
    let out = ingested(entries, rows);
    if rows.len() == 0 {
        assert(valid_rows(rows) =~= Set::empty());
        assert(out.to_set() =~= entries.to_set().union(valid_rows(rows)));
    } else {
        let shorter = rows.drop_last();
        let before = ingested(entries, shorter);
        lemma_ingested(entries, shorter);
        lemma_inserted(before, rows.last());
        assert forall|row: EntryView| valid_rows(rows).contains(row) <==> (valid_rows(
            shorter,
        ).contains(row) || (row == rows.last() && row.is_valid())) by {
            if rows.contains(row) {
                let a = choose|a: int| 0 <= a < rows.len() && rows[a] == row;
                if a < shorter.len() {
                    assert(shorter[a] == row);
                }
            }
            if shorter.contains(row) {
                let a = choose|a: int| 0 <= a < shorter.len() && shorter[a] == row;
                assert(rows[a] == row);
            }
            if row == rows.last() {
                assert(rows[rows.len() - 1] == row);
            }
        }
        assert(out.to_set() =~= entries.to_set().union(valid_rows(rows)));
        if all_valid(entries) {
            assert forall|i: int| 0 <= i < out.len() implies (#[trigger] out[i]).is_valid() by {
                if i < before.len() {
                    assert(out[i] == before[i]);
                }
            }
        }
    }
}

/// The listings gathered so far, each held once. Two listings count as the
/// same when all their fields agree.
pub struct ResultSet {
    entries: Vec<BusinessEntry>,
}

impl View for ResultSet {
    type V = Set<EntryView>;

    open spec fn view(&self) -> Set<EntryView> {
        self.elements().to_set()
    }
}

impl ResultSet {
    /// No listing is held twice.
    pub closed spec fn wf(self) -> bool {
        self.entries.deep_view().no_duplicates()
    }

    /// The listings held, in the order in which they first came in.
    pub closed spec fn elements(self) -> Seq<EntryView> {
        self.entries.deep_view()
    }

    /// A well-formed set lists nothing twice, so it holds as many listings
    /// as it lists.
    pub proof fn lemma_distinct(self)
        requires
            self.wf(),
        ensures
            self.elements().no_duplicates(),
            self@.len() == self.elements().len(),
    {
        self.elements().unique_seq_to_set();
    }

    /// An empty set.
    pub fn new() -> (set: ResultSet)
        ensures
            set.wf(),
            set.elements() == Seq::<EntryView>::empty(),
    {
        let set = ResultSet { entries: Vec::new() };
        assert(set.entries.deep_view() =~= Seq::<EntryView>::empty());
        set
    }

    /// The number of listings held.
    pub fn len(&self) -> (n: usize)
        ensures
            n == self.elements().len(),
            self.wf() ==> n == self@.len(),
    {
        proof {
            if self.wf() {
                self.lemma_distinct();
            }
        }
        self.entries.len()
    }

    /// Whether the listing is held.
    pub fn contains(&self, entry: &BusinessEntry) -> (found: bool)
        ensures
            found == self.elements().contains(entry@),
    {
        let mut i: usize = 0;
        while i < self.entries.len()
            invariant
                i <= self.entries.len(),
                forall|k: int| 0 <= k < i ==> self.entries.deep_view()[k] != entry@,
            decreases self.entries.len() - i,
        {
            if self.entries[i].same_as(entry) {
                assert(self.entries.deep_view()[i as int] == entry@);
                return true;
            }
            i += 1;
        }
        false
    }

    /// Adds the listing unless it is held already; tells whether it was
    /// added.
    pub fn insert(&mut self, entry: BusinessEntry) -> (added: bool)
        requires
            old(self).wf(),
        ensures
            final(self).wf(),
            final(self).elements() == inserted(old(self).elements(), entry@),
            added == !old(self).elements().contains(entry@),
            final(self).elements().len() == old(self).elements().len() + if added {
                1int
            } else {
                0int
            },
    {
        proof {
            lemma_inserted(self.entries.deep_view(), entry@);
        }
        if self.contains(&entry) {
            false
        } else {
            let ghost before = self.entries.deep_view();
            self.entries.push(entry);
            assert(self.entries.deep_view() =~= before.push(entry@));
            true
        }
    }

    /// Adds each of the listings in turn.
    pub fn extend(&mut self, rows: &Vec<BusinessEntry>)
        requires
            old(self).wf(),
        ensures
            final(self).wf(),
            final(self).elements() == inserted_all(old(self).elements(), rows.deep_view()),
    {
        let mut i: usize = 0;
        while i < rows.len()
            invariant
                i <= rows.len(),
                self.wf(),
                self.elements() == inserted_all(old(self).elements(), rows.deep_view().take(i as int)),
            decreases rows.len() - i,
        {
            assert(rows.deep_view().take(i + 1).drop_last() == rows.deep_view().take(i as int));
            self.insert(rows[i].clone());
            i += 1;
        }
        assert(rows.deep_view().take(rows.len() as int) == rows.deep_view());
    }

    /// Takes in each of the rows in turn: a valid row is inserted, any other
    /// row is dropped.
    pub fn ingest(&mut self, rows: &Vec<BusinessEntry>)
        requires
            old(self).wf(),
        ensures
            final(self).wf(),
            final(self).elements() == ingested(old(self).elements(), rows.deep_view()),
    {
        let mut i: usize = 0;
        while i < rows.len()
            invariant
                i <= rows.len(),
                self.wf(),
                self.elements() == ingested(old(self).elements(), rows.deep_view().take(i as int)),
            decreases rows.len() - i,
        {
            assert(rows.deep_view().take(i + 1).drop_last() == rows.deep_view().take(i as int));
            assert(rows.deep_view().take(i + 1).last() == rows[i as int]@);
            if rows[i].is_valid() {
                self.insert(rows[i].clone());
            }
            i += 1;
        }
        assert(rows.deep_view().take(rows.len() as int) == rows.deep_view());
    }

    /// The listings as output rows: sorted, equal neighbours collapsed.
    pub fn into_rows(self) -> (rows: Vec<BusinessEntry>)
        ensures
            rows.deep_view() == sorted_rows(self.elements()),
    {
        sort_and_dedup(self.entries)
    }
}

} // verus!
