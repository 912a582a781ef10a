//! Merging several earlier outputs into one: which files count, and the
//! rows that come out.

use crate::entry::{BusinessEntry, EntryView};
use crate::results::{all_valid, ingested, lemma_ingested, valid_rows, ResultSet};
use crate::rows::{lemma_sorted_rows_items, lemma_sorted_rows_of_set, sorted_rows};
use crate::text::{last_index, to_chars};
use vstd::prelude::*;

verus! {

/// The extension of a file name: what follows its last dot. A name without
/// a dot has none, and neither has a name whose only dot is its first
/// character.
pub open spec fn extension(file_name: Seq<char>) -> Option<Seq<char>> {
    let dot = last_index(file_name, '.', file_name.len() as int);
    if dot <= 0 {
        None
    } else {
        Some(file_name.skip(dot + 1))
    }
}

/// Whether a file of this name is read by a merge: its extension is `csv`.
pub open spec fn is_csv_name(file_name: Seq<char>) -> bool {
    extension(file_name) == Some(seq!['c', 's', 'v'])
}

/// Decides whether a file of this name is read by a merge.
pub fn has_csv_extension(file_name: &str) -> (csv: bool)
    ensures
        csv == is_csv_name(file_name@),
{
    let v = to_chars(file_name);
    let mut dot: usize = v.len();
    while dot > 0 && v[dot - 1] != '.'
        invariant
            dot <= v.len(),
            last_index(v@, '.', v.len() as int) == last_index(v@, '.', dot as int),
        decreases dot,
    {
        dot -= 1;
    }
    if dot <= 1 {
        return false;
    }
    let found = v.len() - dot == 3 && v[dot] == 'c' && v[dot + 1] == 's' && v[dot + 2] == 'v';
    proof {
        let rest = v@.skip(dot as int);
        if found {
            assert(rest =~= seq!['c', 's', 'v']);
        } else if rest == seq!['c', 's', 'v'] {
            assert(rest.len() == 3);
            assert(rest[0] == 'c' && rest[1] == 's' && rest[2] == 'v');
        }
    }
    found
}

/// The rows of all files, file after file.
pub open spec fn all_rows<T>(files: Seq<Seq<T>>) -> Seq<T>
    decreases files.len(),
{
    if files.len() == 0 {
        Seq::empty()
    } else {
        all_rows(files.drop_last()) + files.last()
    }
}

/// The rows that merging the files writes: every distinct valid row of any
/// file once, sorted as output rows are. A row without a name or without
/// phones is dropped.
pub open spec fn merged_rows(files: Seq<Seq<EntryView>>) -> Seq<EntryView> {
    sorted_rows(ingested(Seq::empty(), all_rows(files)))
}

/// Taking in two batches one after the other is taking them in as one.
pub proof fn lemma_ingested_concat(items: Seq<EntryView>, first: Seq<EntryView>, second: Seq<EntryView>)
    ensures
        ingested(items, first + second) == ingested(ingested(items, first), second),
    decreases second.len(),
{
    if second.len() == 0 {
        assert(first + second =~= first);
    } else {
        lemma_ingested_concat(items, first, second.drop_last());
        assert((first + second).drop_last() =~= first + second.drop_last());
        assert((first + second).last() == second.last());
    }
}

/// What a merge writes holds exactly the valid rows of its files.
pub proof fn lemma_merged_rows_items(files: Seq<Seq<EntryView>>)
    ensures
        merged_rows(files).to_set() == valid_rows(all_rows(files)),
        all_valid(merged_rows(files)),
{
    let rows = all_rows(files);
    let held = ingested(Seq::empty(), rows);
    lemma_ingested(Seq::<EntryView>::empty(), rows);
    lemma_sorted_rows_items(held);
    assert(Seq::<EntryView>::empty().to_set() =~= Set::empty());
    assert(Set::<EntryView>::empty().union(valid_rows(rows)) =~= valid_rows(rows));
    let out = merged_rows(files);
    assert forall|i: int| 0 <= i < out.len() implies (#[trigger] out[i]).is_valid() by {
        assert(out.to_set().contains(out[i]));
        assert(valid_rows(rows).contains(out[i]));
    }
}

proof fn lemma_valid_rows_concat(first: Seq<EntryView>, second: Seq<EntryView>)
    ensures
        valid_rows(first + second) == valid_rows(first).union(valid_rows(second)),
{
    let both = first + second;
    assert forall|row: EntryView| both.contains(row) <==> first.contains(row) || second.contains(
        row,
    ) by {
        if both.contains(row) {
            let a = choose|a: int| 0 <= a < both.len() && both[a] == row;
            if a < first.len() {
                assert(first[a] == row);
            } else {
                assert(second[a - first.len()] == row);
            }
        }
        if first.contains(row) {
            let a = choose|a: int| 0 <= a < first.len() && first[a] == row;
            assert(both[a] == row);
        }
        if second.contains(row) {
            let a = choose|a: int| 0 <= a < second.len() && second[a] == row;
            assert(both[first.len() + a] == row);
        }
    }
    assert(valid_rows(both) =~= valid_rows(first).union(valid_rows(second)));
}

/// What a merge writes is a function of the valid rows that its files
/// hold: it does not depend on the order of the files, on the file in
/// which a row stands, or on how often a row occurs.
pub proof fn lemma_merge_of_set(first: Seq<Seq<EntryView>>, second: Seq<Seq<EntryView>>)
    requires
        valid_rows(all_rows(first)) == valid_rows(all_rows(second)),
    ensures
        merged_rows(first) == merged_rows(second),
{
    lemma_ingested(Seq::<EntryView>::empty(), all_rows(first));
    lemma_ingested(Seq::<EntryView>::empty(), all_rows(second));
    lemma_sorted_rows_of_set(
        ingested(Seq::empty(), all_rows(first)),
        ingested(Seq::empty(), all_rows(second)),
    );
}

/// Merging in two steps gives the same rows as merging in one: first `a`
/// with `b` and then the result with `c`, or `a`, `b` and `c` at once.
pub proof fn lemma_merge_associative(a: Seq<EntryView>, b: Seq<EntryView>, c: Seq<EntryView>)
    ensures
        merged_rows(seq![merged_rows(seq![a, b]), c]) == merged_rows(seq![a, b, c]),
{
    let ab = merged_rows(seq![a, b]);
    lemma_merged_rows_items(seq![a, b]);
    lemma_all_rows_two(a, b);
    lemma_all_rows_two(ab, c);
    assert(seq![a, b, c].drop_last() =~= seq![a, b]);
    assert(all_rows(seq![a, b, c]) == all_rows(seq![a, b]) + c);
    lemma_valid_rows_concat(ab, c);
    lemma_valid_rows_concat(a + b, c);
    assert(valid_rows(ab) =~= valid_rows(a + b)) by {
        assert forall|row: EntryView| valid_rows(ab).contains(row) <==> valid_rows(a + b).contains(
            row,
        ) by {
            assert(ab.contains(row) <==> ab.to_set().contains(row));
        }
    }
    lemma_merge_of_set(seq![ab, c], seq![a, b, c]);
}

proof fn lemma_all_rows_two<T>(a: Seq<T>, b: Seq<T>)
    ensures
        all_rows(seq![a, b]) == a + b,
{
    assert(seq![a, b].drop_last() =~= seq![a]);
    assert(seq![a].drop_last() =~= Seq::<Seq<T>>::empty());
    assert(all_rows(Seq::<Seq<T>>::empty()) =~= Seq::<T>::empty());
    assert(seq![a].last() == a);
    assert(all_rows(seq![a]) == all_rows(seq![a].drop_last()) + a);
    assert(Seq::<T>::empty() + a =~= a);
}

/// Merges the rows of several earlier outputs: every distinct valid row
/// once, sorted as output rows are.
pub fn merge(files: &Vec<Vec<BusinessEntry>>) -> (rows: Vec<BusinessEntry>)
    ensures
        rows.deep_view() == merged_rows(files.deep_view()),
        all_valid(rows.deep_view()),
{
    let mut set = ResultSet::new();
    let mut i: usize = 0;
    while i < files.len()
        invariant
            i <= files.len(),
            set.wf(),
            set.elements() == ingested(Seq::empty(), all_rows(files.deep_view().take(i as int))),
        decreases files.len() - i,
    {
        proof {
            let done = files.deep_view().take(i as int);
            let next = files.deep_view().take(i + 1);
            assert(next.drop_last() == done);
            assert(next.last() == files[i as int].deep_view());
            lemma_ingested_concat(
                Seq::<EntryView>::empty(),
                all_rows(done),
                files[i as int].deep_view(),
            );
        }
        set.ingest(&files[i]);
        i += 1;
    }
    proof {
        assert(files.deep_view().take(files.len() as int) == files.deep_view());
        lemma_merged_rows_items(files.deep_view());
    }
    set.into_rows()
}

} // verus!
