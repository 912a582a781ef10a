//! Gathering what the fetched pages yield: the listings found, the pages
//! without listings by locality, and what the run ends in.

use crate::entry::{BusinessEntry, EntryView};
use crate::extract::{extract, page_blocks, page_outcome, ExtractionView, RawExtraction, Selectors};
use crate::results::{all_valid, ingested, lemma_ingested, ResultSet};
use crate::rows::{lemma_sorted_rows_items, lemma_sorted_rows_of_set, sorted_rows};
use crate::tally::{exhausted_keys, is_exhausted, LocalityTally};
use crate::text::{nth_segment_from_end, segment_from_end};
use vstd::multiset::Multiset;
use vstd::prelude::*;

verus! {

/// What a request for one page came back with.
pub enum FetchOutcome {
    /// The page, and the address that served it after any redirects.
    Page { body: String, resolved_url: String },
    /// The request failed in transport.
    Failure { cause: String },
}

/// The locality that a page's address names: the piece of the address, cut
/// at `/`, that has `depth` pieces after it; empty when the address has too
/// few pieces.
pub open spec fn locality_of(url: Seq<char>, depth: nat) -> Seq<char> {
    match segment_from_end(url, '/', depth) {
        Some(piece) => piece,
        None => Seq::empty(),
    }
}

/// Reads the locality that a page's address names.
pub fn locality_key(resolved_url: &str, depth: usize) -> (locality: String)
    ensures
        locality@ == locality_of(resolved_url@, depth as nat),
{
    match nth_segment_from_end(resolved_url, '/', depth) {
        Some(piece) => piece,
        None => String::new(),
    }
}

/// What has been gathered: the listings, in the order in which they first
/// came in, and the locality of each page without listings, in the order in
/// which the pages were seen.
pub struct AggregateView {
    pub entries: Seq<EntryView>,
    pub empties: Seq<Seq<char>>,
}

/// What has been gathered after one more page. A page without result
/// blocks adds its locality to the pages without listings, if those are
/// counted; a page with result blocks adds its valid listings.
pub open spec fn recorded(
    state: AggregateView,
    extraction: ExtractionView,
    locality: Seq<char>,
    counting: bool,
) -> AggregateView {
    match extraction {
        ExtractionView::Empty => AggregateView {
            entries: state.entries,
            empties: if counting {
                state.empties.push(locality)
            } else {
                state.empties
            },
        },
        ExtractionView::Records(rows) => AggregateView {
            entries: ingested(state.entries, rows),
            empties: state.empties,
        },
    }
}

/// What is gathered does not depend on the order in which two pages
/// arrive: either way the same listings are held, each locality has the
/// same count of pages without listings, and the same rows are written.
pub proof fn lemma_arrival_order(
    state: AggregateView,
    first: ExtractionView,
    first_locality: Seq<char>,
    second: ExtractionView,
    second_locality: Seq<char>,
    counting: bool,
)
    requires
        state.entries.no_duplicates(),
    ensures
        ({
            let one = recorded(
                recorded(state, first, first_locality, counting),
                second,
                second_locality,
                counting,
            );
            let other = recorded(
                recorded(state, second, second_locality, counting),
                first,
                first_locality,
                counting,
            );
            &&& one.entries.to_set() == other.entries.to_set()
            &&& one.empties.to_multiset() == other.empties.to_multiset()
            &&& sorted_rows(one.entries) == sorted_rows(other.entries)
        }),
{
    let after_first = recorded(state, first, first_locality, counting);
    let after_second = recorded(state, second, second_locality, counting);
    let one = recorded(after_first, second, second_locality, counting);
    let other = recorded(after_second, first, first_locality, counting);
    match (first, second) {
        (ExtractionView::Records(a), ExtractionView::Records(b)) => {
            lemma_ingested(state.entries, a);
            lemma_ingested(state.entries, b);
            lemma_ingested(after_first.entries, b);
            lemma_ingested(after_second.entries, a);
            assert(one.entries.to_set() =~= other.entries.to_set());
        },
        (ExtractionView::Empty, ExtractionView::Empty) => {
            if counting {
                vstd::seq_lib::to_multiset_build(state.empties, first_locality);
                vstd::seq_lib::to_multiset_build(state.empties, second_locality);
                vstd::seq_lib::to_multiset_build(after_first.empties, second_locality);
                vstd::seq_lib::to_multiset_build(after_second.empties, first_locality);
                assert(one.empties.to_multiset() =~= other.empties.to_multiset());
            }
        },
        _ => {},
    }
    lemma_sorted_rows_of_set(one.entries, other.entries);
}

/// Every searched locality is exhausted, and there is at least one.
pub open spec fn all_exhausted(
    tally: Multiset<Seq<char>>,
    localities: Seq<Seq<char>>,
    page_limit: nat,
) -> bool {
    localities.len() > 0 && forall|i: int|
        0 <= i < localities.len() ==> is_exhausted(tally, #[trigger] localities[i], page_limit)
}

/// What a run ends in.
#[derive(Debug, PartialEq, Eq)]
pub enum RunOutcome {
    /// Every searched locality showed no listing on any page: most likely
    /// the category or the place is not valid. Nothing is written.
    NoData,
    /// The rows to write, and the localities that showed no listing on any
    /// page.
    Rows { rows: Vec<BusinessEntry>, exhausted: Vec<String> },
}

/// Gathers what the pages of one run yield, in whatever order they arrive.
pub struct Aggregator {
    results: ResultSet,
    tally: LocalityTally,
    localities: Vec<String>,
    page_limit: usize,
    counting: bool,
    locality_depth: usize,
}

impl View for Aggregator {
    type V = AggregateView;

    open spec fn view(&self) -> AggregateView {
        AggregateView { entries: self.entries(), empties: self.empties() }
    }
}

impl Aggregator {
    /// The listings gathered, in the order in which they first came in.
    pub closed spec fn entries(self) -> Seq<EntryView> {
        self.results.elements()
    }

    /// The locality of each page without listings, in the order in which
    /// the pages were seen.
    pub closed spec fn empties(self) -> Seq<Seq<char>> {
        self.tally.observations()
    }

    /// The localities that are searched.
    pub closed spec fn localities(self) -> Seq<Seq<char>> {
        self.localities.deep_view()
    }

    /// The number of pages requested for each locality.
    pub closed spec fn page_limit(self) -> nat {
        self.page_limit as nat
    }

    /// Whether pages without listings are counted.
    pub closed spec fn counting(self) -> bool {
        self.counting
    }

    /// How many pieces of a page's address stand after its locality.
    pub closed spec fn locality_depth(self) -> nat {
        self.locality_depth as nat
    }

    /// Only valid listings are held, each once, and no page is counted
    /// unless pages are counted at all.
    pub closed spec fn wf(self) -> bool {
        &&& self.results.wf()
        &&& all_valid(self.results.elements())
        &&& !self.counting ==> self.tally.observations().len() == 0
    }

    /// What follows from well-formedness.
    pub proof fn lemma_wf(self)
        requires
            self.wf(),
        ensures
            all_valid(self.entries()),
            self.entries().no_duplicates(),
            !self.counting() ==> self.empties().len() == 0,
    {
        self.results.lemma_distinct();
    }

    /// An aggregator that has seen no page. Pages without listings are
    /// counted by locality when `counting` is set, as it is for a search by
    /// region.
    pub fn new(counting: bool, localities: Vec<String>, page_limit: usize, locality_depth: usize) -> (out:
        Aggregator)
        ensures
            out.wf(),
            out.entries() == Seq::<EntryView>::empty(),
            out.empties() == Seq::<Seq<char>>::empty(),
            out.localities() == localities.deep_view(),
            out.page_limit() == page_limit,
            out.counting() == counting,
            out.locality_depth() == locality_depth,
    {
        Aggregator {
            results: ResultSet::new(),
            tally: LocalityTally::new(),
            localities,
            page_limit,
            counting,
            locality_depth,
        }
    }

    /// Takes in what one page yields. `resolved_url` is the address that
    /// served the page.
    pub fn record(&mut self, extraction: RawExtraction, resolved_url: &str)
        requires
            old(self).wf(),
        ensures
            final(self).wf(),
            final(self)@ == recorded(
                old(self)@,
                extraction@,
                locality_of(resolved_url@, old(self).locality_depth()),
                old(self).counting(),
            ),
            final(self).localities() == old(self).localities(),
            final(self).page_limit() == old(self).page_limit(),
            final(self).counting() == old(self).counting(),
            final(self).locality_depth() == old(self).locality_depth(),
    {
        match extraction {
            RawExtraction::Empty => {
                if self.counting {
                    let locality = locality_key(resolved_url, self.locality_depth);
                    self.tally.record_empty(locality);
                }
            },
            RawExtraction::Records(rows) => {
                let ghost start = self.results.elements();
                let ghost given = rows.deep_view();
                proof {
                    self.results.lemma_distinct();
                }
                for row in it: rows
                    invariant
                        it.seq().len() == given.len(),
                        forall|k: int| 0 <= k < given.len() ==> (#[trigger] it.seq()[k])@ == given[k],
                        self.results.wf(),
                        self.results.elements() == ingested(start, given.take(it.index() as int)),
                        self.tally == old(self).tally,
                        self.localities == old(self).localities,
                        self.page_limit == old(self).page_limit,
                        self.counting == old(self).counting,
                        self.locality_depth == old(self).locality_depth,
                {
                    let ghost next = given.take(it.index() + 1);
                    assert(next.drop_last() == given.take(it.index() as int));
                    assert(next.last() == row@);
                    if row.is_valid() {
                        self.results.insert(row);
                    }
                }
                proof {
                    assert(given.take(given.len() as int) == given);
                    lemma_ingested(start, given);
                }
            },
        }
    }

    /// Takes in what one request came back with. A failed request changes
    /// nothing. A page is read with `selectors` and what it yields is taken
    /// in as [`Aggregator::record`] does.
    pub fn observe(&mut self, outcome: &FetchOutcome, selectors: &Selectors)
        requires
            old(self).wf(),
        ensures
            final(self).wf(),
            outcome is Failure ==> final(self)@ == old(self)@,
            outcome matches FetchOutcome::Page { body, resolved_url } ==> final(self)@ == recorded(
                old(self)@,
                page_outcome(page_blocks(body@, selectors)),
                locality_of(resolved_url@, old(self).locality_depth()),
                old(self).counting(),
            ),
            final(self).localities() == old(self).localities(),
            final(self).page_limit() == old(self).page_limit(),
            final(self).counting() == old(self).counting(),
            final(self).locality_depth() == old(self).locality_depth(),
    {
        match outcome {
            FetchOutcome::Page { body, resolved_url } => {
                let extraction = extract(body.as_str(), selectors);
                self.record(extraction, resolved_url.as_str());
            },
            FetchOutcome::Failure { .. } => {},
        }
    }

    /// Ends the run. When every searched locality is exhausted the run has
    /// no data and nothing is to be written; otherwise the listings come
    /// back as output rows, with the localities that are exhausted.
    pub fn finish(self) -> (out: RunOutcome)
        requires
            self.wf(),
        ensures
            out is NoData <==> all_exhausted(
                self@.empties.to_multiset(),
                self.localities(),
                self.page_limit(),
            ),
            out matches RunOutcome::Rows { rows, exhausted } ==> {
                &&& rows.deep_view() == sorted_rows(self@.entries)
                &&& all_valid(rows.deep_view())
                &&& exhausted.deep_view() == exhausted_keys(self@.empties, self.page_limit())
            },
    {
        let mut all = self.localities.len() > 0;
        let mut i: usize = 0;
        while i < self.localities.len()
            invariant
                i <= self.localities.len(),
                all == (self.localities.len() > 0 && forall|k: int|
                    0 <= k < i ==> is_exhausted(
                        self.tally@,
                        #[trigger] self.localities.deep_view()[k],
                        self.page_limit as nat,
                    )),
            decreases self.localities.len() - i,
        {
            assert(self.localities.deep_view()[i as int] == self.localities[i as int]@);
            if !self.tally.is_exhausted(self.localities[i].as_str(), self.page_limit) {
                all = false;
            }
            i += 1;
        }
        if all {
            RunOutcome::NoData
        } else {
            let exhausted = self.tally.exhausted(self.page_limit);
            let ghost held = self.results.elements();
            let rows = self.results.into_rows();
            proof {
                lemma_sorted_rows_items(held);
                assert forall|k: int| 0 <= k < rows.deep_view().len() implies (
                #[trigger] rows.deep_view()[k]).is_valid() by {
                    let row = rows.deep_view()[k];
                    assert(rows.deep_view().to_set().contains(row));
                    assert(held.to_set().contains(row));
                    let a = choose|a: int| 0 <= a < held.len() && held[a] == row;
                    assert(held[a].is_valid());
                }
            }
            RunOutcome::Rows { rows, exhausted }
        }
    }
}

} // verus!
