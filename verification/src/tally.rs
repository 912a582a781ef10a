//! The count, for each locality, of the pages that showed no listing, and
//! the localities that showed none on any of their pages.

use vstd::multiset::Multiset;
use vstd::prelude::*;
use vstd::string::StringExecFns;

verus! {

/// A locality is exhausted when pages without listings were seen for it,
/// and as many of them as there are pages for each locality.
pub open spec fn is_exhausted(
    tally: Multiset<Seq<char>>,
    locality: Seq<char>,
    page_limit: nat,
) -> bool {
    tally.count(locality) > 0 && tally.count(locality) == page_limit
}

/// The exhausted localities among the first `n` observations, each named
/// once, in the order in which they were first seen.
pub open spec fn exhausted_upto(observations: Seq<Seq<char>>, page_limit: nat, n: int) -> Seq<
    Seq<char>,
>
    decreases n,
{
    if n <= 0 || n > observations.len() {
        Seq::empty()
    } else {
        let before = exhausted_upto(observations, page_limit, n - 1);
        let locality = observations[n - 1];
        if !observations.take(n - 1).contains(locality) && is_exhausted(
            observations.to_multiset(),
            locality,
            page_limit,
        ) {
            before.push(locality)
        } else {
            before
        }
    }
}

/// The exhausted localities, each named once, in the order in which they
/// were first seen.
pub open spec fn exhausted_keys(observations: Seq<Seq<char>>, page_limit: nat) -> Seq<Seq<char>> {
    exhausted_upto(observations, page_limit, observations.len() as int)
}

proof fn lemma_exhausted_upto(observations: Seq<Seq<char>>, page_limit: nat, n: int)
    requires
        0 <= n <= observations.len(),
    ensures
        exhausted_upto(observations, page_limit, n).no_duplicates(),
        forall|k: Seq<char>| #[trigger]
            exhausted_upto(observations, page_limit, n).contains(k) <==> observations.take(
                n,
            ).contains(k) && is_exhausted(observations.to_multiset(), k, page_limit),
    decreases n,
{
    let out = exhausted_upto(observations, page_limit, n);
    if n > 0 {
        lemma_exhausted_upto(observations, page_limit, n - 1);
        let before = exhausted_upto(observations, page_limit, n - 1);
        let locality = observations[n - 1];
        let seen = observations.take(n - 1);
        let tally = observations.to_multiset();
        assert(observations.take(n) =~= seen.push(locality));
        assert forall|k: Seq<char>| #[trigger]
            out.contains(k) <==> observations.take(n).contains(k) && is_exhausted(
                tally,
                k,
                page_limit,
            ) by {
            if out.contains(k) {
                let a = choose|a: int| 0 <= a < out.len() && out[a] == k;
                if a < before.len() {
                    assert(before.contains(out[a]));
                    let b = choose|b: int| 0 <= b < seen.len() && seen[b] == k;
                    assert(observations.take(n)[b] == k);
                } else {
                    assert(observations.take(n)[n - 1] == k);
                }
            }
            if observations.take(n).contains(k) && is_exhausted(tally, k, page_limit) {
                let b = choose|b: int| 0 <= b < n && observations.take(n)[b] == k;
                if seen.contains(k) {
                    assert(before.contains(k));
                    let a = choose|a: int| 0 <= a < before.len() && before[a] == k;
                    assert(out[a] == k);
                } else {
                    if b < n - 1 {
                        assert(seen[b] == k);
                    }
                    assert(out[out.len() - 1] == k);
                }
            }
        }
        assert(out.no_duplicates()) by {
            if out.len() > before.len() {
                assert(!before.contains(locality));
            }
        }
    }
}

/// The exhausted localities are named once each, and they are exactly the
/// localities that the tally shows as exhausted.
pub proof fn lemma_exhausted_keys(observations: Seq<Seq<char>>, page_limit: nat)
    ensures
        exhausted_keys(observations, page_limit).no_duplicates(),
        forall|k: Seq<char>| #[trigger]
            exhausted_keys(observations, page_limit).contains(k) <==> is_exhausted(
                observations.to_multiset(),
                k,
                page_limit,
            ),
{
    broadcast use vstd::seq_lib::group_to_multiset_ensures;

    lemma_exhausted_upto(observations, page_limit, observations.len() as int);
    assert(observations.take(observations.len() as int) =~= observations);
}

/// The pages without listings seen so far, by locality.
pub struct LocalityTally {
    observed: Vec<String>,
}

impl View for LocalityTally {
    type V = Multiset<Seq<char>>;

    open spec fn view(&self) -> Multiset<Seq<char>> {
        self.observations().to_multiset()
    }
}

impl LocalityTally {
    /// The locality of each page without listings, in the order in which the
    /// pages were seen.
    pub closed spec fn observations(self) -> Seq<Seq<char>> {
        self.observed.deep_view()
    }

    /// A tally without observations.
    pub fn new() -> (tally: LocalityTally)
        ensures
            tally.observations() == Seq::<Seq<char>>::empty(),
    {
        let tally = LocalityTally { observed: Vec::new() };
        assert(tally.observed.deep_view() =~= Seq::<Seq<char>>::empty());
        tally
    }

    /// Counts one more page without listings for the locality.
    pub fn record_empty(&mut self, locality: String)
        ensures
            final(self).observations() == old(self).observations().push(locality@),
            final(self)@ == old(self)@.insert(locality@),
    {
        broadcast use vstd::seq_lib::group_to_multiset_ensures;

        let ghost before = self.observed.deep_view();
        self.observed.push(locality);
        assert(self.observed.deep_view() =~= before.push(locality@));
    }

    /// The number of pages without listings seen for the locality.
    pub fn count(&self, locality: &str) -> (n: usize)
        ensures
            n == self@.count(locality@),
    {
        broadcast use vstd::seq_lib::group_to_multiset_ensures;
        broadcast use vstd::multiset::group_multiset_axioms;

        let wanted = String::from_str(locality);
        let ghost all = self.observed.deep_view();
        let mut n: usize = 0;
        let mut i: usize = 0;
        assert(all.take(0) =~= Seq::<Seq<char>>::empty());
        while i < self.observed.len()
            invariant
                i <= self.observed.len(),
                all == self.observed.deep_view(),
                wanted@ == locality@,
                n <= i,
                n == all.take(i as int).to_multiset().count(locality@),
            decreases self.observed.len() - i,
        {
            proof {
                let seen = all.take(i as int);
                assert(all.take(i + 1) =~= seen.push(all[i as int]));
                vstd::seq_lib::to_multiset_build(seen, all[i as int]);
                assert(all[i as int] == self.observed[i as int]@);
                assert(seen.to_multiset().insert(all[i as int]).count(locality@) == if all[i as int]
                    == locality@ {
                    seen.to_multiset().count(locality@) + 1
                } else {
                    seen.to_multiset().count(locality@)
                });
            }
            if self.observed[i] == wanted {
                n += 1;
            }
            i += 1;
        }
        assert(all.take(self.observed.len() as int) =~= all);
        n
    }

    /// Whether every page of the locality showed no listing.
    pub fn is_exhausted(&self, locality: &str, page_limit: usize) -> (exhausted: bool)
        ensures
            exhausted == is_exhausted(self@, locality@, page_limit as nat),
    {
        let n = self.count(locality);
        n > 0 && n == page_limit
    }

    /// The localities of which every page showed no listing, each once, in
    /// the order in which they were first seen.
    pub fn exhausted(&self, page_limit: usize) -> (localities: Vec<String>)
        ensures
            localities.deep_view() == exhausted_keys(self.observations(), page_limit as nat),
    {
        let ghost all = self.observed.deep_view();
        let mut localities: Vec<String> = Vec::new();
        let mut i: usize = 0;
        while i < self.observed.len()
            invariant
                i <= self.observed.len(),
                all == self.observed.deep_view(),
                localities.deep_view() == exhausted_upto(all, page_limit as nat, i as int),
            decreases self.observed.len() - i,
        {
            let mut seen = false;
            let mut j: usize = 0;
            while j < i
                invariant
                    j <= i < self.observed.len(),
                    all == self.observed.deep_view(),
                    seen ==> all.take(i as int).contains(all[i as int]),
                    !seen ==> forall|k: int| 0 <= k < j ==> all[k] != all[i as int],
                decreases i - j,
            {
                if self.observed[j] == self.observed[i] {
                    assert(all.take(i as int)[j as int] == all[i as int]);
                    seen = true;
                }
                j += 1;
            }
            if !seen && self.is_exhausted(self.observed[i].as_str(), page_limit) {
                let ghost before = localities.deep_view();
                localities.push(self.observed[i].clone());
                assert(localities.deep_view() =~= before.push(all[i as int]));
            }
            i += 1;
        }
        localities
    }
}

} // verus!
