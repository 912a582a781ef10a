//! The cities of a province or region, and the choice of those in which a
//! search by region looks.

use crate::keys::Descending;
use crate::normalize::{sanitize_comune_str, sanitized};
use crate::sorting::{arranged, is_sorted_order, key_views, positions, sort_order, stable_order};
use vstd::prelude::*;

verus! {

/// A city as the lookup service lists it.
#[derive(Debug, PartialEq, Eq)]
pub struct Comune {
    /// The city's name.
    pub nome: String,
    /// The number of inhabitants.
    pub popolazione: usize,
}

/// The model of a [`Comune`].
pub struct ComuneView {
    pub nome: Seq<char>,
    pub popolazione: int,
}

impl View for Comune {
    type V = ComuneView;

    open spec fn view(&self) -> ComuneView {
        ComuneView { nome: self.nome@, popolazione: self.popolazione as int }
    }
}

impl DeepView for Comune {
    type V = ComuneView;

    open spec fn deep_view(&self) -> ComuneView {
        self@
    }
}

/// The populations of the cities, position by position.
pub open spec fn populations(comuni: Seq<ComuneView>) -> Seq<int> {
    Seq::new(comuni.len(), |i: int| comuni[i].popolazione)
}

/// The cities that are kept: all of them, or, when only big cities are
/// wanted, the first half (rounded down) of the cities sorted from the most
/// populous down, cities of equal population in their given order.
pub open spec fn kept_comuni(comuni: Seq<ComuneView>, big_only: bool) -> Seq<ComuneView> {
    if big_only {
        arranged(comuni, stable_order::<Descending>(populations(comuni))).take(
            (comuni.len() / 2) as int,
        )
    } else {
        comuni
    }
}

/// The tokens of the kept cities, in their order.
pub open spec fn comuni_names(comuni: Seq<ComuneView>, big_only: bool) -> Seq<Seq<char>> {
    Seq::new(
        kept_comuni(comuni, big_only).len(),
        |i: int| sanitized(kept_comuni(comuni, big_only)[i].nome),
    )
}

/// The tokens of the cities to search: of all cities, or of the more
/// populous half when `filter_for_big_cities` is set.
pub fn names_of_comuni(comuni: &Vec<Comune>, filter_for_big_cities: bool) -> (names: Vec<String>)
    ensures
        names.deep_view() == comuni_names(comuni.deep_view(), filter_for_big_cities),
{
    let mut names: Vec<String> = Vec::new();
    if filter_for_big_cities {
        let mut keys: Vec<Descending> = Vec::new();
        let mut i: usize = 0;
        while i < comuni.len()
            invariant
                i <= comuni.len(),
                keys.len() == i,
                forall|k: int| 0 <= k < i ==> (#[trigger] keys[k])@ == comuni[k].popolazione,
            decreases comuni.len() - i,
        {
            keys.push(Descending { value: comuni[i].popolazione });
            i += 1;
        }
        assert(key_views(keys@) =~= populations(comuni.deep_view()));
        let order = sort_order(&keys);
        let half = comuni.len() / 2;
        let ghost kept = kept_comuni(comuni.deep_view(), true);
        assert(kept.len() == half);
        let mut i: usize = 0;
        while i < half
            invariant
                i <= half <= order.len(),
                order.len() == comuni.len(),
                half == comuni.len() / 2,
                kept == kept_comuni(comuni.deep_view(), true),
                kept.len() == half,
                positions(order@) == stable_order::<Descending>(populations(comuni.deep_view())),
                is_sorted_order::<Descending>(
                    populations(comuni.deep_view()),
                    positions(order@),
                ),
                names.len() == i,
                forall|k: int| 0 <= k < i ==> (#[trigger] names[k])@ == sanitized(kept[k].nome),
            decreases half - i,
        {
            assert(0 <= positions(order@)[i as int] < comuni.len());
            assert(kept[i as int] == comuni[order[i as int] as int]@);
            names.push(sanitize_comune_str(comuni[order[i]].nome.as_str()));
            i += 1;
        }
        assert(names.deep_view() =~= comuni_names(comuni.deep_view(), true));
    } else {
        let mut i: usize = 0;
        while i < comuni.len()
            invariant
                i <= comuni.len(),
                names.len() == i,
                forall|k: int| 0 <= k < i ==> (#[trigger] names[k])@ == sanitized(comuni[k].nome@),
            decreases comuni.len() - i,
        {
            names.push(sanitize_comune_str(comuni[i].nome.as_str()));
            i += 1;
        }
        assert(names.deep_view() =~= comuni_names(comuni.deep_view(), false));
    }
    names
}

} // verus!
