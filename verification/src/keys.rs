//! The two sort keys of this library: a list of texts in dictionary order,
//! and a count in descending order.

use crate::sorting::SortKey;
use vstd::prelude::*;

verus! {

/// Dictionary order on texts from position `i` on, given that the texts
/// agree before `i`: `a` is a prefix of `b`, or at the first position where
/// they differ `a` has the smaller character.
pub open spec fn lex_le_from(a: Seq<char>, b: Seq<char>, i: int) -> bool
    decreases a.len() - i,
{
    if i < 0 || i >= a.len() {
        true
    } else if i >= b.len() {
        false
    } else if a[i] != b[i] {
        a[i] < b[i]
    } else {
        lex_le_from(a, b, i + 1)
    }
}

/// Dictionary order on texts, characters compared by code point.
pub open spec fn lex_le(a: Seq<char>, b: Seq<char>) -> bool {
    lex_le_from(a, b, 0)
}

proof fn lemma_lex_total_from(a: Seq<char>, b: Seq<char>, i: int)
    requires
        0 <= i,
    ensures
        lex_le_from(a, b, i) || lex_le_from(b, a, i),
    decreases a.len() - i,
{
    if i < a.len() && i < b.len() && a[i] == b[i] {
        lemma_lex_total_from(a, b, i + 1);
    }
}

proof fn lemma_lex_transitive_from(a: Seq<char>, b: Seq<char>, c: Seq<char>, i: int)
    requires
        0 <= i,
        lex_le_from(a, b, i),
        lex_le_from(b, c, i),
    ensures
        lex_le_from(a, c, i),
    decreases a.len() - i,
{
    if i < a.len() && a[i] == b[i] && b[i] == c[i] {
        lemma_lex_transitive_from(a, b, c, i + 1);
    }
}

proof fn lemma_lex_antisymmetric_from(a: Seq<char>, b: Seq<char>, i: int)
    requires
        0 <= i <= a.len(),
        i <= b.len(),
        forall|k: int| 0 <= k < i ==> a[k] == b[k],
        lex_le_from(a, b, i),
        lex_le_from(b, a, i),
    ensures
        a == b,
    decreases a.len() - i,
{
    if i < a.len() {
        lemma_lex_antisymmetric_from(a, b, i + 1);
    } else {
        assert(a =~= b);
    }
}

/// Any two texts are comparable in dictionary order.
pub proof fn lemma_lex_total(a: Seq<char>, b: Seq<char>)
    ensures
        lex_le(a, b) || lex_le(b, a),
{
    lemma_lex_total_from(a, b, 0);
}

/// Dictionary order is transitive.
pub proof fn lemma_lex_transitive(a: Seq<char>, b: Seq<char>, c: Seq<char>)
    requires
        lex_le(a, b),
        lex_le(b, c),
    ensures
        lex_le(a, c),
{
    lemma_lex_transitive_from(a, b, c, 0);
}

/// Two texts that each come no later than the other are the same text.
pub proof fn lemma_lex_antisymmetric(a: Seq<char>, b: Seq<char>)
    requires
        lex_le(a, b),
        lex_le(b, a),
    ensures
        a == b,
{
    lemma_lex_antisymmetric_from(a, b, 0);
}

/// How one text stands to another in dictionary order.
#[derive(Clone, Copy, Debug, PartialEq, Eq)]
pub enum Rank {
    /// Strictly earlier.
    Before,
    /// The same text.
    Same,
    /// Strictly later.
    After,
}

/// Ranks `a` against `b` in dictionary order.
pub fn lex_rank(a: &Vec<char>, b: &Vec<char>) -> (r: Rank)
    ensures
        r == Rank::Before <==> lex_le(a@, b@) && a@ != b@,
        r == Rank::Same <==> a@ == b@,
        r == Rank::After <==> !lex_le(a@, b@),
{
    proof {
        lemma_lex_total(a@, a@);
    }
    let mut i: usize = 0;
    while i < a.len() && i < b.len()
        invariant
            i <= a.len(),
            i <= b.len(),
            forall|k: int| 0 <= k < i ==> a@[k] == b@[k],
            lex_le(a@, b@) == lex_le_from(a@, b@, i as int),
        decreases a.len() - i,
    {
        if a[i] != b[i] {
            if a[i] < b[i] {
                return Rank::Before;
            } else {
                return Rank::After;
            }
        }
        i += 1;
    }
    if i < b.len() {
        Rank::Before
    } else if i < a.len() {
        Rank::After
    } else {
        assert(a@ =~= b@);
        Rank::Same
    }
}

/// Dictionary order on lists of texts from position `i` on, given that the
/// lists agree before `i`: `a` is a prefix of `b`, or at the first position
/// where they differ `a` has the text that comes first.
pub open spec fn list_le_from(a: Seq<Seq<char>>, b: Seq<Seq<char>>, i: int) -> bool
    decreases a.len() - i,
{
    if i < 0 || i >= a.len() {
        true
    } else if i >= b.len() {
        false
    } else if a[i] != b[i] {
        lex_le(a[i], b[i])
    } else {
        list_le_from(a, b, i + 1)
    }
}

/// Dictionary order on lists of texts: by the first texts, then by the
/// second, and so on.
pub open spec fn list_le(a: Seq<Seq<char>>, b: Seq<Seq<char>>) -> bool {
    list_le_from(a, b, 0)
}

proof fn lemma_list_total_from(a: Seq<Seq<char>>, b: Seq<Seq<char>>, i: int)
    requires
        0 <= i,
    ensures
        list_le_from(a, b, i) || list_le_from(b, a, i),
    decreases a.len() - i,
{
    if i < a.len() && i < b.len() {
        if a[i] == b[i] {
            lemma_list_total_from(a, b, i + 1);
        } else {
            lemma_lex_total(a[i], b[i]);
        }
    }
}

proof fn lemma_list_transitive_from(a: Seq<Seq<char>>, b: Seq<Seq<char>>, c: Seq<Seq<char>>, i: int)
    requires
        0 <= i,
        list_le_from(a, b, i),
        list_le_from(b, c, i),
    ensures
        list_le_from(a, c, i),
    decreases a.len() - i,
{
    if i < a.len() {
        if a[i] == b[i] && b[i] == c[i] {
            lemma_list_transitive_from(a, b, c, i + 1);
        } else if a[i] != b[i] && b[i] != c[i] {
            lemma_lex_transitive(a[i], b[i], c[i]);
            if a[i] == c[i] {
                lemma_lex_antisymmetric(a[i], b[i]);
            }
        }
    }
}

proof fn lemma_list_antisymmetric_from(a: Seq<Seq<char>>, b: Seq<Seq<char>>, i: int)
    requires
        0 <= i <= a.len(),
        i <= b.len(),
        forall|k: int| 0 <= k < i ==> a[k] == b[k],
        list_le_from(a, b, i),
        list_le_from(b, a, i),
    ensures
        a == b,
    decreases a.len() - i,
{
    if i < a.len() {
        if a[i] != b[i] {
            lemma_lex_antisymmetric(a[i], b[i]);
        }
        lemma_list_antisymmetric_from(a, b, i + 1);
    } else {
        assert(a =~= b);
    }
}

/// Two lists of texts that each come no later than the other are the same
/// list.
pub proof fn lemma_list_antisymmetric(a: Seq<Seq<char>>, b: Seq<Seq<char>>)
    requires
        list_le(a, b),
        list_le(b, a),
    ensures
        a == b,
{
    lemma_list_antisymmetric_from(a, b, 0);
}

/// A list of texts, ordered by its first text and, among lists that agree
/// so far, by the next.
pub struct TextList {
    pub parts: Vec<Vec<char>>,
}

impl View for TextList {
    type V = Seq<Seq<char>>;

    open spec fn view(&self) -> Seq<Seq<char>> {
        Seq::new(self.parts@.len(), |i: int| self.parts@[i]@)
    }
}

impl SortKey for TextList {
    open spec fn le(a: Seq<Seq<char>>, b: Seq<Seq<char>>) -> bool {
        list_le(a, b)
    }

    proof fn le_total(a: Seq<Seq<char>>, b: Seq<Seq<char>>) {
        lemma_list_total_from(a, b, 0);
    }

    proof fn le_transitive(a: Seq<Seq<char>>, b: Seq<Seq<char>>, c: Seq<Seq<char>>) {
        lemma_list_transitive_from(a, b, c, 0);
    }

    fn no_later(&self, other: &Self) -> (r: bool) {
        let mut i: usize = 0;
        while i < self.parts.len()
            invariant
                i <= self.parts.len(),
                list_le(self@, other@) == list_le_from(self@, other@, i as int),
            decreases self.parts.len() - i,
        {
            if i >= other.parts.len() {
                return false;
            }
            assert(self@[i as int] == self.parts[i as int]@);
            assert(other@[i as int] == other.parts[i as int]@);
            match lex_rank(&self.parts[i], &other.parts[i]) {
                Rank::Before => {
                    return true;
                },
                Rank::After => {
                    proof {
                        lemma_lex_total(self@[i as int], self@[i as int]);
                    }
                    return false;
                },
                Rank::Same => {},
            }
            i += 1;
        }
        true
    }
}

/// A count, ordered from the largest down.
pub struct Descending {
    pub value: usize,
}

impl View for Descending {
    type V = int;

    open spec fn view(&self) -> int {
        self.value as int
    }
}

impl SortKey for Descending {
    open spec fn le(a: int, b: int) -> bool {
        a >= b
    }

    proof fn le_total(a: int, b: int) {
    }

    proof fn le_transitive(a: int, b: int, c: int) {
    }

    fn no_later(&self, other: &Self) -> (r: bool) {
        self.value >= other.value
    }
}

} // verus!
