//! Text routines over sequences of characters: trimming, replacing,
//! splitting into words, joining, decimal numerals and path segments.

use crate::chars::CharClass;
use vstd::prelude::*;
use vstd::string::StringExecFns;

verus! {

/// The characters of a string, in order.
pub fn to_chars(s: &str) -> (out: Vec<char>)
    ensures
        out@ == s@,
{
    let mut out: Vec<char> = Vec::new();
    for c in it: s.chars()
        invariant
            out@ == s@.take(it.index() as int),
            it.seq() == s@,
    {
        out.push(c);
    }
    out
}

/// The string made of the characters `v[from..to]`.
pub fn from_chars(v: &Vec<char>, from: usize, to: usize) -> (out: String)
    requires
        from <= to <= v.len(),
    ensures
        out@ == v@.subrange(from as int, to as int),
{
    let mut out = String::new();
    let mut i: usize = from;
    while i < to
        invariant
            from <= i <= to <= v.len(),
            out@ == v@.subrange(from as int, i as int),
        decreases to - i,
    {
        out.push(v[i]);
        i += 1;
    }
    out
}

/// End of the longest run of `class` characters that starts at `i`.
pub open spec fn span_end(s: Seq<char>, class: CharClass, i: int) -> int
    decreases s.len() - i,
{
    if 0 <= i < s.len() && class.holds(s[i]) {
        span_end(s, class, i + 1)
    } else {
        i
    }
}

/// End of the longest run of characters outside `class` that starts at `i`.
pub open spec fn gap_end(s: Seq<char>, class: CharClass, i: int) -> int
    decreases s.len() - i,
{
    if 0 <= i < s.len() && !class.holds(s[i]) {
        gap_end(s, class, i + 1)
    } else {
        i
    }
}

/// Start of the longest run of `class` characters that ends at `n`.
pub open spec fn tail_start(s: Seq<char>, class: CharClass, n: int) -> int
    decreases n,
{
    if 0 < n <= s.len() && class.holds(s[n - 1]) {
        tail_start(s, class, n - 1)
    } else {
        n
    }
}

/// A run of `class` characters that starts inside the text ends inside it.
pub proof fn lemma_span_end_bounds(s: Seq<char>, class: CharClass, i: int)
    requires
        0 <= i <= s.len(),
    ensures
        i <= span_end(s, class, i) <= s.len(),
        forall|k: int| i <= k < span_end(s, class, i) ==> class.holds(#[trigger] s[k]),
        span_end(s, class, i) < s.len() ==> !class.holds(s[span_end(s, class, i)]),
    decreases s.len() - i,
{
    if i < s.len() && class.holds(s[i]) {
        lemma_span_end_bounds(s, class, i + 1);
    }
}

/// A run of characters outside `class` that starts inside the text ends
/// inside it.
pub proof fn lemma_gap_end_bounds(s: Seq<char>, class: CharClass, i: int)
    requires
        0 <= i <= s.len(),
    ensures
        i <= gap_end(s, class, i) <= s.len(),
        forall|k: int| i <= k < gap_end(s, class, i) ==> !class.holds(#[trigger] s[k]),
        gap_end(s, class, i) < s.len() ==> class.holds(s[gap_end(s, class, i)]),
    decreases s.len() - i,
{
    if i < s.len() && !class.holds(s[i]) {
        lemma_gap_end_bounds(s, class, i + 1);
    }
}

/// A run of `class` characters that ends inside the text starts inside it.
pub proof fn lemma_tail_start_bounds(s: Seq<char>, class: CharClass, n: int)
    requires
        0 <= n <= s.len(),
    ensures
        0 <= tail_start(s, class, n) <= n,
        forall|k: int| tail_start(s, class, n) <= k < n ==> class.holds(#[trigger] s[k]),
        0 < tail_start(s, class, n) ==> !class.holds(s[tail_start(s, class, n) - 1]),
    decreases n,
{
    if 0 < n && class.holds(s[n - 1]) {
        lemma_tail_start_bounds(s, class, n - 1);
    }
}

/// Computes [`span_end`].
pub fn scan_span(v: &Vec<char>, class: CharClass, i: usize) -> (j: usize)
    requires
        i <= v.len(),
    ensures
        j == span_end(v@, class, i as int),
        i <= j <= v.len(),
{
    let mut j: usize = i;
    while j < v.len() && class.contains(v[j])
        invariant
            i <= j <= v.len(),
            span_end(v@, class, i as int) == span_end(v@, class, j as int),
        decreases v.len() - j,
    {
        j += 1;
    }
    j
}

/// Computes [`gap_end`].
pub fn scan_gap(v: &Vec<char>, class: CharClass, i: usize) -> (j: usize)
    requires
        i <= v.len(),
    ensures
        j == gap_end(v@, class, i as int),
        i <= j <= v.len(),
{
    let mut j: usize = i;
    while j < v.len() && !class.contains(v[j])
        invariant
            i <= j <= v.len(),
            gap_end(v@, class, i as int) == gap_end(v@, class, j as int),
        decreases v.len() - j,
    {
        j += 1;
    }
    j
}

/// Computes [`tail_start`].
pub fn scan_tail(v: &Vec<char>, class: CharClass, n: usize) -> (j: usize)
    requires
        n <= v.len(),
    ensures
        j == tail_start(v@, class, n as int),
        j <= n,
{
    let mut j: usize = n;
    while j > 0 && class.contains(v[j - 1])
        invariant
            j <= n <= v.len(),
            tail_start(v@, class, n as int) == tail_start(v@, class, j as int),
        decreases j,
    {
        j -= 1;
    }
    j
}

/// The text without its trailing run of `class` characters.
pub open spec fn trimmed_end(s: Seq<char>, class: CharClass) -> Seq<char> {
    s.take(tail_start(s, class, s.len() as int))
}

/// The text without its leading and trailing runs of `class` characters.
pub open spec fn trimmed(s: Seq<char>, class: CharClass) -> Seq<char> {
    let a = span_end(s, class, 0);
    let b = tail_start(s, class, s.len() as int);
    if a < b {
        s.subrange(a, b)
    } else {
        Seq::empty()
    }
}

/// The text with every `class` character replaced by `with`.
pub open spec fn replaced(s: Seq<char>, class: CharClass, with: char) -> Seq<char> {
    Seq::new(
        s.len(),
        |i: int|
            if class.holds(s[i]) {
                with
            } else {
                s[i]
            },
    )
}

/// Removes the trailing run of `class` characters.
pub fn trim_end(s: &str, class: CharClass) -> (out: String)
    ensures
        out@ == trimmed_end(s@, class),
{
    let v = to_chars(s);
    let b = scan_tail(&v, class, v.len());
    from_chars(&v, 0, b)
}

/// Removes the leading and trailing runs of `class` characters.
pub fn trim(s: &str, class: CharClass) -> (out: String)
    ensures
        out@ == trimmed(s@, class),
{
    let v = to_chars(s);
    let a = scan_span(&v, class, 0);
    let b = scan_tail(&v, class, v.len());
    if a < b {
        from_chars(&v, a, b)
    } else {
        String::new()
    }
}

/// Replaces every `class` character by `with`.
pub fn replace(s: &str, class: CharClass, with: char) -> (out: String)
    ensures
        out@ == replaced(s@, class, with),
{
    let mut out = String::new();
    for c in it: s.chars()
        invariant
            it.seq() == s@,
            out@ == replaced(s@, class, with).take(it.index() as int),
    {
        if class.contains(c) {
            out.push(with);
        } else {
            out.push(c);
        }
    }
    out
}

/// The words of the text from position `i` on: the maximal runs of
/// characters that are not white space, in order.
pub open spec fn words_from(s: Seq<char>, i: int) -> Seq<Seq<char>>
    decreases s.len() - i,
{
    let a = span_end(s, CharClass::Whitespace, i);
    let b = gap_end(s, CharClass::Whitespace, a);
    if 0 <= i <= a < b <= s.len() {
        seq![s.subrange(a, b)] + words_from(s, b)
    } else {
        Seq::empty()
    }
}

/// The words of the text: its maximal runs of characters that are not
/// white space, in order.
pub open spec fn words(s: Seq<char>) -> Seq<Seq<char>> {
    words_from(s, 0)
}

/// The parts in order, with `sep` between each two neighbours.
pub open spec fn joined(parts: Seq<Seq<char>>, sep: Seq<char>) -> Seq<char>
    decreases parts.len(),
{
    if parts.len() == 0 {
        Seq::empty()
    } else if parts.len() == 1 {
        parts[0]
    } else {
        joined(parts.drop_last(), sep) + sep + parts.last()
    }
}

/// The first maximal run of `class` characters in the text; empty when the
/// text has no such character.
pub open spec fn first_run(s: Seq<char>, class: CharClass) -> Seq<char> {
    let a = gap_end(s, class, 0);
    let b = span_end(s, class, a);
    s.subrange(a, b)
}

/// White space, as a predicate on characters.
pub open spec fn is_space(c: char) -> bool {
    CharClass::Whitespace.holds(c)
}

/// Every word is a non-empty run without white space.
pub proof fn lemma_words_from_shape(s: Seq<char>, i: int)
    requires
        0 <= i <= s.len(),
    ensures
        forall|k: int|
            0 <= k < words_from(s, i).len() ==> (#[trigger] words_from(s, i)[k]).len() > 0,
        forall|k: int, j: int|
            0 <= k < words_from(s, i).len() && 0 <= j < words_from(s, i)[k].len()
                ==> !is_space(#[trigger] words_from(s, i)[k][j]),
    decreases s.len() - i,
{
    let a = span_end(s, CharClass::Whitespace, i);
    let b = gap_end(s, CharClass::Whitespace, a);
    lemma_span_end_bounds(s, CharClass::Whitespace, i);
    lemma_gap_end_bounds(s, CharClass::Whitespace, a);
    if a < b {
        lemma_words_from_shape(s, b);
        let rest = words_from(s, b);
        let all = words_from(s, i);
        assert(all == seq![s.subrange(a, b)] + rest);
        assert forall|k: int| 0 <= k < all.len() implies (#[trigger] all[k]).len() > 0 by {
            if k > 0 {
                assert(all[k] == rest[k - 1]);
            }
        }
        assert forall|k: int, j: int| 0 <= k < all.len() && 0 <= j < all[k].len() implies !is_space(
            #[trigger] all[k][j],
        ) by {
            if k > 0 {
                assert(all[k] == rest[k - 1]);
            } else {
                assert(all[0][j] == s[a + j]);
            }
        }
    }
}

/// Splits the text into its words.
pub fn split_whitespace(s: &str) -> (out: Vec<String>)
    ensures
        out.deep_view() == words(s@),
{
    let v = to_chars(s);
    let mut out: Vec<String> = Vec::new();
    let mut i: usize = 0;
    loop
        invariant
            i <= v.len(),
            v@ == s@,
            words(s@) == out.deep_view() + words_from(s@, i as int),
        ensures
            out.deep_view() == words(s@),
        decreases v.len() - i,
    {
        let a = scan_span(&v, CharClass::Whitespace, i);
        let b = scan_gap(&v, CharClass::Whitespace, a);
        if a >= b {
            assert(words_from(s@, i as int) == Seq::<Seq<char>>::empty());
            assert(out.deep_view() + Seq::<Seq<char>>::empty() == out.deep_view());
            break ;
        }
        let word = from_chars(&v, a, b);
        let ghost before = out.deep_view();
        out.push(word);
        assert(out.deep_view() == before + seq![s@.subrange(a as int, b as int)]);
        assert(words_from(s@, i as int) == seq![s@.subrange(a as int, b as int)] + words_from(
            s@,
            b as int,
        ));
        assert(before + (seq![s@.subrange(a as int, b as int)] + words_from(s@, b as int)) == (
        before + seq![s@.subrange(a as int, b as int)]) + words_from(s@, b as int));
        i = b;
    }
    out
}

/// Joins the parts with `sep` between each two neighbours.
pub fn join(parts: &Vec<String>, sep: &str) -> (out: String)
    ensures
        out@ == joined(parts.deep_view(), sep@),
{
    let mut out = String::new();
    let mut i: usize = 0;
    while i < parts.len()
        invariant
            i <= parts.len(),
            out@ == joined(parts.deep_view().take(i as int), sep@),
        decreases parts.len() - i,
    {
        let ghost done = parts.deep_view().take(i as int);
        let ghost next = parts.deep_view().take(i + 1);
        assert(next.drop_last() == done);
        assert(next.last() == parts[i as int]@);
        if i > 0 {
            out.append(sep);
        }
        out.append(parts[i].as_str());
        assert(out@ == joined(next, sep@)) by {
            if i == 0 {
                assert(done.len() == 0);
                assert(Seq::<char>::empty() + parts[i as int]@ == parts[i as int]@);
            }
        }
        i += 1;
    }
    assert(parts.deep_view().take(parts.len() as int) == parts.deep_view());
    out
}

/// Extracts the first maximal run of `class` characters.
pub fn take_first_run(s: &str, class: CharClass) -> (out: String)
    ensures
        out@ == first_run(s@, class),
{
    let v = to_chars(s);
    let a = scan_gap(&v, class, 0);
    let b = scan_span(&v, class, a);
    from_chars(&v, a, b)
}

/// The decimal digit for a value below ten.
pub open spec fn digit_char(d: int) -> char {
    if d == 0 {
        '0'
    } else if d == 1 {
        '1'
    } else if d == 2 {
        '2'
    } else if d == 3 {
        '3'
    } else if d == 4 {
        '4'
    } else if d == 5 {
        '5'
    } else if d == 6 {
        '6'
    } else if d == 7 {
        '7'
    } else if d == 8 {
        '8'
    } else {
        '9'
    }
}

/// The decimal numeral of `n`, without sign or leading zeros.
pub open spec fn decimal(n: nat) -> Seq<char>
    decreases n,
{
    if n < 10 {
        seq![digit_char(n as int)]
    } else {
        decimal(n / 10).push(digit_char((n % 10) as int))
    }
}

fn digit(d: usize) -> (c: char)
    requires
        d < 10,
    ensures
        c == digit_char(d as int),
{
    if d == 0 {
        '0'
    } else if d == 1 {
        '1'
    } else if d == 2 {
        '2'
    } else if d == 3 {
        '3'
    } else if d == 4 {
        '4'
    } else if d == 5 {
        '5'
    } else if d == 6 {
        '6'
    } else if d == 7 {
        '7'
    } else if d == 8 {
        '8'
    } else {
        '9'
    }
}

/// Appends the decimal numeral of `n` to `out`.
pub fn push_decimal(out: &mut String, n: usize)
    ensures
        final(out)@ == old(out)@ + decimal(n as nat),
    decreases n,
{
    if n >= 10 {
        push_decimal(out, n / 10);
    }
    out.push(digit(n % 10));
}

/// Position of the last `sep` among the first `n` characters, or `-1` when
/// there is none.
pub open spec fn last_index(s: Seq<char>, sep: char, n: int) -> int
    decreases n,
{
    if n <= 0 || n > s.len() {
        -1
    } else if s[n - 1] == sep {
        n - 1
    } else {
        last_index(s, sep, n - 1)
    }
}

/// Of the pieces into which `sep` cuts the first `end` characters, the one
/// that has `k` pieces after it; `None` when there are `k` pieces or fewer.
pub open spec fn segment_before(s: Seq<char>, sep: char, end: int, k: nat) -> Option<Seq<char>>
    decreases k,
{
    let cut = last_index(s, sep, end);
    if k == 0 {
        Some(s.subrange(cut + 1, end))
    } else if cut < 0 {
        None
    } else {
        segment_before(s, sep, cut, (k - 1) as nat)
    }
}

/// Of the pieces into which `sep` cuts the text, the one that has `k` pieces
/// after it: `k = 0` is the last piece. `None` when there are `k` pieces or
/// fewer.
pub open spec fn segment_from_end(s: Seq<char>, sep: char, k: nat) -> Option<Seq<char>> {
    segment_before(s, sep, s.len() as int, k)
}

/// Finds the piece that has `k` pieces after it when `sep` cuts the text.
pub fn nth_segment_from_end(s: &str, sep: char, k: usize) -> (out: Option<String>)
    ensures
        out.deep_view() == segment_from_end(s@, sep, k as nat),
{
    let v = to_chars(s);
    let mut end: usize = v.len();
    let mut left: usize = k;
    loop
        invariant
            end <= v.len(),
            v@ == s@,
            segment_from_end(s@, sep, k as nat) == segment_before(s@, sep, end as int, left as nat),
        decreases left,
    {
        let mut cut: usize = end;
        while cut > 0 && v[cut - 1] != sep
            invariant
                cut <= end <= v.len(),
                last_index(v@, sep, end as int) == last_index(v@, sep, cut as int),
            decreases cut,
        {
            cut -= 1;
        }
        if left == 0 {
            let piece = from_chars(&v, cut, end);
            return Some(piece);
        }
        if cut == 0 {
            return None;
        }
        end = cut - 1;
        left -= 1;
    }
}

} // verus!
