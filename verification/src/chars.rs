//! Character classes used by the text routines, and the contracts this
//! library relies on for the standard library's Unicode-aware operations.

use vstd::prelude::*;

verus! {

/// Whether `c` carries the Unicode `White_Space` property: the property
/// has twenty-five characters.
pub open spec fn is_whitespace_char(c: char) -> bool {
    ||| '\u{9}' <= c <= '\u{d}'
    ||| c == ' '
    ||| c == '\u{85}'
    ||| c == '\u{a0}'
    ||| c == '\u{1680}'
    ||| '\u{2000}' <= c <= '\u{200a}'
    ||| c == '\u{2028}'
    ||| c == '\u{2029}'
    ||| c == '\u{202f}'
    ||| c == '\u{205f}'
    ||| c == '\u{3000}'
}

/// Every character of the text is ASCII.
pub open spec fn is_ascii_text(s: Seq<char>) -> bool {
    forall|i: int| 0 <= i < s.len() ==> #[trigger] s[i] <= '\u{7f}'
}

/// Every character of the text is ASCII and comes before the delete
/// character `U+007F`.
pub open spec fn is_ascii_below_delete(s: Seq<char>) -> bool {
    forall|i: int| 0 <= i < s.len() ==> #[trigger] s[i] < '\u{7f}'
}

/// The character with an ASCII capital letter turned into its small letter.
pub open spec fn ascii_lower(c: char) -> char {
    if 'A' <= c <= 'Z' {
        ((c as int) + 32) as char
    } else {
        c
    }
}

/// The text with each ASCII capital letter turned into its small letter.
pub open spec fn ascii_lowercased(s: Seq<char>) -> Seq<char> {
    Seq::new(s.len(), |i: int| ascii_lower(s[i]))
}

/// Whether `c` belongs to one of the Unicode numeric categories, as decided
/// by `char::is_numeric`.
pub uninterp spec fn is_numeric_char(c: char) -> bool;

/// The lowercase form of a text, as produced by `str::to_lowercase`.
pub uninterp spec fn lowercase(s: Seq<char>) -> Seq<char>;

/// `char::is_whitespace` tells whether the character has the Unicode
/// `White_Space` property, which [`is_whitespace_char`] lists.
pub assume_specification[ char::is_whitespace ](c: char) -> (b: bool)
    ensures
        b == is_whitespace_char(c),
;

/// `char::is_numeric` is a fixed property of the character: the result is
/// the membership named by [`is_numeric_char`]. Nothing is claimed about
/// which characters have it.
pub assume_specification[ char::is_numeric ](c: char) -> (b: bool)
    ensures
        b == is_numeric_char(c),
;

/// `str::to_lowercase` depends on the characters of its argument alone; the
/// returned string is the text named by [`lowercase`]. Of an ASCII text it
/// changes the capital letters into small letters and nothing else.
pub assume_specification[ str::to_lowercase ](s: &str) -> (out: String)
    ensures
        out@ == lowercase(s@),
        is_ascii_text(s@) ==> out@ == ascii_lowercased(s@),
;

/// `String::push` appends exactly one character to the end of the string.
pub assume_specification[ String::push ](s: &mut String, c: char)
    ensures
        final(s)@ == old(s)@.push(c),
;

/// ASCII punctuation: the four ranges `!`..=`/`, `:`..=`@`, `[`..=`` ` `` and
/// `{`..=`~`.
pub open spec fn is_ascii_punctuation_char(c: char) -> bool {
    ||| '!' <= c <= '/'
    ||| ':' <= c <= '@'
    ||| '[' <= c <= '`'
    ||| '{' <= c <= '~'
}

/// Decides [`is_ascii_punctuation_char`].
pub fn is_ascii_punctuation(c: char) -> (b: bool)
    ensures
        b == is_ascii_punctuation_char(c),
{
    ('!' <= c && c <= '/') || (':' <= c && c <= '@') || ('[' <= c && c <= '`') || ('{' <= c
        && c <= '~')
}

/// A set of characters that the text routines can skip, trim or replace.
#[derive(Clone, Copy, Debug, PartialEq, Eq)]
pub enum CharClass {
    /// Unicode white space.
    Whitespace,
    /// ASCII punctuation.
    Punctuation,
    /// White space or ASCII punctuation.
    Separator,
    /// Unicode numeric characters.
    Numeric,
}

impl CharClass {
    /// Membership of `c` in the class.
    pub open spec fn holds(self, c: char) -> bool {
        match self {
            CharClass::Whitespace => is_whitespace_char(c),
            CharClass::Punctuation => is_ascii_punctuation_char(c),
            CharClass::Separator => is_whitespace_char(c) || is_ascii_punctuation_char(c),
            CharClass::Numeric => is_numeric_char(c),
        }
    }

    /// Decides membership of `c` in the class.
    pub fn contains(&self, c: char) -> (b: bool)
        ensures
            b == self.holds(c),
    {
        match self {
            CharClass::Whitespace => c.is_whitespace(),
            CharClass::Punctuation => is_ascii_punctuation(c),
            CharClass::Separator => c.is_whitespace() || is_ascii_punctuation(c),
            CharClass::Numeric => c.is_numeric(),
        }
    }
}

} // verus!
