//! Turning free-form place and category names into the tokens that stand in
//! page addresses.

use crate::chars::{
    ascii_lower, ascii_lowercased, is_ascii_below_delete, is_ascii_punctuation_char, is_ascii_text,
    is_whitespace_char,
    lowercase, CharClass,
};
use crate::text::{
    lemma_span_end_bounds, lemma_tail_start_bounds, replace, replaced, span_end, tail_start, trim,
    trim_end, trimmed, trimmed_end,
};
use vstd::prelude::*;

verus! {

/// The ASCII transliteration of a text, as produced by
/// `deunicode::deunicode`.
pub uninterp spec fn transliteration(s: Seq<char>) -> Seq<char>;

/// `deunicode::deunicode` maps each character through fixed tables and
/// depends on the characters of its argument alone; the returned string is
/// the text named by [`transliteration`]. The crate documents that the
/// result is ASCII, and its source hands a text back as it is when every
/// byte of the text is below `0x7F`.
pub assume_specification[ deunicode::deunicode ](s: &str) -> (out: String)
    ensures
        out@ == transliteration(s@),
        is_ascii_text(out@),
        is_ascii_below_delete(s@) ==> out@ == s@,
;

/// A place name without trailing punctuation, and with an underscore in
/// place of each white-space or punctuation character that is left.
pub open spec fn separated(name: Seq<char>) -> Seq<char> {
    replaced(
        replaced(trimmed_end(name, CharClass::Punctuation), CharClass::Whitespace, '_'),
        CharClass::Punctuation,
        '_',
    )
}

/// The token for a place name: [`separated`], lowercased, transliterated to
/// ASCII.
pub open spec fn sanitized(name: Seq<char>) -> Seq<char> {
    transliteration(lowercase(separated(name)))
}

/// The token for a category label: trimmed of white space, lowercased, with
/// an underscore in place of each white-space or punctuation character.
pub open spec fn category_token(label: Seq<char>) -> Seq<char> {
    underscored(lowercase(trimmed(label, CharClass::Whitespace)))
}

/// The text with an underscore in place of each white-space or punctuation
/// character.
pub open spec fn underscored(text: Seq<char>) -> Seq<char> {
    replaced(text, CharClass::Separator, '_')
}

/// Strips trailing punctuation and puts underscores for white space and
/// punctuation.
pub fn separate(name: &str) -> (out: String)
    ensures
        out@ == separated(name@),
{
    let stripped = trim_end(name, CharClass::Punctuation);
    let spaced = replace(stripped.as_str(), CharClass::Whitespace, '_');
    replace(spaced.as_str(), CharClass::Punctuation, '_')
}

/// Puts underscores for white space and punctuation.
pub fn underscore(text: &str) -> (out: String)
    ensures
        out@ == underscored(text@),
{
    replace(text, CharClass::Separator, '_')
}

/// A character of a plain name: an ASCII letter or digit, a space, or ASCII
/// punctuation.
pub open spec fn is_plain_char(c: char) -> bool {
    ||| 'a' <= c <= 'z'
    ||| 'A' <= c <= 'Z'
    ||| '0' <= c <= '9'
    ||| c == ' '
    ||| is_ascii_punctuation_char(c)
}

/// A character of a token made of a plain name: a small ASCII letter, a
/// digit or an underscore.
pub open spec fn is_token_char(c: char) -> bool {
    ||| 'a' <= c <= 'z'
    ||| '0' <= c <= '9'
    ||| c == '_'
}

/// Every character of the text is a letter, digit, space or punctuation
/// mark of ASCII.
pub open spec fn is_plain_text(s: Seq<char>) -> bool {
    forall|i: int| 0 <= i < s.len() ==> is_plain_char(#[trigger] s[i])
}

/// Every character of the text is a small ASCII letter, a digit or an
/// underscore.
pub open spec fn is_token_text(s: Seq<char>) -> bool {
    forall|i: int| 0 <= i < s.len() ==> is_token_char(#[trigger] s[i])
}

/// Separating a name of ASCII characters below the delete character and
/// making its capital letters small leaves such texts. Of a name made of
/// ASCII letters, digits, spaces and punctuation alone, what comes out
/// holds small letters, digits and underscores only.
pub proof fn lemma_separated_ascii(name: Seq<char>)
    requires
        is_ascii_below_delete(name),
    ensures
        is_ascii_below_delete(separated(name)),
        is_ascii_below_delete(ascii_lowercased(separated(name))),
        is_plain_text(name) ==> is_token_text(ascii_lowercased(separated(name))),
{
    let end = tail_start(name, CharClass::Punctuation, name.len() as int);
    lemma_tail_start_bounds(name, CharClass::Punctuation, name.len() as int);
    let stripped = trimmed_end(name, CharClass::Punctuation);
    let spaced = replaced(stripped, CharClass::Whitespace, '_');
    let cut = separated(name);
    assert(cut.len() == end);
    assert forall|i: int| 0 <= i < cut.len() implies #[trigger] cut[i] < '\u{7f}' && (cut[i] == '_'
        || (cut[i] == name[i] && !is_whitespace_char(cut[i]) && !is_ascii_punctuation_char(
        cut[i],
    ))) by {
        assert(stripped[i] == name[i]);
        assert(name[i] < '\u{7f}');
        assert(spaced[i] == if is_whitespace_char(stripped[i]) {
            '_'
        } else {
            stripped[i]
        });
    }
    let low = ascii_lowercased(cut);
    assert forall|i: int| 0 <= i < low.len() implies #[trigger] low[i] < '\u{7f}' by {
        assert(low[i] == ascii_lower(cut[i]));
        assert(cut[i] < '\u{7f}');
    }
    if is_plain_text(name) {
        assert forall|i: int| 0 <= i < low.len() implies is_token_char(#[trigger] low[i]) by {
            assert(low[i] == ascii_lower(cut[i]));
            assert(cut[i] < '\u{7f}');
            if cut[i] != '_' {
                assert(is_plain_char(name[i]));
            }
        }
    }
}

/// The token under which a place stands in page addresses. The token is
/// ASCII. Of a name of ASCII characters below the delete character it is
/// the separated name with its capital letters made small; of a name made
/// of ASCII letters, digits, spaces and punctuation alone it holds small
/// letters, digits and underscores only.
pub fn sanitize_comune_str(comune: &str) -> (out: String)
    ensures
        out@ == sanitized(comune@),
        is_ascii_text(out@),
        is_ascii_below_delete(comune@) ==> out@ == ascii_lowercased(separated(comune@)),
        is_plain_text(comune@) ==> is_token_text(out@),
{
    proof {
        if is_plain_text(comune@) {
            assert forall|i: int| 0 <= i < comune@.len() implies #[trigger] comune@[i]
                < '\u{7f}' by {
                assert(is_plain_char(comune@[i]));
            }
        }
        if is_ascii_below_delete(comune@) {
            lemma_separated_ascii(comune@);
            let cut = separated(comune@);
            assert forall|i: int| 0 <= i < cut.len() implies #[trigger] cut[i] <= '\u{7f}' by {
                assert(cut[i] < '\u{7f}');
            }
        }
    }
    let separated = separate(comune);
    let lowered = separated.as_str().to_lowercase();
    deunicode::deunicode(lowered.as_str())
}

/// The token under which a category stands in page addresses. Of an ASCII
/// label it is the trimmed label with its capital letters made small and
/// an underscore for each white-space or punctuation character.
pub fn normalize_category(label: &str) -> (out: String)
    ensures
        out@ == category_token(label@),
        is_ascii_text(label@) ==> out@ == underscored(
            ascii_lowercased(trimmed(label@, CharClass::Whitespace)),
        ),
{
    proof {
        if is_ascii_text(label@) {
            let s = label@;
            let cut = trimmed(s, CharClass::Whitespace);
            lemma_span_end_bounds(s, CharClass::Whitespace, 0);
            lemma_tail_start_bounds(s, CharClass::Whitespace, s.len() as int);
            assert forall|i: int| 0 <= i < cut.len() implies #[trigger] cut[i] <= '\u{7f}' by {
                let a = span_end(s, CharClass::Whitespace, 0);
                assert(cut[i] == s[a + i]);
            }
        }
    }
    let trimmed = trim(label, CharClass::Whitespace);
    let lowered = trimmed.as_str().to_lowercase();
    underscore(lowered.as_str())
}

} // verus!
