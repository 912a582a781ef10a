use pagine_scraper::chars::{is_ascii_punctuation, CharClass};
use pagine_scraper::text::{
    from_chars, join, nth_segment_from_end, push_decimal, replace, scan_gap, scan_span, scan_tail,
    split_whitespace, take_first_run, to_chars, trim, trim_end,
};

#[test]
fn ascii_punctuation_covers_the_four_ranges() {
    for c in ['!', '/', ':', '@', '[', '`', '{', '~', '_', '-', '.', '\''] {
        assert!(is_ascii_punctuation(c), "{c}");
    }
    for c in [' ', '0', '9', 'A', 'Z', 'a', 'z', '\u{7f}', 'è', '\u{20}', '\u{1f}'] {
        assert!(!is_ascii_punctuation(c), "{c}");
    }
}

#[test]
fn char_classes_decide_membership() {
    assert!(CharClass::Whitespace.contains(' '));
    assert!(CharClass::Whitespace.contains('\n'));
    assert!(CharClass::Whitespace.contains('\u{a0}'));
    assert!(!CharClass::Whitespace.contains('_'));
    assert!(CharClass::Punctuation.contains('.'));
    assert!(!CharClass::Punctuation.contains(' '));
    assert!(CharClass::Separator.contains(' '));
    assert!(CharClass::Separator.contains('\''));
    assert!(!CharClass::Separator.contains('a'));
    assert!(CharClass::Numeric.contains('7'));
    assert!(CharClass::Numeric.contains('٣'));
    assert!(!CharClass::Numeric.contains('K'));
}

#[test]
fn chars_round_trip() {
    let v = to_chars("città");
    assert_eq!(v, vec!['c', 'i', 't', 't', 'à']);
    assert_eq!(from_chars(&v, 0, 5), "città");
    assert_eq!(from_chars(&v, 1, 3), "it");
    assert_eq!(from_chars(&v, 2, 2), "");
}

#[test]
fn scans_find_the_ends_of_runs() {
    let v = to_chars("  ab  ");
    assert_eq!(scan_span(&v, CharClass::Whitespace, 0), 2);
    assert_eq!(scan_span(&v, CharClass::Whitespace, 2), 2);
    assert_eq!(scan_gap(&v, CharClass::Whitespace, 2), 4);
    assert_eq!(scan_gap(&v, CharClass::Whitespace, 6), 6);
    assert_eq!(scan_tail(&v, CharClass::Whitespace, 6), 4);
    assert_eq!(scan_tail(&v, CharClass::Whitespace, 3), 3);
}

#[test]
fn trims_white_space_on_both_sides() {
    assert_eq!(trim("  via Roma 1 \n", CharClass::Whitespace), "via Roma 1");
    assert_eq!(trim(" \t ", CharClass::Whitespace), "");
    assert_eq!(trim("", CharClass::Whitespace), "");
    assert_eq!(trim("x", CharClass::Whitespace), "x");
}

#[test]
fn trims_trailing_punctuation_only() {
    assert_eq!(trim_end("..Bari...", CharClass::Punctuation), "..Bari");
    assert_eq!(trim_end("...", CharClass::Punctuation), "");
    assert_eq!(trim_end("Bari ", CharClass::Punctuation), "Bari ");
}

#[test]
fn replaces_each_separator() {
    assert_eq!(replace("a b.c", CharClass::Separator, '_'), "a_b_c");
    assert_eq!(replace("a  b", CharClass::Whitespace, '_'), "a__b");
    assert_eq!(replace("", CharClass::Whitespace, '_'), "");
}

#[test]
fn splits_and_joins_words() {
    let words = split_whitespace("  02 1234567\t011  7654321 ");
    assert_eq!(words, vec!["02", "1234567", "011", "7654321"]);
    assert_eq!(join(&words, " "), "02 1234567 011 7654321");
    assert_eq!(split_whitespace("   ").len(), 0);
    assert_eq!(split_whitespace("").len(), 0);
    assert_eq!(split_whitespace("uno"), vec!["uno"]);
}

#[test]
fn join_handles_few_parts() {
    let none: Vec<String> = vec![];
    assert_eq!(join(&none, ", "), "");
    assert_eq!(join(&vec!["a".to_string()], ", "), "a");
    assert_eq!(join(&vec!["a".to_string(), "".to_string(), "b".to_string()], ", "), "a, , b");
}

#[test]
fn first_run_is_the_first_block_of_digits() {
    assert_eq!(take_first_run("https://wa.me/+393331234567?text=12", CharClass::Numeric), "393331234567");
    assert_eq!(take_first_run("no digits", CharClass::Numeric), "");
    assert_eq!(take_first_run("", CharClass::Numeric), "");
    assert_eq!(take_first_run("42", CharClass::Numeric), "42");
}

#[test]
fn decimal_numerals_have_no_leading_zero() {
    for (n, text) in [(0usize, "0"), (7, "7"), (10, "10"), (99, "99"), (100, "100"), (12345, "12345")] {
        let mut out = String::from("p-");
        push_decimal(&mut out, n);
        assert_eq!(out, format!("p-{text}"));
    }
    let mut out = String::new();
    push_decimal(&mut out, usize::MAX);
    assert_eq!(out, format!("{}", usize::MAX));
}

#[test]
fn picks_segments_from_the_end() {
    let url = "https://www.paginegialle.it/veneto/padova/ristoranti/p-2.html";
    assert_eq!(nth_segment_from_end(url, '/', 0), Some("p-2.html".to_string()));
    assert_eq!(nth_segment_from_end(url, '/', 1), Some("ristoranti".to_string()));
    assert_eq!(nth_segment_from_end(url, '/', 2), Some("padova".to_string()));
    assert_eq!(nth_segment_from_end(url, '/', 5), Some("".to_string()));
    assert_eq!(nth_segment_from_end(url, '/', 6), Some("https:".to_string()));
    assert_eq!(nth_segment_from_end(url, '/', 7), None);
    assert_eq!(nth_segment_from_end("a/b", '/', 2), None);
    assert_eq!(nth_segment_from_end("a//b", '/', 1), Some("".to_string()));
    assert_eq!(nth_segment_from_end("", '/', 0), Some("".to_string()));
    assert_eq!(nth_segment_from_end("", '/', 1), None);
}

#[test]
fn white_space_is_the_unicode_property() {
    let listed = |c: char| {
        matches!(
            c,
            '\u{9}'..='\u{d}'
                | ' '
                | '\u{85}'
                | '\u{a0}'
                | '\u{1680}'
                | '\u{2000}'..='\u{200a}'
                | '\u{2028}'
                | '\u{2029}'
                | '\u{202f}'
                | '\u{205f}'
                | '\u{3000}'
        )
    };
    let mut count = 0;
    for code in 0u32..=0x10ffff {
        if let Some(c) = char::from_u32(code) {
            assert_eq!(CharClass::Whitespace.contains(c), listed(c), "{code:x}");
            if listed(c) {
                count += 1;
            }
        }
    }
    assert_eq!(count, 25);
}
