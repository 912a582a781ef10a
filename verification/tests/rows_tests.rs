use pagine_scraper::entry::{copy_text, same_text, BusinessEntry};
use pagine_scraper::keys::TextList;
use pagine_scraper::merge::{has_csv_extension, merge};
use pagine_scraper::results::ResultSet;
use pagine_scraper::rows::sort_and_dedup;
use pagine_scraper::text::to_chars;

fn entry(name: &str, address: &str, phones: &str) -> BusinessEntry {
    BusinessEntry {
        name: name.to_string(),
        address: address.to_string(),
        phones: phones.to_string(),
        whatsapp: None,
        website: None,
        contact_url: None,
    }
}

fn with_site(name: &str, address: &str, phones: &str, site: &str) -> BusinessEntry {
    BusinessEntry { website: Some(site.to_string()), ..entry(name, address, phones) }
}

fn names(rows: &Vec<BusinessEntry>) -> Vec<String> {
    rows.iter().map(|r| format!("{}@{}", r.name, r.address)).collect()
}

#[test]
fn validity_needs_name_and_phones() {
    assert!(entry("Bar", "", "02-1").is_valid());
    assert!(!entry("", "Via Roma", "02-1").is_valid());
    assert!(!entry("Bar", "Via Roma", "").is_valid());
    assert!(!with_site("", "", "", "http://x").is_valid());
}

#[test]
fn sameness_looks_at_every_field() {
    let a = with_site("Bar", "Via Roma", "02-1", "http://x");
    assert!(a.same_as(&with_site("Bar", "Via Roma", "02-1", "http://x")));
    assert!(!a.same_as(&entry("Bar", "Via Roma", "02-1")));
    assert!(!a.same_as(&with_site("Bar", "Via Roma", "02-1", "http://y")));
    assert!(!a.same_as(&with_site("Bar", "Via Roma", "02-2", "http://x")));
    assert!(!a.same_as(&with_site("Bar", "Via Rom", "02-1", "http://x")));
    assert!(!a.same_as(&with_site("bar", "Via Roma", "02-1", "http://x")));
    let b = BusinessEntry { whatsapp: Some("39".to_string()), ..entry("Bar", "", "1") };
    let c = BusinessEntry { contact_url: Some("39".to_string()), ..entry("Bar", "", "1") };
    assert!(!b.same_as(&c));
    assert!(b.same_as(&b.clone()));
}

#[test]
fn optional_texts_compare_and_copy() {
    let some = Some("a".to_string());
    assert!(same_text(&some, &Some("a".to_string())));
    assert!(!same_text(&some, &Some("b".to_string())));
    assert!(!same_text(&some, &None));
    assert!(same_text(&None, &None));
    assert_eq!(copy_text(&some), some);
    assert_eq!(copy_text(&None), None);
}

#[test]
fn clone_keeps_every_field() {
    let a = BusinessEntry {
        name: "n".to_string(),
        address: "a".to_string(),
        phones: "p".to_string(),
        whatsapp: Some("w".to_string()),
        website: Some("s".to_string()),
        contact_url: Some("c".to_string()),
    };
    assert_eq!(a.clone(), a);
}

#[test]
fn sort_key_is_lowercased_name_and_address_then_every_field() {
    let key: TextList = with_site("Bar ÀLPI", "Via ROMA 1", "1", "s").sort_key();
    let parts: Vec<String> = key.parts.iter().map(|p| p.iter().collect()).collect();
    assert_eq!(
        parts,
        vec!["bar àlpi", "via roma 1", "Bar ÀLPI", "Via ROMA 1", "1", "", "", "1", "s", "", ""]
    );
    assert_eq!(key.parts[0], to_chars("bar àlpi"));
}

#[test]
fn rows_are_sorted_without_regard_to_case() {
    let rows = sort_and_dedup(vec![
        entry("beta", "x", "1"),
        entry("Alpha", "b", "1"),
        entry("alpha", "A", "1"),
        entry("Beta", "w", "1"),
        entry("ALPHA", "c", "1"),
    ]);
    assert_eq!(names(&rows), vec!["alpha@A", "Alpha@b", "ALPHA@c", "Beta@w", "beta@x"]);
}

#[test]
fn rows_with_the_same_name_and_address_are_ordered_by_their_fields() {
    let rows = sort_and_dedup(vec![
        with_site("Bar", "Via Roma", "1", "http://second"),
        entry("zeta", "", "1"),
        with_site("BAR", "via roma", "1", "http://first"),
        entry("bar", "VIA ROMA", "1"),
        with_site("Bar", "Via Roma", "1", "http://a"),
        entry("Bar", "Via Roma", "1"),
    ]);
    let shown: Vec<String> =
        rows.iter().map(|r| format!("{}|{}|{:?}", r.name, r.address, r.website)).collect();
    assert_eq!(
        shown,
        vec![
            "BAR|via roma|Some(\"http://first\")",
            "Bar|Via Roma|None",
            "Bar|Via Roma|Some(\"http://a\")",
            "Bar|Via Roma|Some(\"http://second\")",
            "bar|VIA ROMA|None",
            "zeta||None",
        ]
    );
}

#[test]
fn row_order_does_not_depend_on_the_given_order() {
    let a = || with_site("Bar", "Via Roma", "1", "http://a");
    let b = || with_site("Bar", "Via Roma", "1", "http://b");
    let c = || entry("bar", "via roma", "2");
    let expected = sort_and_dedup(vec![a(), b(), c()]);
    assert_eq!(sort_and_dedup(vec![c(), b(), a()]), expected);
    assert_eq!(sort_and_dedup(vec![b(), a(), c(), a(), b()]), expected);
    assert_eq!(merge(&vec![vec![a()], vec![b(), c()]]), expected);
    assert_eq!(merge(&vec![vec![c(), b()], vec![a()]]), expected);
}

#[test]
fn equal_neighbours_collapse_into_one() {
    let rows = sort_and_dedup(vec![
        entry("b", "", "1"),
        entry("a", "", "1"),
        entry("a", "", "1"),
        entry("b", "", "1"),
        entry("a", "", "1"),
    ]);
    assert_eq!(rows, vec![entry("a", "", "1"), entry("b", "", "1")]);
}

#[test]
fn equal_rows_are_written_once_wherever_they_stood() {
    let rows = sort_and_dedup(vec![
        entry("a", "", "1"),
        entry("A", "", "1"),
        entry("a", "", "1"),
    ]);
    assert_eq!(rows, vec![entry("A", "", "1"), entry("a", "", "1")]);
}

#[test]
fn sorting_twice_gives_the_same_rows() {
    let given = || {
        vec![
            entry("Osteria", "Via B", "1"),
            with_site("Bar", "Via A", "2", "s"),
            entry("bar", "via a", "2"),
            entry("Osteria", "Via B", "1"),
        ]
    };
    let once = sort_and_dedup(given());
    assert_eq!(sort_and_dedup(given()), once);
    assert_eq!(sort_and_dedup(once.clone()), once);
    assert_eq!(sort_and_dedup(vec![]), vec![]);
}

#[test]
fn inserting_twice_leaves_the_size_unchanged() {
    let mut set = ResultSet::new();
    assert_eq!(set.len(), 0);
    assert!(set.insert(with_site("Bar", "Via Roma", "1", "s")));
    assert_eq!(set.len(), 1);
    assert!(!set.insert(with_site("Bar", "Via Roma", "1", "s")));
    assert_eq!(set.len(), 1);
    assert!(set.contains(&with_site("Bar", "Via Roma", "1", "s")));
    assert!(!set.contains(&entry("Bar", "Via Roma", "1")));
}

#[test]
fn listings_that_differ_in_an_optional_field_are_distinct() {
    let mut set = ResultSet::new();
    assert!(set.insert(with_site("Bar", "Via Roma", "1", "s")));
    assert!(set.insert(entry("Bar", "Via Roma", "1")));
    assert_eq!(set.len(), 2);
    assert_eq!(set.into_rows().len(), 2);
}

#[test]
fn extend_inserts_each_row_once() {
    let mut set = ResultSet::new();
    set.extend(&vec![entry("b", "", "1"), entry("a", "", "1"), entry("b", "", "1")]);
    set.extend(&vec![entry("a", "", "1"), entry("c", "", "")]);
    assert_eq!(set.len(), 3);
    assert_eq!(set.into_rows(), vec![entry("a", "", "1"), entry("b", "", "1"), entry("c", "", "")]);
}

#[test]
fn merging_in_steps_or_at_once_gives_the_same_rows() {
    let a = || vec![entry("Bar", "x", "1"), entry("Osteria", "y", "2")];
    let b = || vec![with_site("Bar", "x", "1", "s"), entry("Bar", "x", "1")];
    let c = || vec![entry("osteria", "Y", "2"), entry("Osteria", "y", "2"), entry("Caffè", "", "3")];
    let first = merge(&vec![a(), b()]);
    let stepwise = merge(&vec![first, c()]);
    let at_once = merge(&vec![a(), b(), c()]);
    assert_eq!(stepwise.len(), 5);
    for row in &stepwise {
        assert!(at_once.contains(row));
    }
    for row in &at_once {
        assert!(stepwise.contains(row));
    }
    assert_eq!(stepwise, at_once);
}

#[test]
fn merge_drops_rows_without_name_or_phones() {
    let rows = merge(&vec![
        vec![entry("", "somewhere", "1"), entry("Bar", "x", "1")],
        vec![with_site("Senza Telefono", "y", "", "http://s")],
    ]);
    assert_eq!(rows, vec![entry("Bar", "x", "1")]);
    assert_eq!(merge(&vec![vec![entry("", "", "")], vec![]]), vec![]);
    assert_eq!(merge(&vec![]), vec![]);
}

#[test]
fn ingest_takes_in_valid_rows_only() {
    let mut set = ResultSet::new();
    set.ingest(&vec![entry("b", "", "1"), entry("", "", "1"), entry("b", "", "1"), entry("a", "", "")]);
    assert_eq!(set.len(), 1);
    assert_eq!(set.into_rows(), vec![entry("b", "", "1")]);
}

#[test]
fn merge_reads_csv_files_only() {
    assert!(has_csv_extension("output.csv"));
    assert!(has_csv_extension("a.b.csv"));
    assert!(has_csv_extension("..csv"));
    assert!(!has_csv_extension(".csv"));
    assert!(!has_csv_extension("csv"));
    assert!(!has_csv_extension("output.CSV"));
    assert!(!has_csv_extension("output.csv.bak"));
    assert!(!has_csv_extension("output.csvx"));
    assert!(!has_csv_extension("output.cs"));
    assert!(!has_csv_extension("output."));
    assert!(!has_csv_extension(""));
}
