use pagine_scraper::aggregate::{locality_key, Aggregator, FetchOutcome, RunOutcome};
use pagine_scraper::cli::{CliMode, FilterMode, MergeMode, SearchMode};
use pagine_scraper::entry::BusinessEntry;
use pagine_scraper::extract::{ExtractionSchema, RawExtraction};
use pagine_scraper::tally::LocalityTally;

fn entry(name: &str, phones: &str) -> BusinessEntry {
    BusinessEntry {
        name: name.to_string(),
        address: "Via Roma".to_string(),
        phones: phones.to_string(),
        whatsapp: Some("39".to_string()),
        website: Some("http://x".to_string()),
        contact_url: None,
    }
}

fn page_of(locality: &str, page: usize) -> String {
    format!("https://www.paginegialle.it/veneto/{locality}/bar/p-{page}.html")
}

fn localities() -> Vec<String> {
    vec!["x".to_string(), "y".to_string(), "z".to_string()]
}

#[test]
fn the_locality_is_read_from_the_end_of_the_address() {
    assert_eq!(locality_key("https://www.paginegialle.it/veneto/padova/bar/p-1.html", 2), "padova");
    assert_eq!(locality_key("https://www.paginegialle.it/veneto/padova/bar//p-1.html", 2), "bar");
    assert_eq!(locality_key("https://www.paginegialle.it/veneto/padova/bar/p-1.html", 3), "veneto");
    assert_eq!(locality_key("padova/bar", 2), "");
    assert_eq!(locality_key("", 2), "");
}

#[test]
fn the_tally_counts_by_locality() {
    let mut tally = LocalityTally::new();
    assert_eq!(tally.count("x"), 0);
    tally.record_empty("x".to_string());
    tally.record_empty("y".to_string());
    tally.record_empty("x".to_string());
    assert_eq!(tally.count("x"), 2);
    assert_eq!(tally.count("y"), 1);
    assert_eq!(tally.count("z"), 0);
    assert!(tally.is_exhausted("x", 2));
    assert!(!tally.is_exhausted("x", 3));
    assert!(!tally.is_exhausted("y", 2));
    assert!(!tally.is_exhausted("z", 0));
}

#[test]
fn exhausted_localities_are_named_once_in_order_of_appearance() {
    let mut tally = LocalityTally::new();
    for locality in ["b", "a", "c", "a", "b", "c", "c", "d"] {
        tally.record_empty(locality.to_string());
    }
    assert_eq!(tally.exhausted(2), vec!["b", "a"]);
    assert_eq!(tally.exhausted(3), vec!["c"]);
    assert_eq!(tally.exhausted(1), vec!["d"]);
    assert_eq!(tally.exhausted(0), Vec::<String>::new());
    assert_eq!(LocalityTally::new().exhausted(0), Vec::<String>::new());
}

#[test]
fn one_exhausted_locality_is_reported_and_the_rest_is_written() {
    let mut run = Aggregator::new(true, localities(), 2, 2);
    run.record(RawExtraction::Empty, &page_of("x", 0));
    run.record(RawExtraction::Records(vec![entry("Ypsilon", "02-1")]), &page_of("y", 0));
    run.record(RawExtraction::Empty, &page_of("z", 1));
    run.record(RawExtraction::Records(vec![entry("Zeta", "02-2")]), &page_of("z", 0));
    run.record(RawExtraction::Empty, &page_of("y", 1));
    run.record(RawExtraction::Empty, &page_of("x", 1));
    assert_eq!(
        run.finish(),
        RunOutcome::Rows {
            rows: vec![entry("Ypsilon", "02-1"), entry("Zeta", "02-2")],
            exhausted: vec!["x".to_string()],
        }
    );
}

#[test]
fn all_localities_exhausted_is_no_data() {
    let mut run = Aggregator::new(true, localities(), 2, 2);
    for page in 0..2 {
        for locality in ["x", "y", "z"] {
            run.record(RawExtraction::Empty, &page_of(locality, page));
        }
    }
    assert_eq!(run.finish(), RunOutcome::NoData);
}

#[test]
fn a_locality_with_pages_still_missing_is_not_exhausted() {
    let mut run = Aggregator::new(true, localities(), 2, 2);
    for locality in ["x", "y", "z"] {
        run.record(RawExtraction::Empty, &page_of(locality, 0));
    }
    assert_eq!(run.finish(), RunOutcome::Rows { rows: vec![], exhausted: vec![] });
}

#[test]
fn a_run_without_localities_writes_what_it_has() {
    let run = Aggregator::new(true, vec![], 5, 2);
    assert_eq!(run.finish(), RunOutcome::Rows { rows: vec![], exhausted: vec![] });
    let run = Aggregator::new(true, localities(), 0, 2);
    assert_eq!(run.finish(), RunOutcome::Rows { rows: vec![], exhausted: vec![] });
}

#[test]
fn a_free_text_search_counts_no_empty_page() {
    let mut run = Aggregator::new(false, vec![], 1, 2);
    run.record(RawExtraction::Empty, "https://www.paginegialle.it/ricerca/bar/p-0");
    run.record(RawExtraction::Records(vec![entry("Bar", "02-1")]), "https://www.paginegialle.it/ricerca/bar/p-1");
    assert_eq!(run.finish(), RunOutcome::Rows { rows: vec![entry("Bar", "02-1")], exhausted: vec![] });
    let mut run = Aggregator::new(false, vec!["ricerca".to_string()], 1, 2);
    run.record(RawExtraction::Empty, "https://www.paginegialle.it/ricerca/bar/p-0");
    assert_eq!(run.finish(), RunOutcome::Rows { rows: vec![], exhausted: vec![] });
}

#[test]
fn listings_without_name_or_phones_are_never_written() {
    let mut run = Aggregator::new(true, localities(), 2, 2);
    run.record(
        RawExtraction::Records(vec![
            entry("", "02-1"),
            entry("Senza Telefono", ""),
            entry("Bar", "02-1"),
            entry("", ""),
            entry("Bar", "02-1"),
        ]),
        &page_of("x", 0),
    );
    assert_eq!(run.finish(), RunOutcome::Rows { rows: vec![entry("Bar", "02-1")], exhausted: vec![] });
}

#[test]
fn the_order_of_arrival_does_not_change_the_outcome() {
    let feed = |order: &[usize]| {
        let mut run = Aggregator::new(true, localities(), 2, 2);
        for step in order {
            match step {
                0 => run.record(RawExtraction::Empty, &page_of("x", 0)),
                1 => run.record(RawExtraction::Empty, &page_of("x", 1)),
                2 => run.record(RawExtraction::Records(vec![entry("b", "1"), entry("a", "1")]), &page_of("y", 0)),
                3 => run.record(RawExtraction::Records(vec![entry("a", "1"), entry("c", "1")]), &page_of("z", 0)),
                _ => run.record(RawExtraction::Empty, &page_of("z", 1)),
            }
        }
        run.finish()
    };
    let expected = RunOutcome::Rows {
        rows: vec![entry("a", "1"), entry("b", "1"), entry("c", "1")],
        exhausted: vec!["x".to_string()],
    };
    assert_eq!(feed(&[0, 1, 2, 3, 4]), expected);
    assert_eq!(feed(&[4, 3, 2, 1, 0]), expected);
    assert_eq!(feed(&[2, 0, 4, 1, 3]), expected);
}

#[test]
fn a_failed_request_changes_nothing() {
    let selectors = ExtractionSchema::paginegialle().compile().unwrap();
    let mut run = Aggregator::new(true, vec!["x".to_string()], 1, 2);
    run.observe(&FetchOutcome::Failure { cause: "timed out".to_string() }, &selectors);
    assert_eq!(run.finish(), RunOutcome::Rows { rows: vec![], exhausted: vec![] });
}

#[test]
fn fetched_pages_are_read_and_taken_in() {
    let selectors = ExtractionSchema::paginegialle().compile().unwrap();
    let listing = r#"<div class="search-itm"><h2 class="search-itm__rag">Bar Sport</h2>
        <span class="search-itm__phone">049 123</span></div>
        <div class="search-itm"><h2 class="search-itm__rag">Muto</h2></div>"#;
    let mut run = Aggregator::new(true, vec!["x".to_string(), "y".to_string()], 1, 2);
    run.observe(
        &FetchOutcome::Page { body: listing.to_string(), resolved_url: page_of("y", 0) },
        &selectors,
    );
    run.observe(
        &FetchOutcome::Page { body: "<p>niente</p>".to_string(), resolved_url: page_of("x", 0) },
        &selectors,
    );
    run.observe(&FetchOutcome::Failure { cause: "reset".to_string() }, &selectors);
    match run.finish() {
        RunOutcome::Rows { rows, exhausted } => {
            assert_eq!(exhausted, vec!["x"]);
            assert_eq!(rows.len(), 1);
            assert_eq!(rows[0].name, "Bar Sport");
            assert_eq!(rows[0].phones, "049-123");
        }
        RunOutcome::NoData => panic!("one locality has a listing"),
    }
}

#[test]
fn only_a_search_by_region_counts_empty_pages() {
    let search = CliMode::Search(SearchMode { query: "bar".to_string(), location: None });
    let filter = CliMode::Filter(FilterMode {
        region: "veneto".to_string(),
        city: None,
        category: None,
        all_regions_cities: false,
        big_cities_only: false,
    });
    let merge = CliMode::Merge(MergeMode { folder_path: "out".to_string() });
    assert!(!search.counts_empty_pages());
    assert!(filter.counts_empty_pages());
    assert!(!merge.counts_empty_pages());
}
