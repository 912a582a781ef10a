use pagine_scraper::cli::{FilterMode, SearchMode, DEFAULT_PAGE_LIMIT, DEFAULT_REQUESTS_BATCH};
use pagine_scraper::comuni::{names_of_comuni, Comune};
use pagine_scraper::normalize::{normalize_category, sanitize_comune_str, separate, underscore};
use pagine_scraper::urls::{
    comuni_lookup_url, filter_urls, generate_urls_with_filter_mode, generate_urls_with_search_mode,
    resolve_categories, resolve_localities,
};

fn comune(nome: &str, popolazione: usize) -> Comune {
    Comune { nome: nome.to_string(), popolazione }
}

fn filter(city: Option<&str>, category: Option<&str>, all: bool, big: bool) -> FilterMode {
    FilterMode {
        region: "veneto".to_string(),
        city: city.map(|c| c.to_string()),
        category: category.map(|c| c.to_string()),
        all_regions_cities: all,
        big_cities_only: big,
    }
}

fn texts(items: &[&str]) -> Vec<String> {
    items.iter().map(|s| s.to_string()).collect()
}

#[test]
fn separate_strips_and_underscores() {
    assert_eq!(separate("Reggio nell'Emilia"), "Reggio_nell_Emilia");
    assert_eq!(separate("Forlì-Cesena."), "Forlì_Cesena");
    assert_eq!(separate("..a.b..."), "__a_b");
    assert_eq!(separate(""), "");
}

#[test]
fn place_names_become_ascii_tokens() {
    assert_eq!(sanitize_comune_str("Padova"), "padova");
    assert_eq!(sanitize_comune_str("Reggio nell'Emilia"), "reggio_nell_emilia");
    assert_eq!(sanitize_comune_str("Forlì-Cesena."), "forli_cesena");
    assert_eq!(sanitize_comune_str("San Donà di Piave"), "san_dona_di_piave");
    assert_eq!(sanitize_comune_str(""), "");
}

#[test]
fn category_labels_become_tokens() {
    assert_eq!(normalize_category("  Bar & Caffè \n"), "bar___caffè");
    assert_eq!(normalize_category("Idraulici"), "idraulici");
    assert_eq!(normalize_category("Auto-officine (e gommisti)"), "auto_officine__e_gommisti_");
    assert_eq!(underscore("a.b c"), "a_b_c");
}

#[test]
fn default_limits() {
    assert_eq!(DEFAULT_PAGE_LIMIT, 5);
    assert_eq!(DEFAULT_REQUESTS_BATCH, 50);
}

#[test]
fn all_cities_are_named_in_their_order() {
    let names = names_of_comuni(&vec![comune("Abano Terme", 10), comune("Zero Branco", 99)], false);
    assert_eq!(names, vec!["abano_terme", "zero_branco"]);
    assert_eq!(names_of_comuni(&vec![], false), Vec::<String>::new());
}

#[test]
fn big_cities_are_the_more_populous_half() {
    let comuni = vec![
        comune("A", 10),
        comune("B", 30),
        comune("C", 20),
        comune("D", 30),
        comune("E", 5),
    ];
    assert_eq!(names_of_comuni(&comuni, true), vec!["b", "d"]);
    assert_eq!(names_of_comuni(&vec![comune("A", 1)], true), Vec::<String>::new());
    assert_eq!(names_of_comuni(&vec![comune("A", 1), comune("B", 1)], true), vec!["a"]);
    assert_eq!(names_of_comuni(&vec![], true), Vec::<String>::new());
}

#[test]
fn free_text_search_has_one_address_per_page() {
    let params = SearchMode { query: "pizzeria".to_string(), location: Some("roma".to_string()) };
    assert_eq!(
        generate_urls_with_search_mode(&params, 3),
        vec![
            "https://www.paginegialle.it/ricerca/pizzeria/roma/p-0",
            "https://www.paginegialle.it/ricerca/pizzeria/roma/p-1",
            "https://www.paginegialle.it/ricerca/pizzeria/roma/p-2",
        ]
    );
    let everywhere = SearchMode { query: "pizzeria".to_string(), location: None };
    let urls = generate_urls_with_search_mode(&everywhere, 12);
    assert_eq!(urls.len(), 12);
    assert_eq!(urls[0], "https://www.paginegialle.it/ricerca/pizzeria/p-0");
    assert_eq!(urls[11], "https://www.paginegialle.it/ricerca/pizzeria/p-11");
    assert_eq!(generate_urls_with_search_mode(&everywhere, 0).len(), 0);
}

#[test]
fn filtered_search_has_one_address_per_category_locality_and_page() {
    let urls = filter_urls("veneto", &texts(&["ristoranti", "bar"]), &texts(&["padova", "vicenza", "x"]), 2);
    assert_eq!(urls.len(), 2 * 3 * 2);
    assert_eq!(urls[0], "https://www.paginegialle.it/veneto/padova/ristoranti//p-0.html");
    assert_eq!(urls[1], "https://www.paginegialle.it/veneto/padova/ristoranti//p-1.html");
    assert_eq!(urls[2], "https://www.paginegialle.it/veneto/vicenza/ristoranti//p-0.html");
    assert_eq!(urls[5], "https://www.paginegialle.it/veneto/x/ristoranti//p-1.html");
    assert_eq!(urls[6], "https://www.paginegialle.it/veneto/padova/bar//p-0.html");
    assert_eq!(urls[11], "https://www.paginegialle.it/veneto/x/bar//p-1.html");
    assert_eq!(filter_urls("veneto", &texts(&["bar"]), &texts(&[]), 5).len(), 0);
    assert_eq!(filter_urls("veneto", &texts(&[]), &texts(&["padova"]), 5).len(), 0);
    assert_eq!(filter_urls("veneto", &texts(&["bar"]), &texts(&["padova"]), 0).len(), 0);
}

#[test]
fn lookup_address_names_the_province_or_the_region() {
    assert_eq!(
        comuni_lookup_url(&filter(Some("padova"), None, false, false)),
        "https://axqvoqvbfjpaamphztgd.functions.supabase.co/comuni//provincia/padova?format=csv"
    );
    assert_eq!(
        comuni_lookup_url(&filter(None, None, false, false)),
        "https://axqvoqvbfjpaamphztgd.functions.supabase.co/comuni//regione/veneto?format=csv"
    );
}

#[test]
fn localities_follow_the_city_and_the_lookup() {
    let listed = || texts(&["abano_terme", "cadoneghe"]);
    assert_eq!(resolve_localities(&filter(Some("Padova"), None, false, false), listed()), vec!["Padova"]);
    assert_eq!(resolve_localities(&filter(Some("Padova"), None, true, false), listed()), listed());
    assert_eq!(resolve_localities(&filter(Some("Padova"), None, true, false), vec![]), vec!["Padova"]);
    assert_eq!(resolve_localities(&filter(None, None, false, false), listed()), listed());
    assert_eq!(resolve_localities(&filter(None, None, true, false), vec![]), vec!["veneto"]);
    assert_eq!(resolve_localities(&filter(None, None, false, false), vec![]), vec!["veneto"]);
}

#[test]
fn categories_are_the_one_given_or_the_catalog() {
    let catalog = texts(&["bar", "idraulici"]);
    assert_eq!(resolve_categories(&filter(None, Some("Pizzerie"), false, false), &catalog), vec!["Pizzerie"]);
    assert_eq!(resolve_categories(&filter(None, None, false, false), &catalog), catalog);
}

#[test]
fn search_by_region_multiplies_categories_localities_and_pages() {
    let comuni = vec![comune("Abano Terme", 10), comune("Cadoneghe", 30), comune("Este", 20), comune("Padova", 200)];
    let catalog = texts(&["bar", "idraulici", "pizzerie"]);

    let (urls, localities) =
        generate_urls_with_filter_mode(&filter(None, None, false, false), 2, &comuni, &catalog);
    assert_eq!(localities, vec!["abano_terme", "cadoneghe", "este", "padova"]);
    assert_eq!(urls.len(), 3 * 4 * 2);
    assert_eq!(urls[0], "https://www.paginegialle.it/veneto/abano_terme/bar//p-0.html");
    assert_eq!(urls[23], "https://www.paginegialle.it/veneto/padova/pizzerie//p-1.html");

    let (urls, localities) =
        generate_urls_with_filter_mode(&filter(Some("padova"), Some("bar"), true, true), 5, &comuni, &catalog);
    assert_eq!(localities, vec!["padova", "cadoneghe"]);
    assert_eq!(urls.len(), 1 * 2 * 5);
    assert_eq!(urls[9], "https://www.paginegialle.it/veneto/cadoneghe/bar//p-4.html");

    let (urls, localities) =
        generate_urls_with_filter_mode(&filter(Some("Este"), Some("bar"), false, true), 1, &comuni, &catalog);
    assert_eq!(localities, vec!["Este"]);
    assert_eq!(urls, vec!["https://www.paginegialle.it/veneto/Este/bar//p-0.html"]);

    let (urls, localities) =
        generate_urls_with_filter_mode(&filter(None, Some("bar"), false, false), 3, &vec![], &catalog);
    assert_eq!(localities, vec!["veneto"]);
    assert_eq!(
        urls,
        vec![
            "https://www.paginegialle.it/veneto/veneto/bar//p-0.html",
            "https://www.paginegialle.it/veneto/veneto/bar//p-1.html",
            "https://www.paginegialle.it/veneto/veneto/bar//p-2.html",
        ]
    );
}

#[test]
fn tokens_are_ascii() {
    for name in ["Forlì-Cesena", "北京", "Łódź & Kraków", "São Tomé", "\u{7f}x", "naïve café №5"] {
        assert!(sanitize_comune_str(name).is_ascii(), "{name}");
    }
}

#[test]
fn ascii_names_keep_their_letters_and_digits() {
    assert_eq!(sanitize_comune_str("Sant'Angelo  Lodigiano (LO) 2."), "sant_angelo__lodigiano__lo__2");
    assert_eq!(sanitize_comune_str("A\tB\u{b}C~"), "a_b_c");
    let mut every = String::new();
    for code in 0u8..127 {
        every.push(code as char);
    }
    every.push('x');
    let token = sanitize_comune_str(&every);
    assert_eq!(token.chars().count(), 128);
    for (given, made) in every.chars().zip(token.chars()) {
        let expected = if given.is_ascii_punctuation() || given.is_whitespace() {
            '_'
        } else {
            given.to_ascii_lowercase()
        };
        assert_eq!(made, expected, "{given:?}");
    }
}

#[test]
fn plain_names_make_plain_tokens() {
    for name in ["Reggio nell'Emilia", "L'Aquila", "Borgo 2 (Nord)", "a-b_c", "   ", "X"] {
        let token = sanitize_comune_str(name);
        assert!(
            token.chars().all(|c| c.is_ascii_lowercase() || c.is_ascii_digit() || c == '_'),
            "{name} -> {token}"
        );
    }
}
