//! The pages to request: one address per page of a free-text search, or one
//! per category, locality and page of a search by region.

use crate::cli::{FilterMode, SearchMode};
use crate::comuni::{comuni_names, names_of_comuni, Comune};
use crate::text::{decimal, push_decimal};
use vstd::prelude::*;
use vstd::string::StringExecFns;

verus! {

/// The site that is searched.
pub const PAGINEGIALLE_URL: &'static str = "https://www.paginegialle.it";

/// The page that lists the known categories.
pub const PAGINEGIALLE_CATEGORIE_URL: &'static str = "https://www.paginegialle.it/categorie.htm";

/// The service that lists the cities of a province or of a region.
pub const COMUNI_API_URL: &'static str =
    "https://axqvoqvbfjpaamphztgd.functions.supabase.co/comuni/";

/// The address under which all pages of a free-text search stand.
pub open spec fn search_base(query: Seq<char>, location: Option<Seq<char>>) -> Seq<char> {
    let base = PAGINEGIALLE_URL@ + "/ricerca/"@ + query;
    match location {
        Some(place) => base + "/"@ + place,
        None => base,
    }
}

/// The address of page `page` of a free-text search.
pub open spec fn search_url(query: Seq<char>, location: Option<Seq<char>>, page: nat) -> Seq<char> {
    search_base(query, location) + "/p-"@ + decimal(page)
}

/// The address under which all pages of one category in one locality stand.
pub open spec fn filter_base(region: Seq<char>, comune: Seq<char>, category: Seq<char>) -> Seq<
    char,
> {
    PAGINEGIALLE_URL@ + "/"@ + region + "/"@ + comune + "/"@ + category + "/"@
}

/// The address of page `page` of one category in one locality.
pub open spec fn filter_url(
    region: Seq<char>,
    comune: Seq<char>,
    category: Seq<char>,
    page: nat,
) -> Seq<char> {
    filter_base(region, comune, category) + "/p-"@ + decimal(page) + ".html"@
}

/// Where the page of category `c`, locality `l` and page number `p` stands
/// in the list of addresses: categories first, then localities, then pages.
pub open spec fn url_index(c: int, l: int, p: int, localities: int, limit: int) -> int {
    (c * localities + l) * limit + p
}

/// The address from which the cities for a search by region are read: those
/// of the province named as city, or those of the region.
pub open spec fn comuni_url(region: Seq<char>, city: Option<Seq<char>>) -> Seq<char> {
    match city {
        Some(city) => COMUNI_API_URL@ + "/provincia/"@ + city + "?format=csv"@,
        None => COMUNI_API_URL@ + "/regione/"@ + region + "?format=csv"@,
    }
}

/// The addresses of a free-text search: one per page, in page order.
pub fn generate_urls_with_search_mode(params: &SearchMode, limit: usize) -> (urls: Vec<String>)
    ensures
        urls.len() == limit,
        forall|i: int|
            0 <= i < limit ==> (#[trigger] urls[i])@ == search_url(
                params.query@,
                params.location.deep_view(),
                i as nat,
            ),
{
    let mut base = String::from_str(PAGINEGIALLE_URL);
    base.append("/ricerca/");
    base.append(params.query.as_str());
    match &params.location {
        Some(city) => {
            base.append("/");
            base.append(city.as_str());
        },
        None => {},
    }
    let mut urls: Vec<String> = Vec::new();
    let mut i: usize = 0;
    while i < limit
        invariant
            i <= limit,
            urls.len() == i,
            base@ == search_base(params.query@, params.location.deep_view()),
            forall|k: int|
                0 <= k < i ==> (#[trigger] urls[k])@ == search_url(
                    params.query@,
                    params.location.deep_view(),
                    k as nat,
                ),
        decreases limit - i,
    {
        let mut url = base.clone();
        url.append("/p-");
        push_decimal(&mut url, i);
        urls.push(url);
        i += 1;
    }
    urls
}

/// The address from which the cities for a search by region are read.
pub fn comuni_lookup_url(params: &FilterMode) -> (url: String)
    ensures
        url@ == comuni_url(params.region@, params.city.deep_view()),
{
    let mut url = String::from_str(COMUNI_API_URL);
    match &params.city {
        Some(city) => {
            url.append("/provincia/");
            url.append(city.as_str());
        },
        None => {
            url.append("/regione/");
            url.append(params.region.as_str());
        },
    }
    url.append("?format=csv");
    url
}

/// Distinct pages have distinct places in the list, all within its length.
pub proof fn lemma_url_index(c: int, l: int, p: int, categories: int, localities: int, limit: int)
    requires
        0 <= c < categories,
        0 <= l < localities,
        0 <= p < limit,
    ensures
        0 <= url_index(c, l, p, localities, limit) < categories * localities * limit,
        url_index(c, l, p, localities, limit) % limit == p,
        (url_index(c, l, p, localities, limit) / limit) % localities == l,
        (url_index(c, l, p, localities, limit) / limit) / localities == c,
{
    let row = c * localities + l;
    let k = row * limit + p;
    assert(0 <= row < categories * localities) by (nonlinear_arith)
        requires
            0 <= c < categories,
            0 <= l < localities,
            row == c * localities + l,
    ;
    assert(0 <= k < categories * localities * limit) by (nonlinear_arith)
        requires
            0 <= row < categories * localities,
            0 <= p < limit,
            k == row * limit + p,
    ;
    vstd::arithmetic::div_mod::lemma_fundamental_div_mod_converse(k, limit, row, p);
    vstd::arithmetic::div_mod::lemma_fundamental_div_mod_converse(row, localities, c, l);
}

/// The addresses of one region for every category, locality and page:
/// categories first, then localities, then pages.
pub fn filter_urls(region: &str, categories: &Vec<String>, comuni: &Vec<String>, limit: usize) -> (urls:
    Vec<String>)
    ensures
        urls.len() == categories.len() * comuni.len() * limit,
        forall|c: int, l: int, p: int|
            0 <= c < categories.len() && 0 <= l < comuni.len() && 0 <= p < limit ==> (
            #[trigger] urls[url_index(c, l, p, comuni.len() as int, limit as int)])@ == filter_url(
                region@,
                comuni[l]@,
                categories[c]@,
                p as nat,
            ),
{
    let ghost total = comuni.len() as int;
    let ghost pages = limit as int;
    let mut urls: Vec<String> = Vec::new();
    let mut c: usize = 0;
    assert(0 * total * pages == 0) by (nonlinear_arith);
    while c < categories.len()
        invariant
            c <= categories.len(),
            total == comuni.len(),
            pages == limit,
            urls.len() == c * total * pages,
            forall|k: int|
                0 <= k < urls.len() ==> (#[trigger] urls[k])@ == filter_url(
                    region@,
                    comuni[(k / pages) % total]@,
                    categories[(k / pages) / total]@,
                    (k % pages) as nat,
                ),
        decreases categories.len() - c,
    {
        let mut l: usize = 0;
        assert(c * total * pages == (c * total + 0) * pages) by (nonlinear_arith);
        while l < comuni.len()
            invariant
                c < categories.len(),
                l <= comuni.len(),
                total == comuni.len(),
                pages == limit,
                urls.len() == (c * total + l) * pages,
                forall|k: int|
                    0 <= k < urls.len() ==> (#[trigger] urls[k])@ == filter_url(
                        region@,
                        comuni[(k / pages) % total]@,
                        categories[(k / pages) / total]@,
                        (k % pages) as nat,
                    ),
            decreases comuni.len() - l,
        {
            let mut base = String::from_str(PAGINEGIALLE_URL);
            base.append("/");
            base.append(region);
            base.append("/");
            base.append(comuni[l].as_str());
            base.append("/");
            base.append(categories[c].as_str());
            base.append("/");
            let mut p: usize = 0;
            while p < limit
                invariant
                    c < categories.len(),
                    l < comuni.len(),
                    p <= limit,
                    total == comuni.len(),
                    pages == limit,
                    base@ == filter_base(region@, comuni[l as int]@, categories[c as int]@),
                    urls.len() == (c * total + l) * pages + p,
                    forall|k: int|
                        0 <= k < urls.len() ==> (#[trigger] urls[k])@ == filter_url(
                            region@,
                            comuni[(k / pages) % total]@,
                            categories[(k / pages) / total]@,
                            (k % pages) as nat,
                        ),
                decreases limit - p,
            {
                let mut url = base.clone();
                url.append("/p-");
                push_decimal(&mut url, p);
                url.append(".html");
                proof {
                    lemma_url_index(
                        c as int,
                        l as int,
                        p as int,
                        categories.len() as int,
                        total,
                        pages,
                    );
                }
                urls.push(url);
                p += 1;
            }
            assert((c * total + l) * pages + pages == (c * total + (l + 1)) * pages)
                by (nonlinear_arith);
            l += 1;
        }
        assert((c * total + total) * pages == (c + 1) * total * pages) by (nonlinear_arith);
        c += 1;
    }
    proof {
        assert forall|c: int, l: int, p: int|
            0 <= c < categories.len() && 0 <= l < comuni.len() && 0 <= p < limit implies (
        #[trigger] urls[url_index(c, l, p, comuni.len() as int, limit as int)])@ == filter_url(
            region@,
            comuni[l]@,
            categories[c]@,
            p as nat,
        ) by {
            lemma_url_index(c, l, p, categories.len() as int, total, pages);
        }
    }
    urls
}

/// The localities in which a search by region looks. The cities that the
/// lookup listed are searched, when it listed some, and no city is named or
/// all cities of the named city's province are wanted. Otherwise the key
/// that was looked up is the sole locality: the named city, or the region
/// when no city is named.
pub open spec fn searched_localities(
    region: Seq<char>,
    city: Option<Seq<char>>,
    all_cities: bool,
    names: Seq<Seq<char>>,
) -> Seq<Seq<char>> {
    match city {
        Some(city) => if names.len() == 0 || !all_cities {
            seq![city]
        } else {
            names
        },
        None => if names.len() == 0 {
            seq![region]
        } else {
            names
        },
    }
}

/// The categories for which a search by region looks: the one given, or the
/// whole catalog.
pub open spec fn searched_categories(category: Option<Seq<char>>, catalog: Seq<Seq<char>>) -> Seq<
    Seq<char>,
> {
    match category {
        Some(category) => seq![category],
        None => catalog,
    }
}

/// Chooses the localities of a search by region among the listed cities.
pub fn resolve_localities(params: &FilterMode, names: Vec<String>) -> (localities: Vec<String>)
    ensures
        localities.deep_view() == searched_localities(
            params.region@,
            params.city.deep_view(),
            params.all_regions_cities,
            names.deep_view(),
        ),
{
    let listed = names.len() > 0;
    match &params.city {
        Some(city) => {
            if !listed || !params.all_regions_cities {
                let mut only: Vec<String> = Vec::new();
                only.push(city.clone());
                assert(only.deep_view() =~= seq![city@]);
                only
            } else {
                names
            }
        },
        None => {
            if !listed {
                let mut only: Vec<String> = Vec::new();
                only.push(params.region.clone());
                assert(only.deep_view() =~= seq![params.region@]);
                only
            } else {
                names
            }
        },
    }
}

/// Chooses the categories of a search by region.
pub fn resolve_categories(params: &FilterMode, catalog: &Vec<String>) -> (categories: Vec<String>)
    ensures
        categories.deep_view() == searched_categories(
            params.category.deep_view(),
            catalog.deep_view(),
        ),
{
    let mut categories: Vec<String> = Vec::new();
    match &params.category {
        Some(category) => {
            categories.push(category.clone());
            assert(categories.deep_view() =~= seq![category@]);
        },
        None => {
            let mut i: usize = 0;
            while i < catalog.len()
                invariant
                    i <= catalog.len(),
                    categories.len() == i,
                    forall|k: int| 0 <= k < i ==> (#[trigger] categories[k])@ == catalog[k]@,
                decreases catalog.len() - i,
            {
                categories.push(catalog[i].clone());
                i += 1;
            }
            assert(categories.deep_view() =~= catalog.deep_view());
        },
    }
    categories
}

/// The addresses of a search by region, and the localities searched.
///
/// `comuni` is what the lookup at [`comuni_lookup_url`] listed, `catalog`
/// the known categories; the catalog is read only when `params` names no
/// category. There is one address for every category, locality and page
/// below `limit`: categories first, then localities, then pages.
pub fn generate_urls_with_filter_mode(
    params: &FilterMode,
    limit: usize,
    comuni: &Vec<Comune>,
    catalog: &Vec<String>,
) -> (found: (Vec<String>, Vec<String>))
    ensures
        found.1.deep_view() == searched_localities(
            params.region@,
            params.city.deep_view(),
            params.all_regions_cities,
            comuni_names(comuni.deep_view(), params.big_cities_only),
        ),
        found.0.len() == searched_categories(
            params.category.deep_view(),
            catalog.deep_view(),
        ).len() * found.1.len() * limit,
        forall|c: int, l: int, p: int|
            0 <= c < searched_categories(params.category.deep_view(), catalog.deep_view()).len()
                && 0 <= l < found.1.len() && 0 <= p < limit ==> (#[trigger] found.0[url_index(
                c,
                l,
                p,
                found.1.len() as int,
                limit as int,
            )])@ == filter_url(
                params.region@,
                found.1[l]@,
                searched_categories(params.category.deep_view(), catalog.deep_view())[c],
                p as nat,
            ),
{
    let names = names_of_comuni(comuni, params.big_cities_only);
    let localities = resolve_localities(params, names);
    let categories = resolve_categories(params, catalog);
    let urls = filter_urls(params.region.as_str(), &categories, &localities, limit);
    proof {
        let wanted = searched_categories(params.category.deep_view(), catalog.deep_view());
        assert forall|c: int, l: int, p: int|
            0 <= c < wanted.len() && 0 <= l < localities.len() && 0 <= p < limit implies (
        #[trigger] urls[url_index(c, l, p, localities.len() as int, limit as int)])@ == filter_url(
            params.region@,
            localities[l]@,
            wanted[c],
            p as nat,
        ) by {
            assert(categories.deep_view()[c] == categories[c]@);
        }
    }
    (urls, localities)
}

} // verus!
