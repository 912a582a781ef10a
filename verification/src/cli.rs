//! What a run is asked to do: the search mode with its parameters, and the
//! options shared by all modes.

use vstd::prelude::*;

verus! {

/// Pages fetched per search or per locality when no limit is given.
pub const DEFAULT_PAGE_LIMIT: usize = 5;

/// Requests kept in flight at the same time.
pub const DEFAULT_REQUESTS_BATCH: usize = 50;

/// The options of one run.
pub struct Cli {
    /// Which kind of search to run.
    pub mode: CliMode,
    /// Output file name, without the `.csv` extension.
    pub output_file: String,
    /// Maximum number of pages fetched for each query.
    pub page_limit: usize,
    /// Whether to show debugging information.
    pub debug: bool,
}

/// The kind of run.
pub enum CliMode {
    /// Free-text search, optionally within a location.
    Search(SearchMode),
    /// Search by region, and optionally by city and category.
    Filter(FilterMode),
    /// Merge of earlier output files into one, without repeated rows.
    Merge(MergeMode),
}

/// Parameters of a free-text search.
pub struct SearchMode {
    /// A business category or a business name.
    pub query: String,
    /// Where to search: a city or a region. Everywhere when absent.
    pub location: Option<String>,
}

/// Parameters of a search by region.
pub struct FilterMode {
    /// The region to search in.
    pub region: String,
    /// The city to search in; every city of the region when absent.
    pub city: Option<String>,
    /// The business category; every known category when absent.
    pub category: Option<String>,
    /// When the city is a province, search all cities of the province.
    pub all_regions_cities: bool,
    /// Keep only the more populous half of the cities.
    pub big_cities_only: bool,
}

/// Parameters of a merge.
pub struct MergeMode {
    /// The folder whose `.csv` files are merged.
    pub folder_path: String,
}

impl CliMode {
    /// Whether pages that show no listing are counted per locality: only a
    /// search by region does so.
    pub fn counts_empty_pages(&self) -> (counts: bool)
        ensures
            counts == (self is Filter),
    {
        match self {
            CliMode::Filter(_) => true,
            _ => false,
        }
    }
}

} // verus!
