//! Planning, reading and gathering a search of the PagineGialle business
//! directory.
//!
//! The library plans the pages to request ([`urls`]), reads the listings of
//! a fetched page ([`extract`]), gathers what the pages yield in whatever
//! order they arrive ([`aggregate`]), and turns the listings into sorted
//! output rows ([`rows`], [`merge`]). It performs no input or output: the
//! caller fetches the pages and reads and writes the files.

pub mod aggregate;
pub mod chars;
pub mod cli;
pub mod comuni;
pub mod entry;
pub mod extract;
pub mod keys;
pub mod markup;
pub mod merge;
pub mod normalize;
pub mod results;
pub mod rows;
pub mod sorting;
pub mod tally;
pub mod text;
pub mod urls;
