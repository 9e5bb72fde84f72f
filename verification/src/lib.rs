//! Turns a delimited text listing of identifiers, URLs and titles into an
//! HTML unordered list, optionally wrapped in a full HTML document.
//!
//! The library parses each input line into a [`Link`] record, collects the
//! records into a collection deduplicated by id and ordered by ascending id,
//! and renders the collection as a sequence of HTML output lines.

use vstd::prelude::*;

mod config;
mod laws;
mod links;
mod order;
mod record;
mod render;

pub use config::Config;
pub use laws::lemma_fragment_only;
pub use laws::lemma_insert_sorted_keeps_sorted;
pub use laws::lemma_last_write_wins;
pub use laws::lemma_malformed_line_skipped;
pub use laws::lemma_map_of_domain;
pub use laws::lemma_model_sorted;
pub use laws::lemma_render_deterministic;
pub use laws::lemma_sorted_collection_canonical;
pub use laws::lemma_sorted_ids_unique;
pub use laws::lemma_title_once;
pub use links::extract_links;
pub use links::insert_sorted;
pub use links::lemma_map_of_insert_sorted;
pub use links::map_of;
pub use links::model_recs;
pub use links::rec_of;
pub use links::sorted_strict;
pub use links::Links;
pub use order::lemma_lex_transitive;
pub use order::lemma_lex_trichotomy;
pub use order::lex_lt;
pub use order::str_lt;
pub use record::Link;
pub use record::match_at;
pub use record::parse_line;
pub use record::split_all;
pub use record::split_fragments;
pub use record::split_scan;
pub use render::footer_lines;
pub use render::h1_line;
pub use render::header_lines;
pub use render::li_line;
pub use render::list_lines;
pub use render::render;
pub use render::render_lines;
pub use render::run_lines;
pub use render::title_line;

verus! {

/// The text of each string in a sequence, in order: the shape in which
/// contracts speak of a list of lines.
pub open spec fn views_of(v: Seq<String>) -> Seq<Seq<char>> {
    v.map_values(|s: String| s@)
}

} // verus!
