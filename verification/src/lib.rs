//! Statistics over game reviews: every review is counted under its game and under its
//! language, partial results of separate inputs are merged, and the merged result is ranked
//! into a report of the top games and the top languages.
//!
//! The statistics of each input are built independently (`body::process_data::process_file`)
//! and merged afterwards (`body::process_data::merge_partials`). Merging is associative and
//! agrees with counting all reviews in one pass, which `laws` proves, so the inputs may be
//! handled by separate workers and merged in whatever grouping they finish in.

pub mod body;
pub mod errors;
pub mod file;
pub mod laws;
pub mod structs;
