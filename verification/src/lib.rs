//! A deduplicated, searchable history of text copied to a shared clipboard.
//!
//! The library is the verified core of the system: building immutable
//! clipboard records with a content-derived identity, keeping them in a
//! content-addressed store ordered by capture time, answering recency and
//! substring-search queries, and deciding, from a snapshot of the last
//! observed clipboard text, whether a sampled clipboard value is a real
//! change worth persisting.  Reading the system clipboard, durable storage
//! of the rows, and the desktop shell around it all live outside.

mod clip;
mod database;
mod state;
mod text;
mod utils;

pub use clip::{
    Clip, Rec, hex_digit, hex_of, identity_of, lemma_hex_of_len, lemma_identity_of_value, md5_of,
    rec_of,
};
pub use database::{
    Database, StoreError, insert_desc, lemma_matching_complete, lemma_search_blank_is_list_recent,
    lemma_search_case_insensitive, lemma_search_source_mismatch, lemma_upsert_model_wf,
    lemma_upsert_same_value_once, matching, rec_matches, recent_model, recs, remove_hash,
    sorted_desc, sources_ok, strs, unique_hashes, upsert_model, values_of, wf_rows,
};
pub use state::{
    AppState, DEFAULT_LIMIT, StateModel, WriteBack, captures, lemma_blank_sample_ignored,
    lemma_unchanged_sample_ignored, lemma_write_back_suppresses_detection, opt_text, seeded,
};
pub use text::{
    contains_chars, is_blank, is_blank_str, is_space, is_space_char, is_substring, lower,
    lower_char, lower_char_exec, matches_at, to_lower_chars,
};
pub use utils::get_active_app_name_macos;
