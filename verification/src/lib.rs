//! A sparse-projection document retrieval engine.
//!
//! Dense contextual embeddings are projected onto a fixed vocabulary of
//! discrete concept tokens by approximate nearest-neighbor lookup, each
//! document's relevance to a matched token is quantized into a small integer
//! posting weight, and retrieval reduces to a boolean-OR term-frequency query
//! over an inverted index.
//!
//! Embedding vectors are carried through the engine as sequences of IEEE-754
//! single-precision bit patterns (`u32`); the floating-point arithmetic that
//! produces them (the embedding model and the dot-product scorer) lives
//! outside this crate.

mod ann;
mod api;
mod args;
mod dataset;
mod error;
mod inverted_index;
mod labels;
mod laws;
mod parse;
mod quantize;
mod score;
mod table;
mod vocabulary;

pub use ann::FixtureIndex;
pub use ann::Idx;
pub use ann::Index;
pub use ann::SearchResult;
pub use api::Config;
pub use api::SparkBert;
pub use args::Args;
pub use dataset::Query;
pub use error::RetrievalError;
pub use inverted_index::DocRecord;
pub use inverted_index::InvertedIndex;
pub use inverted_index::PendingDoc;
pub use inverted_index::PendingEntry;
pub use inverted_index::Posting;
pub use inverted_index::add_pending;
pub use inverted_index::candidates;
pub use inverted_index::df_count;
pub use inverted_index::doc_has_token;
pub use inverted_index::doc_score;
pub use inverted_index::encode_all;
pub use inverted_index::encode_doc;
pub use inverted_index::find_doc;
pub use inverted_index::first_index;
pub use inverted_index::is_stop_token;
pub use inverted_index::lemma_find_doc;
pub use inverted_index::lemma_first_index;
pub use inverted_index::lemma_max_of;
pub use inverted_index::max_of;
pub use inverted_index::ranked;
pub use inverted_index::ranks_before;
pub use inverted_index::sat64;
pub use inverted_index::search_spec;
pub use inverted_index::stop_set;
pub use inverted_index::tf;
pub use inverted_index::zip_pairs;
pub use labels::some_vals;
pub use labels::strictly_ascending;
pub use labels::unique_labels;
pub use laws::lemma_ascending_distinct;
pub use laws::lemma_empty_query;
pub use laws::lemma_quantize_consistent;
pub use laws::lemma_ranked_len;
pub use laws::lemma_search_deterministic;
pub use laws::lemma_search_ordered;
pub use laws::lemma_single_document_round_trip;
pub use laws::lemma_stop_token_pruned;
pub use laws::lemma_tf_recovers_quantized_scores;
pub use laws::quantized_sum;
pub use parse::all_digits;
pub use parse::decimal_val;
pub use parse::digit_val;
pub use parse::is_decimal;
pub use parse::is_digit;
pub use parse::parse_u64;
pub use quantize::DEFAULT_MIN_SCORE_BITS;
pub use quantize::f32_lt;
pub use quantize::f32_lt_bits;
pub use quantize::fp8_e4m3_bits;
pub use quantize::fp8_e4m3_of;
pub use quantize::lemma_quantize_floor;
pub use quantize::quantize;
pub use quantize::quantize_spec;
pub use score::calculate_max_sim;
pub use score::col_max;
pub use score::max_per_token;
pub use table::TokenTable;
pub use table::json_accepts;
pub use table::json_string_object;
pub use table::keys_all_decimal;
pub use table::keys_collide;
pub use table::table_covers;
pub use table::table_entry_from;
pub use vocabulary::VectorVocabulary;
pub use vocabulary::concat_all;
pub use vocabulary::labels_valid;
pub use vocabulary::reconstruct_batch;
pub use vocabulary::token_at;
pub use vocabulary::tokens_match;
pub use vocabulary::vectors_at;
