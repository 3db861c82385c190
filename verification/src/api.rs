//! The retrieval engine façade.
//!
//! A [`SparkBert`] owns the vocabulary projector and the inverted index and
//! drives the two pipelines.  Indexing a document is: project its embeddings
//! onto tokens (with their stored vectors), score each token outside this
//! crate, then accumulate the (token, score) pairs; one `finalize` then makes
//! the corpus searchable.  Querying is: project the query embedding onto a
//! (smaller) token set and run the boolean-OR term-frequency search.  The
//! host supplies embeddings and dot products as IEEE-754 bit patterns; every
//! decision from there on is made here.

use vstd::prelude::*;

use crate::ann::Index;
use crate::error::RetrievalError;
use crate::inverted_index::InvertedIndex;
use crate::inverted_index::add_pending;
use crate::inverted_index::encode_all;
use crate::inverted_index::encode_doc;
use crate::inverted_index::search_spec;
use crate::inverted_index::stop_set;
use crate::inverted_index::zip_pairs;
use crate::labels::strictly_ascending;
use crate::vocabulary::VectorVocabulary;
use crate::vocabulary::concat_all;
use crate::vocabulary::labels_valid;
use crate::vocabulary::tokens_match;
use crate::vocabulary::vectors_at;

verus! {

/// The engine's tunable parameters: how many vocabulary neighbors enrich a
/// document at indexing time, the minimum-score threshold of the quantizer
/// (as an IEEE-754 bit pattern), and the stop-token document-frequency
/// threshold in hundredths.  Documents take many neighbors for recall;
/// queries pass their own, smaller neighbor count to `search` for precision.
#[derive(Clone, Copy, PartialEq, Eq, Structural)]
pub struct Config {
    pub index_n_neighbors: usize,
    pub min_score_bits: u32,
    pub max_df_percent: u64,
}

/// The sparse-projection retrieval engine.
pub struct SparkBert<T: Index> {
    vector_vocabulary: VectorVocabulary<T>,
    inverted_index: InvertedIndex,
    config: Config,
}

impl<T: Index> SparkBert<T> {
    /// The vocabulary projector.
    pub closed spec fn spec_vocabulary(&self) -> VectorVocabulary<T> {
        self.vector_vocabulary
    }

    /// The inverted index.
    pub closed spec fn spec_inverted(&self) -> InvertedIndex {
        self.inverted_index
    }

    /// The configuration.
    pub closed spec fn spec_config(&self) -> Config {
        self.config
    }

    /// The engine's internal invariant: the index's own invariant holds.
    pub open spec fn wf(&self) -> bool {
        self.spec_inverted().wf()
    }

    /// Assemble an engine around a vocabulary, with a fresh empty index.
    pub fn new(vector_vocabulary: VectorVocabulary<T>, config: Config) -> (r: SparkBert<T>)
        ensures
            r.spec_vocabulary() == vector_vocabulary,
            r.spec_config() == config,
            r.spec_inverted().spec_min_score() == config.min_score_bits,
            r.spec_inverted().spec_max_df_percent() == config.max_df_percent,
            r.spec_inverted().spec_pending().len() == 0,
            r.spec_inverted().spec_docs().len() == 0,
            !r.spec_inverted().spec_finalized(),
            r.wf(),
    {
        let inverted_index = InvertedIndex::open(config.min_score_bits, config.max_df_percent);
        SparkBert { vector_vocabulary, inverted_index, config }
    }

    /// Project a document's flattened embeddings onto vocabulary tokens,
    /// reconstructing each matched token's stored vector so the host can
    /// score the document against exactly those tokens.
    pub fn project_document(&mut self, doc_embs: &[u32]) -> (r: Result<
        (Vec<String>, Vec<u32>),
        RetrievalError,
    >)
        requires
            old(self).spec_config().index_n_neighbors >= 1,
            doc_embs@.len() * old(self).spec_config().index_n_neighbors <= usize::MAX,
        ensures
            final(self).spec_inverted() == old(self).spec_inverted(),
            final(self).spec_config() == old(self).spec_config(),
            final(self).spec_vocabulary().spec_table() == old(self).spec_vocabulary().spec_table(),
            final(self).spec_vocabulary().spec_index().dim() == old(self).spec_vocabulary().spec_index().dim(),
            final(self).spec_vocabulary().spec_index().vectors() == old(self).spec_vocabulary().spec_index().vectors(),
            (old(self).spec_vocabulary().spec_index().dim() == 0 || doc_embs@.len() % old(
                self,
            ).spec_vocabulary().spec_index().dim() != 0) <==> r == Result::<
                (Vec<String>, Vec<u32>),
                RetrievalError,
            >::Err(RetrievalError::DimensionMismatch),
            match r {
                Result::Ok((tokens, vecs)) => exists|ids: Seq<crate::ann::Idx>|
                    {
                        &&& strictly_ascending(ids)
                        &&& ids.len() <= (doc_embs@.len() / old(
                            self,
                        ).spec_vocabulary().spec_index().dim()) * old(
                            self,
                        ).spec_config().index_n_neighbors
                        &&& tokens_match(
                            old(self).spec_vocabulary().spec_table(),
                            ids,
                            tokens@.map_values(|t: String| t@),
                        )
                        &&& labels_valid(old(self).spec_vocabulary().spec_index().vectors(), ids)
                        &&& vecs@ == concat_all(
                            vectors_at(old(self).spec_vocabulary().spec_index().vectors(), ids),
                        )
                        &&& vecs@.len() == ids.len() * old(self).spec_vocabulary().spec_index().dim()
                    },
                Result::Err(e) => e == RetrievalError::DimensionMismatch || e
                    == RetrievalError::AnnFailure || e == RetrievalError::UnknownTokenId,
            },
    {
        let n: usize = self.config.index_n_neighbors;
        match self.vector_vocabulary.find_tokens(doc_embs, n, true) {
            Result::Ok((tokens, Option::Some(vecs))) => Result::Ok((tokens, vecs)),
            Result::Ok((tokens, Option::None)) => {
                // unreachable: vectors were requested
                Result::Err(RetrievalError::AnnFailure)
            },
            Result::Err(e) => Result::Err(e),
        }
    }

    /// Accumulate one document's scored tokens into the pending generation.
    pub fn index(&mut self, doc_id: u64, tokens: Vec<String>, scores: Vec<u32>) -> (r: Result<
        (),
        RetrievalError,
    >)
        requires
            tokens@.len() == scores@.len(),
        ensures
            final(self).spec_vocabulary() == old(self).spec_vocabulary(),
            final(self).spec_config() == old(self).spec_config(),
            final(self).spec_inverted().spec_min_score() == old(self).spec_inverted().spec_min_score(),
            final(self).spec_inverted().spec_max_df_percent() == old(self).spec_inverted().spec_max_df_percent(),
            final(self).spec_inverted().spec_docs() == old(self).spec_inverted().spec_docs(),
            final(self).spec_inverted().spec_finalized() == old(self).spec_inverted().spec_finalized(),
            match r {
                Result::Ok(u) => !old(self).spec_inverted().spec_finalized() && final(self).spec_inverted().spec_pending() == add_pending(
                    old(self).spec_inverted().spec_pending(),
                    doc_id,
                    zip_pairs(tokens@.map_values(|t: String| t@), scores@),
                ),
                Result::Err(e) => {
                    &&& e == RetrievalError::AlreadyFinalized
                    &&& old(self).spec_inverted().spec_finalized()
                    &&& final(self).spec_inverted().spec_pending() == old(self).spec_inverted().spec_pending()
                },
            },
            old(self).wf() ==> final(self).wf(),
    {
        self.inverted_index.index(doc_id, tokens, scores)
    }

    /// Finalize the pending generation into the searchable one.
    pub fn finalize(&mut self, filter_stop_words: bool) -> (r: Result<(), RetrievalError>)
        ensures
            final(self).spec_vocabulary() == old(self).spec_vocabulary(),
            final(self).spec_config() == old(self).spec_config(),
            final(self).spec_inverted().spec_min_score() == old(self).spec_inverted().spec_min_score(),
            final(self).spec_inverted().spec_max_df_percent() == old(self).spec_inverted().spec_max_df_percent(),
            match r {
                Result::Ok(u) => {
                    &&& !old(self).spec_inverted().spec_finalized()
                    &&& forall|i: int|
                        0 <= i < old(self).spec_inverted().spec_pending().len() ==> encode_doc(
                            (#[trigger] old(self).spec_inverted().spec_pending()[i]).1,
                            stop_set(
                                old(self).spec_inverted().spec_pending(),
                                filter_stop_words,
                                old(self).spec_inverted().spec_max_df_percent(),
                            ),
                            old(self).spec_inverted().spec_min_score(),
                        ).len() > 0
                    &&& final(self).spec_inverted().spec_finalized()
                    &&& final(self).spec_inverted().spec_pending().len() == 0
                    &&& final(self).spec_inverted().spec_docs() == encode_all(
                        old(self).spec_inverted().spec_pending(),
                        stop_set(
                            old(self).spec_inverted().spec_pending(),
                            filter_stop_words,
                            old(self).spec_inverted().spec_max_df_percent(),
                        ),
                        old(self).spec_inverted().spec_min_score(),
                    )
                },
                Result::Err(e) => {
                    &&& final(self).spec_inverted() == old(self).spec_inverted()
                    &&& (e == RetrievalError::AlreadyFinalized || e
                        == RetrievalError::EmptyDocument)
                    &&& (e == RetrievalError::AlreadyFinalized <==> old(self).spec_inverted().spec_finalized())
                    &&& (e == RetrievalError::EmptyDocument ==> exists|i: int|
                        0 <= i < old(self).spec_inverted().spec_pending().len() && encode_doc(
                            (#[trigger] old(self).spec_inverted().spec_pending()[i]).1,
                            stop_set(
                                old(self).spec_inverted().spec_pending(),
                                filter_stop_words,
                                old(self).spec_inverted().spec_max_df_percent(),
                            ),
                            old(self).spec_inverted().spec_min_score(),
                        ).len() == 0)
                },
            },
            old(self).wf() ==> final(self).wf(),
    {
        self.inverted_index.finalize(filter_stop_words)
    }

    /// Project a query's embedding onto tokens and answer the boolean-OR
    /// term-frequency query: the top `top_k` documents by descending score,
    /// ties broken by document id ascending.
    pub fn search(&mut self, query_embs: &[u32], search_n_neighbors: usize, top_k: usize) -> (r:
        Result<Vec<(u64, u64)>, RetrievalError>)
        requires
            search_n_neighbors >= 1,
            query_embs@.len() * search_n_neighbors <= usize::MAX,
        ensures
            final(self).spec_inverted() == old(self).spec_inverted(),
            final(self).spec_config() == old(self).spec_config(),
            final(self).spec_vocabulary().spec_table() == old(self).spec_vocabulary().spec_table(),
            final(self).spec_vocabulary().spec_index().dim() == old(self).spec_vocabulary().spec_index().dim(),
            final(self).spec_vocabulary().spec_index().vectors() == old(self).spec_vocabulary().spec_index().vectors(),
            (old(self).spec_vocabulary().spec_index().dim() == 0 || query_embs@.len() % old(
                self,
            ).spec_vocabulary().spec_index().dim() != 0) <==> r == Result::<
                Vec<(u64, u64)>,
                RetrievalError,
            >::Err(RetrievalError::DimensionMismatch),
            r == Result::<Vec<(u64, u64)>, RetrievalError>::Err(RetrievalError::NotFinalized)
                ==> !old(self).spec_inverted().spec_finalized(),
            match r {
                Result::Ok(v) => exists|ids: Seq<crate::ann::Idx>, q: Seq<Seq<char>>|
                    {
                        &&& strictly_ascending(ids)
                        &&& ids.len() <= (query_embs@.len() / old(
                            self,
                        ).spec_vocabulary().spec_index().dim()) * search_n_neighbors
                        &&& tokens_match(old(self).spec_vocabulary().spec_table(), ids, q)
                        &&& (q.len() > 0 ==> old(self).spec_inverted().spec_finalized())
                        &&& v@ == search_spec(
                            old(self).spec_inverted().spec_docs(),
                            q,
                            top_k as nat,
                        )
                    },
                Result::Err(e) => e == RetrievalError::DimensionMismatch || e
                    == RetrievalError::AnnFailure || e == RetrievalError::UnknownTokenId || e
                    == RetrievalError::NotFinalized,
            },
    {
        let found = match self.vector_vocabulary.find_tokens(
            query_embs,
            search_n_neighbors,
            false,
        ) {
            Result::Ok((tokens, _)) => tokens,
            Result::Err(e) => {
                return Result::Err(e);
            },
        };
        match self.inverted_index.search(&found, top_k) {
            Result::Ok(v) => {
                proof {
                    let ids = choose|ids: Seq<crate::ann::Idx>|
                        strictly_ascending(ids) && ids.len() <= (query_embs@.len() / old(
                            self,
                        ).spec_vocabulary().spec_index().dim()) * search_n_neighbors
                            && tokens_match(
                            old(self).spec_vocabulary().spec_table(),
                            ids,
                            found@.map_values(|t: String| t@),
                        );
                    let q = found@.map_values(|t: String| t@);
                    assert(strictly_ascending(ids) && tokens_match(
                        old(self).spec_vocabulary().spec_table(),
                        ids,
                        q,
                    ) && (q.len() > 0 ==> old(self).spec_inverted().spec_finalized()) && v@
                        == search_spec(old(self).spec_inverted().spec_docs(), q, top_k as nat));
                }
                Result::Ok(v)
            },
            Result::Err(e) => Result::Err(e),
        }
    }

    /// How many documents the searchable generation holds.
    pub fn get_num_docs(&self) -> (r: u64)
        ensures
            r as nat == self.spec_inverted().spec_docs().len(),
    {
        self.inverted_index.get_num_docs()
    }

    /// The searchable generation's records, for a host that persists them.
    pub fn records(&self) -> (r: &Vec<crate::inverted_index::DocRecord>)
        ensures
            r@.map_values(|d: crate::inverted_index::DocRecord| d@) == self.spec_inverted().spec_docs(),
    {
        self.inverted_index.records()
    }
}

} // verus!
