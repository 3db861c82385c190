//! The vocabulary projector.
//!
//! A dense embedding is projected onto discrete vocabulary tokens: the ANN
//! index returns the nearest entry ids, the ids are deduplicated and sorted,
//! and each id is mapped to its token string through the id-to-token table;
//! a missing mapping means the vocabulary and the index are out of sync.
//! Optionally the stored vector of each surviving id is reconstructed, so a
//! scorer can rate the document against exactly the tokens it matched.

use vstd::prelude::*;

use crate::ann::Idx;
use crate::ann::Index;
use crate::ann::SearchResult;
use crate::error::RetrievalError;
use crate::labels::strictly_ascending;
use crate::labels::unique_labels;
use crate::table::TokenTable;

verus! {

/// The concatenation of a sequence of vectors.
pub open spec fn concat_all(vs: Seq<Seq<u32>>) -> Seq<u32>
    decreases vs.len(),
{
    if vs.len() == 0 {
        Seq::empty()
    } else {
        concat_all(vs.drop_last()) + vs.last()
    }
}

/// The stored vectors of an index at the given labels, in label order.
pub open spec fn vectors_at(vectors: Seq<Seq<u32>>, labels: Seq<Idx>) -> Seq<Seq<u32>> {
    Seq::new(labels.len(), |i: int| vectors[labels[i].spec_val() as int])
}

/// Every label denotes a stored vector.
pub open spec fn labels_valid(vectors: Seq<Seq<u32>>, labels: Seq<Idx>) -> bool {
    forall|i: int|
        0 <= i < labels.len() ==> (#[trigger] labels[i]).spec_is_some() && labels[i].spec_val()
            < vectors.len()
}

/// The table maps `id` to the token `tok`.
pub open spec fn token_at(table: TokenTable, id: u64, tok: Seq<char>) -> bool {
    exists|j: int|
        0 <= j < table.entries_view().len() && #[trigger] table.entries_view()[j] == (id, tok)
}

/// A token sequence is the table's image of a label sequence.
pub open spec fn tokens_match(table: TokenTable, labels: Seq<Idx>, tokens: Seq<Seq<char>>) -> bool {
    &&& tokens.len() == labels.len()
    &&& forall|i: int|
        0 <= i < labels.len() ==> #[trigger] token_at(table, labels[i].spec_val(), tokens[i])
}

/// Concatenating vectors of one length multiplies the length.
proof fn lemma_concat_all_len(vs: Seq<Seq<u32>>, d: nat)
    requires
        forall|i: int| 0 <= i < vs.len() ==> (#[trigger] vs[i]).len() == d,
    ensures
        concat_all(vs).len() == vs.len() * d,
    decreases vs.len(),
{
    if vs.len() == 0 {
    } else {
        assert(forall|i: int| 0 <= i < vs.drop_last().len() ==> (#[trigger] vs.drop_last()[i]).len()
            == d);
        lemma_concat_all_len(vs.drop_last(), d);
        assert((vs.len() - 1) * d + d == vs.len() * d) by (nonlinear_arith);
    }
}

/// Reconstruct the stored vectors of a batch of labels into one flattened
/// vector, in label order.
pub fn reconstruct_batch<T: Index>(index: &T, labels: &Vec<Idx>) -> (r: Result<
    Vec<u32>,
    RetrievalError,
>)
    ensures
        (forall|i: int|
            0 <= i < labels@.len() ==> (#[trigger] labels@[i]).spec_is_some()
                && index.reconstructs(labels@[i].spec_val())) ==> r is Ok,
        match r {
            Result::Ok(flat) => {
                &&& labels_valid(index.vectors(), labels@)
                &&& forall|i: int|
                    0 <= i < labels@.len() ==> (#[trigger] index.vectors()[labels@[i].spec_val() as int]).len()
                        == index.dim()
                &&& flat@ == concat_all(vectors_at(index.vectors(), labels@))
                &&& flat@.len() == labels@.len() * index.dim()
            },
            Result::Err(e) => e == RetrievalError::AnnFailure,
        },
{
    let n: usize = labels.len();
    let mut flat: Vec<u32> = Vec::new();
    let mut i: usize = 0;
    while i < n
        invariant
            0 <= i <= n,
            n == labels@.len(),
            forall|j: int|
                0 <= j < i ==> (#[trigger] labels@[j]).spec_is_some() && labels@[j].spec_val()
                    < index.vectors().len(),
            flat@ == concat_all(vectors_at(index.vectors(), labels@.take(i as int))),
            forall|j: int|
                0 <= j < i ==> (#[trigger] index.vectors()[labels@[j].spec_val() as int]).len()
                    == index.dim(),
        decreases n - i,
    {
        let mut chunk: Vec<u32> = match index.reconstruct(labels[i]) {
            Result::Ok(v) => v,
            Result::Err(_) => {
                return Result::Err(RetrievalError::AnnFailure);
            },
        };
        proof {
            assert(chunk@ == index.vectors()[labels@[i as int].spec_val() as int]);
            let prev = vectors_at(index.vectors(), labels@.take(i as int));
            let cur = vectors_at(index.vectors(), labels@.take(i + 1));
            assert(cur.drop_last() =~= prev);
            assert(cur.last() == chunk@);
            assert(concat_all(cur) == concat_all(prev) + chunk@);
        }
        flat.append(&mut chunk);
        i = i + 1;
    }
    proof {
        assert(labels@.take(n as int) =~= labels@);
        let vs = vectors_at(index.vectors(), labels@);
        assert forall|j: int| 0 <= j < vs.len() implies (#[trigger] vs[j]).len() == index.dim() by {
            assert(vs[j] == index.vectors()[labels@[j].spec_val() as int]);
        }
        lemma_concat_all_len(vs, index.dim());
        assert(labels_valid(index.vectors(), labels@));
    }
    Result::Ok(flat)
}

/// Map each label's id to its token through the table.  Every label must
/// denote a result; an id the table does not know is a configuration fault.
fn tokens_for(table: &TokenTable, labels: &Vec<Idx>) -> (r: Result<Vec<String>, RetrievalError>)
    requires
        forall|i: int| 0 <= i < labels@.len() ==> (#[trigger] labels@[i]).spec_is_some(),
    ensures
        match r {
            Result::Ok(tokens) => tokens_match(
                *table,
                labels@,
                tokens@.map_values(|t: String| t@),
            ),
            Result::Err(e) => {
                &&& e == RetrievalError::UnknownTokenId
                &&& exists|i: int|
                    0 <= i < labels@.len() && !table.spec_contains(
                        (#[trigger] labels@[i]).spec_val(),
                    )
            },
        },
{
    let n: usize = labels.len();
    let mut tokens: Vec<String> = Vec::new();
    let mut i: usize = 0;
    while i < n
        invariant
            0 <= i <= n,
            n == labels@.len(),
            forall|j: int| 0 <= j < n ==> (#[trigger] labels@[j]).spec_is_some(),
            tokens@.len() == i,
            forall|a: int|
                0 <= a < i ==> #[trigger] token_at(*table, labels@[a].spec_val(), tokens@[a]@),
        decreases n - i,
    {
        let id: u64 = match labels[i].get() {
            Option::Some(v) => v,
            Option::None => {
                // unreachable: every label denotes a result
                return Result::Err(RetrievalError::UnknownTokenId);
            },
        };
        let token: String = match table.get(id) {
            Option::Some(t) => t.clone(),
            Option::None => {
                return Result::Err(RetrievalError::UnknownTokenId);
            },
        };
        let ghost token_view = token@;
        let ghost tokens_before = tokens@;
        proof {
            assert(token_at(*table, id, token_view));
        }
        tokens.push(token);
        proof {
            assert forall|a: int|
                0 <= a < i + 1 implies #[trigger] token_at(
                *table,
                labels@[a].spec_val(),
                tokens@[a]@,
            ) by {
                if a < i as int {
                    assert(tokens@[a] == tokens_before[a]);
                    assert(token_at(*table, labels@[a].spec_val(), tokens_before[a]@));
                } else {
                    assert(tokens@[a]@ == token_view);
                }
            }
        }
        i = i + 1;
    }
    proof {
        let mapped = tokens@.map_values(|t: String| t@);
        assert forall|a: int|
            0 <= a < labels@.len() implies #[trigger] token_at(
            *table,
            labels@[a].spec_val(),
            mapped[a],
        ) by {
            assert(mapped[a] == tokens@[a]@);
            assert(token_at(*table, labels@[a].spec_val(), tokens@[a]@));
        }
    }
    Result::Ok(tokens)
}

/// The vocabulary projector: the ANN index over the vocabulary embeddings,
/// together with the id-to-token table.
pub struct VectorVocabulary<T: Index> {
    vector_index: T,
    table: TokenTable,
}

impl<T: Index> VectorVocabulary<T> {
    /// The ANN index.
    pub closed spec fn spec_index(&self) -> T {
        self.vector_index
    }

    /// The id-to-token table.
    pub closed spec fn spec_table(&self) -> TokenTable {
        self.table
    }

    /// Assemble a vocabulary from its index and its table.
    pub fn build(vector_index: T, table: TokenTable) -> (r: VectorVocabulary<T>)
        ensures
            r.spec_index() == vector_index,
            r.spec_table() == table,
    {
        VectorVocabulary { vector_index, table }
    }

    /// How many vocabulary entries the index stores.
    pub fn get_num_tokens(&self) -> (r: u64)
        ensures
            r as nat == self.spec_index().vectors().len(),
    {
        self.vector_index.ntotal()
    }

    /// The embedding dimension.
    pub fn get_embedding_dims(&self) -> (r: u32)
        ensures
            r as nat == self.spec_index().dim(),
    {
        self.vector_index.d()
    }

    /// Project a flattened batch of embeddings onto vocabulary tokens: search
    /// the index for the nearest entries, deduplicate their ids, map each
    /// surviving id to its token, and optionally reconstruct the entries'
    /// stored vectors.
    ///
    /// The index chooses the neighbors, so the tokens are pinned only
    /// relative to some ascending id sequence; the deduplication, the table
    /// lookup and the reconstruction are exact in that sequence.
    pub fn find_tokens(&mut self, query_embs: &[u32], n_neighbors: usize, with_embs: bool) -> (r:
        Result<(Vec<String>, Option<Vec<u32>>), RetrievalError>)
        requires
            n_neighbors >= 1,
            query_embs@.len() * n_neighbors <= usize::MAX,
        ensures
            final(self).spec_index().dim() == old(self).spec_index().dim(),
            final(self).spec_index().vectors() == old(self).spec_index().vectors(),
            final(self).spec_table() == old(self).spec_table(),
            (old(self).spec_index().dim() == 0 || query_embs@.len() % old(self).spec_index().dim()
                != 0) <==> r == Result::<(Vec<String>, Option<Vec<u32>>), RetrievalError>::Err(
                RetrievalError::DimensionMismatch,
            ),
            match r {
                Result::Ok((tokens, vecs)) => exists|ids: Seq<Idx>|
                    {
                        &&& strictly_ascending(ids)
                        &&& ids.len() <= (query_embs@.len() / old(self).spec_index().dim())
                            * n_neighbors
                        &&& tokens_match(
                            old(self).spec_table(),
                            ids,
                            tokens@.map_values(|t: String| t@),
                        )
                        &&& match vecs {
                            Option::Some(flat) => with_embs && labels_valid(
                                old(self).spec_index().vectors(),
                                ids,
                            ) && flat@ == concat_all(
                                vectors_at(old(self).spec_index().vectors(), ids),
                            ) && flat@.len() == ids.len() * old(self).spec_index().dim(),
                            Option::None => !with_embs,
                        }
                    },
                Result::Err(e) => e == RetrievalError::DimensionMismatch || e
                    == RetrievalError::AnnFailure || e == RetrievalError::UnknownTokenId,
            },
    {
        let d32: u32 = self.vector_index.d();
        if d32 == 0 {
            return Result::Err(RetrievalError::DimensionMismatch);
        }
        let d: usize = d32 as usize;
        if query_embs.len() % d != 0 {
            return Result::Err(RetrievalError::DimensionMismatch);
        }
        let sr: SearchResult = match self.vector_index.search(query_embs, n_neighbors) {
            Result::Ok(s) => s,
            Result::Err(_) => {
                return Result::Err(RetrievalError::AnnFailure);
            },
        };
        let uniq: Vec<Idx> = unique_labels(sr.labels.as_slice());
        let tokens: Vec<String> = match tokens_for(&self.table, &uniq) {
            Result::Ok(t) => t,
            Result::Err(_) => {
                return Result::Err(RetrievalError::UnknownTokenId);
            },
        };
        if with_embs {
            let flat: Vec<u32> = match reconstruct_batch(&self.vector_index, &uniq) {
                Result::Ok(f) => f,
                Result::Err(_) => {
                    return Result::Err(RetrievalError::AnnFailure);
                },
            };
            proof {
                let ghost ids = uniq@;
                assert(strictly_ascending(ids));
            }
            Result::Ok((tokens, Option::Some(flat)))
        } else {
            proof {
                let ghost ids = uniq@;
                assert(strictly_ascending(ids));
            }
            Result::Ok((tokens, Option::None))
        }
    }
}

} // verus!
