//! The error taxonomy of the retrieval engine.

use vstd::prelude::*;

verus! {

/// Everything that can go wrong inside the engine.
///
/// The variants fall into three families: configuration faults (the
/// vocabulary table and the vector index disagree, or the table itself is
/// malformed), retrieval faults surfaced by the vector index, and invariant
/// violations (an operation was issued in the wrong index state, or
/// quantization plus pruning left a document empty).
#[derive(Debug, PartialEq, Eq, Structural)]
pub enum RetrievalError {
    /// The id-to-token table could not be parsed.
    MalformedTable,
    /// Two entries of the id-to-token table carry the same numeric id.
    DuplicateTableId,
    /// The vector index returned an id that the token table does not know:
    /// the vocabulary and the vector index are out of sync.
    UnknownTokenId,
    /// The flattened embedding batch is not a whole number of vectors.
    DimensionMismatch,
    /// The vector index reported a failure during search or reconstruction.
    AnnFailure,
    /// A document ended up with zero encoded occurrences after quantization
    /// and stop-token pruning: the hyperparameters are misconfigured.
    EmptyDocument,
    /// `finalize` was called on an already finalized index generation.
    AlreadyFinalized,
    /// `search` was called before the index generation was finalized.
    NotFinalized,
}

impl RetrievalError {
    /// A short human-readable description of the error.
    pub fn describe(&self) -> (r: &'static str)
        ensures
            r@.len() > 0,
    {
        let msg: &'static str = match self {
            RetrievalError::MalformedTable => "the id-to-token table could not be parsed",
            RetrievalError::DuplicateTableId => "the id-to-token table repeats a numeric id",
            RetrievalError::UnknownTokenId => "the vector index and the token table are out of sync",
            RetrievalError::DimensionMismatch => "embedding length is not a multiple of the vector dimension",
            RetrievalError::AnnFailure => "the vector index failed",
            RetrievalError::EmptyDocument => "a document kept no tokens after quantization and pruning",
            RetrievalError::AlreadyFinalized => "the index generation is already finalized",
            RetrievalError::NotFinalized => "the index generation is not finalized yet",
        };
        proof {
            reveal_strlit("the id-to-token table could not be parsed");
            reveal_strlit("the id-to-token table repeats a numeric id");
            reveal_strlit("the vector index and the token table are out of sync");
            reveal_strlit("embedding length is not a multiple of the vector dimension");
            reveal_strlit("the vector index failed");
            reveal_strlit("a document kept no tokens after quantization and pruning");
            reveal_strlit("the index generation is already finalized");
            reveal_strlit("the index generation is not finalized yet");
        }
        msg
    }
}

} // verus!
