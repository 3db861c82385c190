//! The query record of an evaluation dataset.
//!
//! Corpus loading is host-side I/O; the engine only needs the text a query
//! carries.

use vstd::prelude::*;

verus! {

/// One query of an evaluation run.
pub struct Query {
    pub text: String,
}

} // verus!
