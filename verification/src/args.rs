//! Host-side configuration of the embedding model runner.
//!
//! The engine itself never loads a model; the host program that embeds text
//! does, and these are the knobs it takes.  The struct lives here so the
//! verified pipeline and its host agree on one configuration carrier.

use vstd::prelude::*;

verus! {

/// How the host runs the embedding model.
pub struct Args {
    /// Run on CPU rather than on an accelerator.
    pub cpu: bool,
    /// Emit a trace of the model run.
    pub tracing: bool,
    /// The model to load, or the default one.
    pub model_id: Option<String>,
    /// The model revision, or the default one.
    pub revision: Option<String>,
    /// When set, compute embeddings for this prompt.
    pub prompt: Option<String>,
    /// Load pytorch weights rather than safetensors ones.
    pub use_pth: bool,
    /// How many times to run the prompt.
    pub n: usize,
    /// L2-normalize pooled embeddings.
    pub normalize_embeddings: bool,
    /// Use the tanh-based approximation for the activation.
    pub approximate_gelu: bool,
}

} // verus!
