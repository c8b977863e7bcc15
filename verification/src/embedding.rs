//! Text embeddings used to group agents by profile similarity.

use vstd::prelude::*;

verus! {

#[derive(Debug)]
pub enum EmbedError {
    /// The embedding backend failed; the text says how.
    Backend(String),
}

/// Deterministic hash-based embedder for tests: same text, same vector.
///
/// The vectors themselves are floating point and are computed outside this
/// library; the library holds the embedder's configuration.
pub struct HashEmbedder {
    dim: usize,
}

impl HashEmbedder {
    #[verifier::type_invariant]
    closed spec fn dim_positive(&self) -> bool {
        self.dim > 0
    }

    /// The length of the vectors this embedder produces.
    pub closed spec fn spec_dim(&self) -> usize {
        self.dim
    }

    /// An embedder producing vectors of length `dim`; a zero length is refused
    /// (the caller must not ask for one).
    pub fn new(dim: usize) -> (e: Self)
        requires
            dim > 0,
        ensures
            e.spec_dim() == dim,
    {
        HashEmbedder { dim }
    }

    pub fn dim(&self) -> (d: usize)
        ensures
            d == self.spec_dim(),
            d > 0,
    {
        proof {
            use_type_invariant(self);
        }
        self.dim
    }
}

} // verus!
