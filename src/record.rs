use vstd::prelude::*;

verus! {

/// Declared shape and element type of one input or output tensor.
pub struct TensorFacts {
    pub datum_type: Option<String>,
    pub dims: Vec<usize>,
    pub index: Option<usize>,
    pub index_name: Option<String>,
}

/// Why a model is being inserted.
#[derive(Clone, Copy, Debug, PartialEq, Eq, Structural)]
pub enum LoadContext {
    /// A fresh upload from a client.
    FromSendModel,
    /// Restored from sealed storage at startup.
    FromSealedStorage,
    /// Preloaded from the static configuration.
    FromStartupConfig,
}

/// A loaded, addressable model.
///
/// Records inserted through the deduplicating path hold no artifact of their
/// own: their parsed artifact is the one stored in the hash index under
/// `hash`. Preloaded records bypass the hash index and carry their artifact
/// in `own_artifact`.
pub struct ModelRecord<A> {
    pub id: String,
    pub name: Option<String>,
    pub hash: Vec<u8>,
    pub owner_id: Option<usize>,
    pub input_facts: Vec<TensorFacts>,
    pub output_facts: Vec<TensorFacts>,
    pub optim: bool,
    pub context: LoadContext,
    pub own_artifact: Option<A>,
}

/// Whether a record takes part in the reference-counted hash index.
pub open spec fn is_counted<A>(r: ModelRecord<A>) -> bool {
    r.own_artifact is None
}

} // verus!
