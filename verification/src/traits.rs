//! Interfaces the surrounding system implements for the engine.

use crate::primitives::ModuleCallIndex;
use vstd::prelude::*;

verus! {

/// Implemented by the host's call type: fingerprints a concrete call as
/// the (module index, function index) pair the engine keys its
/// permission index by. The engine never looks inside a call; this is
/// the only thing it asks of one.
pub trait GetCallMetadataIndecies {
    /// The (module index, function index) pair of this call.
    fn get_call_metadata_indicies(&self) -> ModuleCallIndex;
}

} // verus!
