//! Identifiers of assets held in an asset store.

use vstd::prelude::*;

verus! {

/// Identifies one shader in the shader store. Compared by identity.
#[derive(Clone, Copy, Debug, PartialEq, Eq, Hash, Structural)]
pub struct ShaderHandle {
    pub id: u128,
}

/// Identifies one pipeline descriptor in the pipeline store. Compared by identity.
#[derive(Clone, Copy, Debug, PartialEq, Eq, Hash, Structural)]
pub struct PipelineHandle {
    pub id: u128,
}

} // verus!
