//! Why a pipeline could not be resolved.

use vstd::prelude::*;
use crate::handle::{PipelineHandle, ShaderHandle};
use crate::shader::CompileError;

verus! {

/// Why a pipeline could not be resolved.
#[derive(Debug)]
pub enum PipelineError {
    /// The shader store holds nothing under the handle.
    ShaderNotFound(ShaderHandle),
    /// The pipeline store holds nothing under the handle.
    PipelineNotFound(PipelineHandle),
    /// The compile service refused the source of a shader with the requested defines.
    Compile(CompileError),
    /// No layout could be read off the shader: it is not a binary, or the reflector
    /// found no layout in it.
    Reflection(ShaderHandle),
}

} // verus!
