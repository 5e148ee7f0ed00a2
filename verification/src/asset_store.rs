//! The asset stores that hold shaders and pipeline descriptors.
//!
//! A store is a `bevy_asset::Assets`. Verus does not look inside it: what a store holds
//! is named by [`shader_assets`] and [`pipeline_assets`], and the contracts of the
//! functions below say what `Assets::get` and `Assets::add` do to it. Those contracts
//! are believed, not proved.
//!
//! A handle of a store is a UUID. The library knows it by its 128-bit value, which
//! `Handle::from_u128` and `Uuid::as_u128` convert to and from, one for one. The store
//! draws the handle of a new asset at random, so nothing here says that it is a handle
//! that the store was not using; [`crate::soundness::handle_was_fresh`] names that
//! condition where a law needs it.

use vstd::prelude::*;
use bevy_asset::Assets;
use bevy_asset::Handle;
use crate::handle::{PipelineHandle, ShaderHandle};
use crate::pipeline::{PipelineDescriptor, PipelineDescriptorView};
use crate::shader::{Shader, ShaderView};

verus! {

/// The store of shader assets: a `bevy_asset::Assets` of shaders. The engine owns it:
/// it fills and reads it through the field, lends it to the library for a pass, and
/// has it back with what was compiled.
#[verifier::external_body]
pub struct ShaderStore {
    pub assets: Assets<Shader>,
}

/// The shaders that a store holds, by the identifier of their handle.
pub uninterp spec fn shader_assets(store: ShaderStore) -> Map<u128, ShaderView>;

/// `Assets::get` on the handle made by `Handle::from_u128`: the shader stored under the
/// handle, if there is one.
#[verifier::external_body]
pub(crate) fn get_shader<'a>(store: &'a ShaderStore, handle: ShaderHandle) -> (found: Option<
    &'a Shader,
>)
    ensures
        match found {
            Some(shader) => shader_assets(*store).contains_key(handle.id) && shader@
                == shader_assets(*store)[handle.id],
            None => !shader_assets(*store).contains_key(handle.id),
        },
{
    store.assets.get(&Handle::from_u128(handle.id))
}

/// `Assets::add`: stores the shader under a handle that the store draws at random, and
/// returns that handle, by the value that `Uuid::as_u128` gives. Whatever was stored
/// under it before is replaced; every other asset stays.
#[verifier::external_body]
pub(crate) fn add_shader(store: &mut ShaderStore, shader: Shader) -> (handle: ShaderHandle)
    ensures
        shader_assets(*final(store)) == shader_assets(*old(store)).insert(handle.id, shader@),
{
    ShaderHandle { id: store.assets.add(shader).id.0.as_u128() }
}

/// The store of pipeline descriptors: a `bevy_asset::Assets` of pipeline descriptors,
/// which the engine fills and reads through the field.
#[verifier::external_body]
pub struct PipelineStore {
    pub assets: Assets<PipelineDescriptor>,
}

/// The pipeline descriptors that a store holds, by the identifier of their handle.
pub uninterp spec fn pipeline_assets(store: PipelineStore) -> Map<u128, PipelineDescriptorView>;

/// `Assets::get` on the handle made by `Handle::from_u128`: the pipeline descriptor
/// stored under the handle, if there is one.
#[verifier::external_body]
pub(crate) fn get_pipeline<'a>(store: &'a PipelineStore, handle: PipelineHandle) -> (found:
    Option<&'a PipelineDescriptor>)
    ensures
        match found {
            Some(descriptor) => pipeline_assets(*store).contains_key(handle.id) && descriptor@
                == pipeline_assets(*store)[handle.id],
            None => !pipeline_assets(*store).contains_key(handle.id),
        },
{
    store.assets.get(&Handle::from_u128(handle.id))
}

/// `Assets::add`: stores the pipeline descriptor under a handle that the store draws at
/// random, and returns that handle, by the value that `Uuid::as_u128` gives. Whatever
/// was stored under it before is replaced; every other asset stays.
#[verifier::external_body]
pub(crate) fn add_pipeline(store: &mut PipelineStore, descriptor: PipelineDescriptor) -> (handle:
    PipelineHandle)
    ensures
        pipeline_assets(*final(store)) == pipeline_assets(*old(store)).insert(
            handle.id,
            descriptor@,
        ),
{
    PipelineHandle { id: store.assets.add(descriptor).id.0.as_u128() }
}

} // verus!
