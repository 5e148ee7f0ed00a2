//! Render-pipeline specialization.
//!
//! A draw call asks for a source pipeline under a specialization: a set of shader
//! defines and a primitive topology. [`pipeline_compiler::PipelineCompiler`] resolves
//! the request to a compiled variant of the pipeline, which it compiles at most once
//! for each specialization of each source, and the frame pass
//! [`pipeline_compiler::update_shader_assignments`] rebuilds, every frame, the table of
//! which draw calls are drawn with which compiled pipeline.
//!
//! The modules fall into four groups.
//!
//! * Data: [`handle`], [`shader`], [`specialization`], [`layout`], [`pipeline`],
//!   [`render_resource`], [`error`].
//! * The outside world: [`asset_store`] holds the shaders and the pipelines, and the
//!   traits of [`shader`] and [`render_resource`] stand for the compile service, the
//!   layout reflector and the registry of live resources.
//! * Models: [`search`], [`text_order`], [`variant_cache`], [`resolution`] and
//!   [`frame`] say in mathematical terms what a lookup, the listing of a set of
//!   defines, a resolution and a pass over draw calls are.
//! * Laws: [`soundness`] and [`merge_laws`] prove what holds across calls.
//!
//! [`window`] and [`rig`] hold the little that the window and rig plugins decide.

pub mod asset_store;
pub mod error;
pub mod frame;
pub mod handle;
pub mod layout;
pub mod merge_laws;
pub mod pipeline;
pub mod pipeline_compiler;
pub mod render_resource;
pub mod resolution;
pub mod rig;
pub mod search;
pub mod shader;
pub mod soundness;
pub mod specialization;
pub mod text_order;
pub mod variant_cache;
pub mod window;
