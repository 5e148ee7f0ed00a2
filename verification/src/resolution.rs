//! What resolving a shader or a pipeline does, as relations between the state before
//! and the state after. The compile service, the reflector and the asset stores decide
//! part of the outcome; the relations say what holds whatever they answer.

use vstd::prelude::*;
use crate::error::PipelineError;
use crate::handle::{PipelineHandle, ShaderHandle};
use crate::layout::{
    BindGroupDescriptorView, BindType, BindingDescriptorView, PipelineLayoutView, ShaderLayout,
    ShaderLayoutView, VertexBufferDescriptorView, VertexBufferDescriptors, merged_layout,
    synced_descriptors,
};
use crate::pipeline::{
    PipelineDescriptor, PipelineDescriptorView, PipelineLayoutTypeView, ShaderStages,
};
use crate::render_resource::{RenderResourceAssignments, RenderResourceContext, ResourceInfo};
use crate::shader::{
    CompileError, LayoutReflector, Shader, ShaderCompiler, ShaderSourceView, ShaderView,
};
use crate::specialization::{PipelineSpecializationView, texts};
use crate::text_order::listing;
use crate::variant_cache::{
    PipelineVariants, ShaderVariants, cached_pipeline, cached_shader, with_appended, with_key,
};

verus! {

/// What shader resolution reads and changes: the cache of compiled shader variants,
/// the contents of the shader store, and the compile service.
pub struct ShaderState<C> {
    pub cache: Map<u128, ShaderVariants>,
    pub store: Map<u128, ShaderView>,
    pub service: C,
}

/// Whether resolving `source` for `specialization` in the state `pre` needs the compile
/// service: the store holds the shader, it is not a binary yet, and no variant has been
/// compiled for the specialization.
pub open spec fn needs_compiling<C>(
    pre: ShaderState<C>,
    source: ShaderHandle,
    specialization: Set<Seq<char>>,
) -> bool {
    &&& pre.store.contains_key(source.id)
    &&& !pre.store[source.id].is_binary()
    &&& cached_shader(pre.cache, source.id, specialization) is None
}

/// The compile service, asked in the state `before` to compile a shader of the value
/// `shader` with the defines `defines`, in that order, may answer `outcome`.
pub open spec fn service_answered<C: ShaderCompiler>(
    before: C,
    shader: ShaderView,
    defines: Seq<Seq<char>>,
    outcome: Result<Vec<u32>, CompileError>,
) -> bool {
    exists|service: &mut C, asked: Shader, shader_defs: Vec<String>|
        {
            &&& *service == before
            &&& asked@ == shader
            &&& texts(shader_defs@) == defines
            &&& #[trigger] call_ensures(
                C::compile_with_defines,
                (service, &asked, &shader_defs),
                outcome,
            )
        }
}

/// Resolving the shader `source` for the defines `defines`, which make the
/// specialization `specialization`, may take the state `pre` to `post` and give
/// `result`.
///
/// A shader that the store does not hold is an error. A binary stands for itself under
/// every specialization. A variant that the cache holds is reused. In these three cases
/// nothing changes, the compile service included: it is not asked. Else the service is
/// asked once, for the shader as the store holds it and the defines as `defines` lists
/// them, and is left in whatever state it leaves itself in. Where it
/// fails, its error is the result and neither the cache nor the store changes. Where it
/// succeeds, the binary that it answered enters the store, as a shader of the stage of
/// the source, under the handle that is the result, and that handle is appended to the
/// variants of `source`.
pub open spec fn shader_resolved<C: ShaderCompiler>(
    pre: ShaderState<C>,
    source: ShaderHandle,
    specialization: Set<Seq<char>>,
    defines: Seq<Seq<char>>,
    post: ShaderState<C>,
    result: Result<ShaderHandle, PipelineError>,
) -> bool {
    if !pre.store.contains_key(source.id) {
        post == pre && result == Err::<ShaderHandle, PipelineError>(
            PipelineError::ShaderNotFound(source),
        )
    } else if pre.store[source.id].is_binary() {
        post == pre && result == Ok::<ShaderHandle, PipelineError>(source)
    } else {
        match cached_shader(pre.cache, source.id, specialization) {
            Some(handle) => post == pre && result == Ok::<ShaderHandle, PipelineError>(handle),
            None => exists|outcome: Result<Vec<u32>, CompileError>|
                {
                    &&& #[trigger] service_answered(
                        pre.service,
                        pre.store[source.id],
                        defines,
                        outcome,
                    )
                    &&& compiled_stored(pre, source, specialization, outcome, post, result)
                },
        }
    }
}

/// What becomes of the answer `outcome` of the compile service: its error is the
/// result and neither the cache nor the store changes; or its binary enters the store,
/// as a shader of the stage of the source, under the handle that is the result, and
/// that handle is appended to the variants of `source`.
pub open spec fn compiled_stored<C>(
    pre: ShaderState<C>,
    source: ShaderHandle,
    specialization: Set<Seq<char>>,
    outcome: Result<Vec<u32>, CompileError>,
    post: ShaderState<C>,
    result: Result<ShaderHandle, PipelineError>,
) -> bool {
    match outcome {
        Ok(spirv) => {
            &&& result matches Ok(handle)
            &&& post.cache == with_appended(pre.cache, source.id, (specialization, handle))
            &&& post.store == pre.store.insert(
                handle.id,
                ShaderView {
                    source: ShaderSourceView::Spirv(spirv@),
                    stage: pre.store[source.id].stage,
                },
            )
        },
        Err(error) => {
            &&& result == Err::<ShaderHandle, PipelineError>(PipelineError::Compile(error))
            &&& post.cache == pre.cache
            &&& post.store == pre.store
        },
    }
}

/// Whether the buffer bound to `name` is dynamic: known where the draw call binds a
/// resource to the name and the registry describes that resource as a buffer.
pub open spec fn dynamic_flag<X: RenderResourceContext>(
    render_resource_assignments: &RenderResourceAssignments,
    render_resource_context: &X,
    name: Seq<char>,
) -> Option<bool> {
    match render_resource_assignments.resource_named(name) {
        Some(resource) => match render_resource_context.resource_info(resource) {
            Some(ResourceInfo::Buffer(info)) => Some(info.is_dynamic),
            _ => None,
        },
        None => None,
    }
}

/// For each binding name, whether the buffer bound to it is dynamic.
pub open spec fn dynamic_flags<X: RenderResourceContext>(
    render_resource_assignments: &RenderResourceAssignments,
    render_resource_context: &X,
) -> spec_fn(Seq<char>) -> Option<bool> {
    |name: Seq<char>| dynamic_flag(render_resource_assignments, render_resource_context, name)
}

/// `binding` with its dynamic mark set to what the flags say of its name. Only a
/// uniform binding carries the mark; a binding of whose name the flags say nothing
/// stays as it is.
pub open spec fn marked_binding(
    binding: BindingDescriptorView,
    flags: spec_fn(Seq<char>) -> Option<bool>,
) -> BindingDescriptorView {
    match (flags(binding.name), binding.bind_type) {
        (Some(is_dynamic), BindType::Uniform { dynamic, size }) => BindingDescriptorView {
            name: binding.name,
            index: binding.index,
            bind_type: BindType::Uniform { dynamic: is_dynamic, size },
        },
        _ => binding,
    }
}

/// `group` with each binding marked.
pub open spec fn marked_group(
    group: BindGroupDescriptorView,
    flags: spec_fn(Seq<char>) -> Option<bool>,
) -> BindGroupDescriptorView {
    BindGroupDescriptorView {
        index: group.index,
        bindings: group.bindings.map_values(
            |binding: BindingDescriptorView| marked_binding(binding, flags),
        ),
    }
}

/// Each group with each binding marked.
pub open spec fn marked_groups(
    groups: Seq<BindGroupDescriptorView>,
    flags: spec_fn(Seq<char>) -> Option<bool>,
) -> Seq<BindGroupDescriptorView> {
    groups.map_values(|group: BindGroupDescriptorView| marked_group(group, flags))
}

/// The layout of a pipeline whose stages reflect as `layouts`: the stage layouts
/// merged, the vertex buffers synchronized with `table`, and the bindings marked
/// dynamic as `flags` says.
pub open spec fn reflected_layout(
    layouts: Seq<ShaderLayoutView>,
    table: Seq<VertexBufferDescriptorView>,
    flags: spec_fn(Seq<char>) -> Option<bool>,
) -> PipelineLayoutView {
    PipelineLayoutView {
        bind_groups: marked_groups(merged_layout(layouts).bind_groups, flags),
        vertex_buffer_descriptors: synced_descriptors(
            merged_layout(layouts).vertex_buffer_descriptors,
            table,
        ),
    }
}

/// `descriptor` with the reflected layout `layout` attached.
pub open spec fn with_layout(
    descriptor: PipelineDescriptorView,
    layout: PipelineLayoutView,
) -> PipelineDescriptorView {
    PipelineDescriptorView {
        name: descriptor.name,
        layout: PipelineLayoutTypeView::Reflected(Some(layout)),
        shader_stages: descriptor.shader_stages,
        primitive_topology: descriptor.primitive_topology,
        index_format: descriptor.index_format,
        sample_count: descriptor.sample_count,
        sample_mask: descriptor.sample_mask,
        alpha_to_coverage_enabled: descriptor.alpha_to_coverage_enabled,
    }
}

/// The mathematical value of what the reflector answered.
pub open spec fn layout_view(layout: Option<ShaderLayout>) -> Option<ShaderLayoutView> {
    match layout {
        Some(layout) => Some(layout@),
        None => None,
    }
}

/// What the reflector may answer: for the words of a binary, a layout or nothing.
pub open spec fn reflector_answers<R: LayoutReflector>(reflector: &R) -> spec_fn(
    Seq<u32>,
    Option<ShaderLayoutView>,
) -> bool {
    |words: Seq<u32>, answer: Option<ShaderLayoutView>|
        exists|spirv: Vec<u32>, layout: Option<ShaderLayout>|
            {
                &&& spirv@ == words
                &&& layout_view(layout) == answer
                &&& #[trigger] call_ensures(R::reflect_layout, (reflector, &spirv), layout)
            }
}

/// Reflecting the shader under `handle` may give `answer`: for a binary, what the
/// reflector answers when it is handed the words of the binary; for source text,
/// nothing.
pub open spec fn stage_reflected(
    reflects: spec_fn(Seq<u32>, Option<ShaderLayoutView>) -> bool,
    store: Map<u128, ShaderView>,
    handle: ShaderHandle,
    answer: Option<ShaderLayoutView>,
) -> bool {
    match store[handle.id].source {
        ShaderSourceView::Spirv(words) => reflects(words, answer),
        ShaderSourceView::Glsl(_) => answer is None,
    }
}

/// What the compilation of a pipeline reads besides the shaders: the specialization
/// that the draw call asks for and the ascending listing of its defines, the table of vertex
/// buffer layouts, for each binding name whether the buffer bound to it is dynamic, and
/// what the reflector may answer.
pub struct CompileEnv {
    pub specialization: PipelineSpecializationView,
    pub defines: Seq<Seq<char>>,
    pub table: Seq<VertexBufferDescriptorView>,
    pub flags: spec_fn(Seq<char>) -> Option<bool>,
    pub reflects: spec_fn(Seq<u32>, Option<ShaderLayoutView>) -> bool,
}

/// What the compilation of a pipeline for the draw call of `render_resource_assignments`
/// reads besides the shaders.
pub open spec fn compile_env<R: LayoutReflector, X: RenderResourceContext>(
    vertex_buffer_descriptors: &VertexBufferDescriptors,
    reflector: &R,
    render_resource_context: &X,
    render_resource_assignments: &RenderResourceAssignments,
) -> CompileEnv {
    CompileEnv {
        specialization: render_resource_assignments.pipeline_specialization@,
        defines: listing(
            render_resource_assignments.pipeline_specialization.shader_specialization@,
        ),
        table: vertex_buffer_descriptors@,
        flags: dynamic_flags(render_resource_assignments, render_resource_context),
        reflects: reflector_answers(reflector),
    }
}

/// Reflecting the layout of a pipeline with the shaders `stages` may give `result`.
///
/// A shader that the store lacks is reported first, the vertex shader before the
/// fragment shader, and the reflector is not asked. Else the vertex shader is
/// reflected, then the fragment shader if there is one; the first shader off which no
/// layout is read ends the reflection with an error that names it. Where every stage
/// gave a layout, the result is the layout merged from these layouts, vertex stage
/// first, synchronized with the table and marked as the flags say.
pub open spec fn stages_reflected(
    env: CompileEnv,
    store: Map<u128, ShaderView>,
    stages: ShaderStages,
    result: Result<PipelineLayoutView, PipelineError>,
) -> bool {
    if !store.contains_key(stages.vertex.id) {
        result == Err::<PipelineLayoutView, PipelineError>(
            PipelineError::ShaderNotFound(stages.vertex),
        )
    } else if stages.fragment matches Some(fragment) && !store.contains_key(fragment.id) {
        result == Err::<PipelineLayoutView, PipelineError>(
            PipelineError::ShaderNotFound(stages.fragment->0),
        )
    } else {
        exists|vertex_answer: Option<ShaderLayoutView>|
            {
                &&& #[trigger] stage_reflected(env.reflects, store, stages.vertex, vertex_answer)
                &&& match vertex_answer {
                    Some(vertex_layout) => fragment_reflected(
                        env,
                        store,
                        stages,
                        vertex_layout,
                        result,
                    ),
                    None => result == Err::<PipelineLayoutView, PipelineError>(
                        PipelineError::Reflection(stages.vertex),
                    ),
                }
            }
    }
}

/// After the vertex stage reflected as `vertex_layout`, reflecting the rest of the
/// pipeline may give `result`.
pub open spec fn fragment_reflected(
    env: CompileEnv,
    store: Map<u128, ShaderView>,
    stages: ShaderStages,
    vertex_layout: ShaderLayoutView,
    result: Result<PipelineLayoutView, PipelineError>,
) -> bool {
    match stages.fragment {
        None => result == Ok::<PipelineLayoutView, PipelineError>(
            reflected_layout(seq![vertex_layout], env.table, env.flags),
        ),
        Some(fragment) => exists|fragment_answer: Option<ShaderLayoutView>|
            {
                &&& #[trigger] stage_reflected(env.reflects, store, fragment, fragment_answer)
                &&& match fragment_answer {
                    Some(fragment_layout) => result == Ok::<PipelineLayoutView, PipelineError>(
                        reflected_layout(
                            seq![vertex_layout, fragment_layout],
                            env.table,
                            env.flags,
                        ),
                    ),
                    None => result == Err::<PipelineLayoutView, PipelineError>(
                        PipelineError::Reflection(fragment),
                    ),
                }
            },
    }
}

/// The variant of `source` with the resolved shaders `stages` and the reflected layout
/// `layout`: a copy of `source` in which the shaders, the layout and the topology are
/// overridden, and nothing else.
pub open spec fn compiled_descriptor(
    source: PipelineDescriptorView,
    env: CompileEnv,
    stages: ShaderStages,
    layout: PipelineLayoutView,
) -> PipelineDescriptorView {
    PipelineDescriptorView {
        name: source.name,
        layout: PipelineLayoutTypeView::Reflected(Some(layout)),
        shader_stages: stages,
        primitive_topology: env.specialization.primitive_topology,
        index_format: source.index_format,
        sample_count: source.sample_count,
        sample_mask: source.sample_mask,
        alpha_to_coverage_enabled: source.alpha_to_coverage_enabled,
    }
}

/// Once the shaders of `source` have resolved to `stages`, finishing the variant may
/// give `result`: the layout is reflected from the resolved shaders as the store holds
/// them; its error is the result, or the result is the compiled descriptor with the
/// reflected layout.
pub open spec fn stages_compiled(
    source: PipelineDescriptorView,
    env: CompileEnv,
    store: Map<u128, ShaderView>,
    stages: ShaderStages,
    result: Result<PipelineDescriptorView, PipelineError>,
) -> bool {
    exists|reflected: Result<PipelineLayoutView, PipelineError>|
        {
            &&& #[trigger] stages_reflected(env, store, stages, reflected)
            &&& result == match reflected {
                Ok(layout) => Ok::<PipelineDescriptorView, PipelineError>(
                    compiled_descriptor(source, env, stages, layout),
                ),
                Err(error) => Err::<PipelineDescriptorView, PipelineError>(error),
            }
        }
}

/// After the vertex shader of `source` resolved to `vertex` in the state `mid`,
/// compiling the rest of the variant may lead to the state `post` and give `result`.
pub open spec fn fragment_compiled<C: ShaderCompiler>(
    mid: ShaderState<C>,
    source: PipelineDescriptorView,
    env: CompileEnv,
    vertex: ShaderHandle,
    post: ShaderState<C>,
    result: Result<PipelineDescriptorView, PipelineError>,
) -> bool {
    match source.shader_stages.fragment {
        None => post == mid && stages_compiled(
            source,
            env,
            post.store,
            ShaderStages { vertex, fragment: None },
            result,
        ),
        Some(fragment) => exists|resolved: Result<ShaderHandle, PipelineError>|
            {
                &&& #[trigger] shader_resolved(
                    mid,
                    fragment,
                    env.specialization.shader_defs,
                    env.defines,
                    post,
                    resolved,
                )
                &&& match resolved {
                    Ok(handle) => stages_compiled(
                        source,
                        env,
                        post.store,
                        ShaderStages { vertex, fragment: Some(handle) },
                        result,
                    ),
                    Err(error) => result == Err::<PipelineDescriptorView, PipelineError>(error),
                }
            },
    }
}

/// Compiling the variant of the pipeline `source` for `env` may take the shader state
/// `pre` to `post` and give `result`.
///
/// The vertex shader is resolved, then the fragment shader if there is one, each for
/// the defines of the specialization; then the layout is reflected. The first failure
/// ends the compilation with its error; shader variants compiled before it stay.
pub open spec fn pipeline_compiled<C: ShaderCompiler>(
    pre: ShaderState<C>,
    source: PipelineDescriptorView,
    env: CompileEnv,
    post: ShaderState<C>,
    result: Result<PipelineDescriptorView, PipelineError>,
) -> bool {
    exists|mid: ShaderState<C>, vertex: Result<ShaderHandle, PipelineError>|
        {
            &&& #[trigger] shader_resolved(
                pre,
                source.shader_stages.vertex,
                env.specialization.shader_defs,
                env.defines,
                mid,
                vertex,
            )
            &&& match vertex {
                Ok(handle) => fragment_compiled(mid, source, env, handle, post, result),
                Err(error) => post == mid && result == Err::<
                    PipelineDescriptorView,
                    PipelineError,
                >(error),
            }
        }
}

/// The mathematical value of what compiling a pipeline gave.
pub open spec fn descriptor_result(result: Result<PipelineDescriptor, PipelineError>) -> Result<
    PipelineDescriptorView,
    PipelineError,
> {
    match result {
        Ok(descriptor) => Ok(descriptor@),
        Err(error) => Err(error),
    }
}

/// What pipeline resolution reads and changes: the shader state, the cache of
/// compiled pipeline variants and the contents of the pipeline store.
pub struct CompilerState<C> {
    pub shaders: ShaderState<C>,
    pub pipelines: Map<u128, PipelineVariants>,
    pub pipeline_store: Map<u128, PipelineDescriptorView>,
}

/// Resolving the pipeline `source` for `env` may take the state `pre` to `post` and
/// give `result`.
///
/// A variant that the cache holds for the specialization is reused: nothing changes,
/// and neither the compile service nor the reflector is asked. Else the cache comes to
/// know the source, and the variant is compiled from
/// the descriptor in the store: a pipeline that the store does not hold is an error;
/// where compilation fails, its error is the result; where it succeeds, the compiled
/// descriptor enters the store under the handle that is the result, and that handle is
/// appended to the variants of `source`.
pub open spec fn pipeline_resolved<C: ShaderCompiler>(
    pre: CompilerState<C>,
    source: PipelineHandle,
    env: CompileEnv,
    post: CompilerState<C>,
    result: Result<PipelineHandle, PipelineError>,
) -> bool {
    match cached_pipeline(pre.pipelines, source.id, env.specialization) {
        Some(handle) => post == pre && result == Ok::<PipelineHandle, PipelineError>(handle),
        None => if !pre.pipeline_store.contains_key(source.id) {
            &&& post.shaders == pre.shaders
            &&& post.pipeline_store == pre.pipeline_store
            &&& post.pipelines == with_key(pre.pipelines, source.id)
            &&& result == Err::<PipelineHandle, PipelineError>(
                PipelineError::PipelineNotFound(source),
            )
        } else {
            exists|compiled: Result<PipelineDescriptorView, PipelineError>|
                {
                    &&& #[trigger] pipeline_compiled(
                        pre.shaders,
                        pre.pipeline_store[source.id],
                        env,
                        post.shaders,
                        compiled,
                    )
                    &&& match compiled {
                        Ok(descriptor) => {
                            &&& result matches Ok(handle)
                            &&& post.pipeline_store == pre.pipeline_store.insert(
                                handle.id,
                                descriptor,
                            )
                            &&& post.pipelines == with_appended(
                                pre.pipelines,
                                source.id,
                                (env.specialization, handle),
                            )
                        },
                        Err(error) => {
                            &&& result == Err::<PipelineHandle, PipelineError>(error)
                            &&& post.pipeline_store == pre.pipeline_store
                            &&& post.pipelines == with_key(pre.pipelines, source.id)
                        },
                    }
                }
        },
    }
}

} // verus!
