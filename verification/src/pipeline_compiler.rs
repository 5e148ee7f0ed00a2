//! The caches of compiled shader and pipeline variants, and the per-frame pass that
//! resolves the pipelines of every draw call.

use std::collections::HashMap;
use vstd::prelude::*;
use vstd::std_specs::iter::IteratorSpec;
use crate::asset_store::{
    PipelineStore, ShaderStore, add_pipeline, add_shader, get_pipeline, get_shader,
    pipeline_assets, shader_assets,
};
use crate::error::PipelineError;
use crate::frame::{
    AssignmentTable, DrawOutcome, DrawRequest, FrameState, draw_requests, draw_resolved,
    draws_resolved, frame_requests, lemma_pass_concat, lemma_pass_empty, lemma_pass_table,
    pass_resolved, passed_over, renderable_requests, table_from_frame, table_of, table_with,
};
use crate::handle::{PipelineHandle, ShaderHandle};
use crate::layout::{
    BindGroupDescriptor, BindType, PipelineLayout, PipelineLayoutView, ShaderLayout,
    ShaderLayoutView, VertexBufferDescriptors, views,
};
use crate::pipeline::{
    PipelineDescriptor, PipelineDescriptorView, PipelineLayoutType, ShaderStages,
};
use crate::render_resource::{
    RenderResourceAssignments, RenderResourceAssignmentsId, RenderResourceContext, Renderable,
    ResourceInfo,
};
use crate::resolution::{
    CompilerState, ShaderState, compile_env, compiled_stored,
    descriptor_result, dynamic_flags, fragment_compiled, fragment_reflected, layout_view,
    marked_binding, marked_group, marked_groups, needs_compiling, pipeline_compiled,
    pipeline_resolved, reflected_layout, reflector_answers, service_answered, shader_resolved,
    stage_reflected, stages_compiled, stages_reflected, with_layout,
};
use crate::search::{lemma_first_match_is, lemma_first_match_none};
use crate::shader::{
    CompileError, LayoutReflector, Shader, ShaderCompiler, ShaderSource, ShaderSourceView,
    ShaderStage, ShaderView,
};
use crate::soundness::{
    all_cached, lemma_cached_pass_changes_only_the_table, lemma_frame_isolation, lemma_pass_keeps,
    lemma_resolution_keeps, lemma_shader_resolution_keeps,
};
use crate::text_order::{ascending, lemma_ascending_no_duplicates, lemma_listing, listing};
use crate::specialization::{
    PipelineSpecialization, PipelineSpecializationView, ShaderSpecialization, texts,
};
use crate::variant_cache::{
    PipelineVariants, ShaderVariants, cached_pipeline, cached_shader, grown_from, handles_in_order,
    listed, one_variant_each, variant_handles, variant_of, variants_kept, with_appended, with_key,
};

verus! {

broadcast use vstd::std_specs::hash::group_hash_axioms;

/// The variants of one source shader as they are stored.
pub open spec fn shader_variants(list: Seq<(ShaderSpecialization, ShaderHandle)>) -> ShaderVariants {
    list.map_values(|variant: (ShaderSpecialization, ShaderHandle)| (variant.0@, variant.1))
}

/// The variants of one source pipeline as they are stored.
pub open spec fn pipeline_variants(
    list: Seq<(PipelineSpecialization, PipelineHandle)>,
) -> PipelineVariants {
    list.map_values(|variant: (PipelineSpecialization, PipelineHandle)| (variant.0@, variant.1))
}

/// What `Shader::reflect_layout` gave for the shader that the store holds under `handle`
/// is an answer of the reflector in the sense of the model.
proof fn lemma_stage_reflected<R: LayoutReflector>(
    reflector: &R,
    shader: Shader,
    store: Map<u128, ShaderView>,
    handle: ShaderHandle,
    answer: Option<ShaderLayout>,
)
    requires
        store[handle.id] == shader@,
        match shader.source {
            ShaderSource::Spirv(spirv) => call_ensures(
                R::reflect_layout,
                (reflector, &spirv),
                answer,
            ),
            ShaderSource::Glsl(_) => answer is None,
        },
    ensures
        stage_reflected(reflector_answers(reflector), store, handle, layout_view(answer)),
{
}

/// Sets the dynamic mark of each uniform binding of `group` whose name the draw call
/// binds to a buffer, to whether that buffer is dynamic.
pub fn mark_dynamic_bindings<X: RenderResourceContext>(
    group: &mut BindGroupDescriptor,
    render_resource_context: &X,
    render_resource_assignments: &RenderResourceAssignments,
)
    ensures
        final(group)@ == marked_group(
            old(group)@,
            dynamic_flags(render_resource_assignments, render_resource_context),
        ),
{
    let ghost flags = dynamic_flags(render_resource_assignments, render_resource_context);
    let mut i: usize = 0;
    while i < group.bindings.len()
        invariant
            i <= group.bindings.len(),
            group.bindings.len() == old(group).bindings.len(),
            group.index == old(group).index,
            flags == dynamic_flags(render_resource_assignments, render_resource_context),
            forall|k: int|
                0 <= k < i ==> (#[trigger] group.bindings[k])@ == marked_binding(
                    old(group).bindings[k]@,
                    flags,
                ),
            forall|k: int|
                i <= k < group.bindings.len() ==> (#[trigger] group.bindings[k])@ == old(
                    group,
                ).bindings[k]@,
        decreases group.bindings.len() - i,
    {
        if let Some(render_resource) = render_resource_assignments.get(&group.bindings[i].name) {
            if let Some(ResourceInfo::Buffer(info)) = render_resource_context.get_resource_info(
                render_resource,
            ) {
                if let BindType::Uniform { dynamic: _, size } = group.bindings[i].bind_type {
                    group.bindings[i].bind_type =
                    BindType::Uniform { dynamic: info.is_dynamic, size };
                }
            }
        }
        i += 1;
    }
    assert(group@.bindings =~= marked_group(old(group)@, flags).bindings);
}

/// The table of a frame: which draw calls are drawn with which compiled pipeline.
pub struct PipelineAssignments {
    pub assignments: HashMap<u128, Vec<RenderResourceAssignmentsId>>,
}

impl View for PipelineAssignments {
    type V = AssignmentTable;

    open spec fn view(&self) -> AssignmentTable {
        Map::new(
            |pipeline: u128| self.assignments@.contains_key(pipeline),
            |pipeline: u128| self.assignments@[pipeline]@,
        )
    }
}

impl PipelineAssignments {
    /// The empty table.
    pub fn new() -> (table: PipelineAssignments)
        ensures
            table@ == Map::<u128, Seq<RenderResourceAssignmentsId>>::empty(),
    {
        let table = PipelineAssignments { assignments: HashMap::new() };
        assert(table@ =~= Map::<u128, Seq<RenderResourceAssignmentsId>>::empty());
        table
    }

    /// Discards every assignment.
    pub fn reset(&mut self)
        ensures
            final(self)@ == Map::<u128, Seq<RenderResourceAssignmentsId>>::empty(),
    {
        self.assignments = HashMap::new();
        assert(self@ =~= Map::<u128, Seq<RenderResourceAssignmentsId>>::empty());
    }

    /// Appends the draw call `id` to the list of the compiled pipeline `pipeline`.
    pub fn assign(&mut self, pipeline: PipelineHandle, id: RenderResourceAssignmentsId)
        ensures
            final(self)@ == with_appended(old(self)@, pipeline.id, id),
    {
        let assignments = self.assignments.entry(pipeline.id).or_insert(Vec::new());
        assignments.push(id);
        proof {
            let expected = with_appended(old(self)@, pipeline.id, id);
            assert(self@.dom() =~= expected.dom());
            assert forall|key: u128| self@.contains_key(key) implies (#[trigger] self@[key])
                == expected[key] by {
                if key == pipeline.id {
                    assert(self@[key] =~= expected[key]);
                }
            }
            assert(self@ =~= expected);
        }
    }

    /// The draw calls that are drawn with the compiled pipeline `pipeline`, in the
    /// order in which they were assigned; nothing where none is.
    pub fn get(&self, pipeline: PipelineHandle) -> (assigned: Option<
        &Vec<RenderResourceAssignmentsId>,
    >)
        ensures
            match assigned {
                Some(list) => self@.contains_key(pipeline.id) && list@ == self@[pipeline.id],
                None => !self@.contains_key(pipeline.id),
            },
    {
        self.assignments.get(&pipeline.id)
    }
}

/// The caches of compiled variants: for each source shader and each source pipeline,
/// by the identifier of its handle, the variants compiled from it so far.
pub struct PipelineCompiler {
    pub shader_source_to_compiled: HashMap<u128, Vec<(ShaderSpecialization, ShaderHandle)>>,
    pub pipeline_source_to_compiled: HashMap<u128, Vec<(PipelineSpecialization, PipelineHandle)>>,
}

impl PipelineCompiler {
    /// The cache of shader variants.
    pub open spec fn shader_cache(&self) -> Map<u128, ShaderVariants> {
        Map::new(
            |source: u128| self.shader_source_to_compiled@.contains_key(source),
            |source: u128| shader_variants(self.shader_source_to_compiled@[source]@),
        )
    }

    /// The cache of pipeline variants.
    pub open spec fn pipeline_cache(&self) -> Map<u128, PipelineVariants> {
        Map::new(
            |source: u128| self.pipeline_source_to_compiled@.contains_key(source),
            |source: u128| pipeline_variants(self.pipeline_source_to_compiled@[source]@),
        )
    }

    /// What shader resolution reads and changes.
    pub open spec fn shader_state<C>(
        &self,
        shader_storage: &ShaderStore,
        compiler: C,
    ) -> ShaderState<C> {
        ShaderState {
            cache: self.shader_cache(),
            store: shader_assets(*shader_storage),
            service: compiler,
        }
    }

    /// What pipeline resolution reads and changes.
    pub open spec fn state<C>(
        &self,
        shader_storage: &ShaderStore,
        pipeline_storage: &PipelineStore,
        compiler: C,
    ) -> CompilerState<C> {
        CompilerState {
            shaders: self.shader_state(shader_storage, compiler),
            pipelines: self.pipeline_cache(),
            pipeline_store: pipeline_assets(*pipeline_storage),
        }
    }

    /// Empty caches.
    pub fn new() -> (compiler: PipelineCompiler)
        ensures
            compiler.shader_cache() == Map::<u128, ShaderVariants>::empty(),
            compiler.pipeline_cache() == Map::<u128, PipelineVariants>::empty(),
            one_variant_each(compiler.shader_cache()),
            one_variant_each(compiler.pipeline_cache()),
    {
        let compiler = PipelineCompiler {
            shader_source_to_compiled: HashMap::new(),
            pipeline_source_to_compiled: HashMap::new(),
        };
        assert(compiler.shader_cache() =~= Map::<u128, ShaderVariants>::empty());
        assert(compiler.pipeline_cache() =~= Map::<u128, PipelineVariants>::empty());
        compiler
    }

    /// The handle of the variant of `shader_handle` that was compiled for
    /// `shader_specialization`, if one was.
    pub fn find_compiled_shader(
        &self,
        shader_handle: ShaderHandle,
        shader_specialization: &ShaderSpecialization,
    ) -> (found: Option<ShaderHandle>)
        ensures
            found == cached_shader(self.shader_cache(), shader_handle.id, shader_specialization@),
    {
        let ghost wanted = variant_of::<Set<Seq<char>>, ShaderHandle>(shader_specialization@);
        let ghost variants = listed(self.shader_cache(), shader_handle.id);
        match self.shader_source_to_compiled.get(&shader_handle.id) {
            Some(compiled_shaders) => {
                let mut i: usize = 0;
                while i < compiled_shaders.len()
                    invariant
                        i <= compiled_shaders.len(),
                        variants == shader_variants(compiled_shaders@),
                        variants == listed(self.shader_cache(), shader_handle.id),
                        wanted == variant_of::<Set<Seq<char>>, ShaderHandle>(shader_specialization@),
                        forall|k: int| 0 <= k < i ==> !wanted(#[trigger] variants[k]),
                    decreases compiled_shaders.len() - i,
                {
                    if compiled_shaders[i].0 == *shader_specialization {
                        proof {
                            assert(wanted(variants[i as int]));
                            lemma_first_match_is(variants, wanted, i as int);
                        }
                        return Some(compiled_shaders[i].1);
                    }
                    i += 1;
                }
                proof {
                    lemma_first_match_none(variants, wanted);
                }
                None
            },
            None => {
                proof {
                    lemma_first_match_none(variants, wanted);
                }
                None
            },
        }
    }

    /// Appends the variant `compiled_handle` of `shader_handle`, compiled for
    /// `shader_specialization`, to the cache of shader variants.
    pub fn record_compiled_shader(
        &mut self,
        shader_handle: ShaderHandle,
        shader_specialization: &ShaderSpecialization,
        compiled_handle: ShaderHandle,
    )
        ensures
            final(self).shader_cache() == with_appended(
                old(self).shader_cache(),
                shader_handle.id,
                (shader_specialization@, compiled_handle),
            ),
            final(self).pipeline_cache() == old(self).pipeline_cache(),
    {
        let compiled_shaders = self.shader_source_to_compiled.entry(shader_handle.id).or_insert(
            Vec::new(),
        );
        compiled_shaders.push((shader_specialization.clone(), compiled_handle));
        proof {
            let expected = with_appended(
                old(self).shader_cache(),
                shader_handle.id,
                (shader_specialization@, compiled_handle),
            );
            assert(self.shader_cache().dom() =~= expected.dom());
            assert forall|source: u128| self.shader_cache().contains_key(source) implies (
            #[trigger] self.shader_cache()[source]) == expected[source] by {
                if source == shader_handle.id {
                    assert(self.shader_cache()[source] =~= expected[source]);
                }
            }
            assert(self.shader_cache() =~= expected);
        }
    }

    /// Stores the binary `spirv`, compiled from the shader `shader_handle` for
    /// `shader_specialization`, as a shader of the stage `stage`, and appends it to the
    /// variants of `shader_handle`.
    pub fn store_compiled_shader(
        &mut self,
        shader_storage: &mut ShaderStore,
        shader_handle: ShaderHandle,
        shader_specialization: &ShaderSpecialization,
        stage: ShaderStage,
        spirv: Vec<u32>,
    ) -> (compiled_handle: ShaderHandle)
        ensures
            shader_assets(*final(shader_storage)) == shader_assets(*old(shader_storage)).insert(
                compiled_handle.id,
                ShaderView { source: ShaderSourceView::Spirv(spirv@), stage },
            ),
            final(self).shader_cache() == with_appended(
                old(self).shader_cache(),
                shader_handle.id,
                (shader_specialization@, compiled_handle),
            ),
            final(self).pipeline_cache() == old(self).pipeline_cache(),
    {
        let compiled_shader = Shader::from_spirv(stage, spirv);
        let compiled_handle = add_shader(shader_storage, compiled_shader);
        self.record_compiled_shader(shader_handle, shader_specialization, compiled_handle);
        compiled_handle
    }

    /// Resolves the shader `shader_handle` for `shader_specialization`: the shader
    /// itself where it is a binary already, else its variant compiled for the
    /// specialization, which is compiled and stored first where the cache does not
    /// hold it yet. The compile service is asked once where a variant has to be
    /// compiled, for the shader and the ascending listing of the defines, which is the
    /// same for every specialization that holds these defines, and is left alone
    /// otherwise.
    pub fn compile_shader<C: ShaderCompiler>(
        &mut self,
        compiler: &mut C,
        shader_storage: &mut ShaderStore,
        shader_handle: ShaderHandle,
        shader_specialization: &ShaderSpecialization,
    ) -> (result: Result<ShaderHandle, PipelineError>)
        ensures
            shader_resolved(
                old(self).shader_state(old(shader_storage), *old(compiler)),
                shader_handle,
                shader_specialization@,
                shader_specialization.defines(),
                final(self).shader_state(final(shader_storage), *final(compiler)),
                result,
            ),
            shader_specialization.defines() == listing(shader_specialization@),
            ascending(listing(shader_specialization@)),
            listing(shader_specialization@).no_duplicates(),
            listing(shader_specialization@).to_set() == shader_specialization@,
            needs_compiling(
                old(self).shader_state(old(shader_storage), *old(compiler)),
                shader_handle,
                shader_specialization@,
            ) ==> exists|
                service: &mut C,
                asked: Shader,
                shader_defs: Vec<String>,
                outcome: Result<Vec<u32>, CompileError>,
            |
                {
                    &&& *service == *old(compiler)
                    &&& *final(service) == *final(compiler)
                    &&& asked@ == shader_assets(*old(shader_storage))[shader_handle.id]
                    &&& texts(shader_defs@) == listing(shader_specialization@)
                    &&& #[trigger] call_ensures(
                        C::compile_with_defines,
                        (service, &asked, &shader_defs),
                        outcome,
                    )
                    &&& compiled_stored(
                        old(self).shader_state(old(shader_storage), *old(compiler)),
                        shader_handle,
                        shader_specialization@,
                        outcome,
                        final(self).shader_state(final(shader_storage), *final(compiler)),
                        result,
                    )
                },
            final(self).pipeline_cache() == old(self).pipeline_cache(),
            !needs_compiling(
                old(self).shader_state(old(shader_storage), *old(compiler)),
                shader_handle,
                shader_specialization@,
            ) ==> *final(compiler) == *old(compiler),
            variants_kept(old(self).shader_cache(), final(self).shader_cache()),
            grown_from(old(self).shader_cache(), final(self).shader_cache()),
            one_variant_each(old(self).shader_cache()) ==> one_variant_each(
                final(self).shader_cache(),
            ),
    {
        let result = self.resolve_shader_variant(
            compiler,
            shader_storage,
            shader_handle,
            shader_specialization,
        );
        proof {
            use_type_invariant(shader_specialization);
            lemma_listing(shader_specialization.defines());
            lemma_ascending_no_duplicates(shader_specialization.defines());
            lemma_shader_resolution_keeps(
                old(self).shader_state(old(shader_storage), *old(compiler)),
                shader_handle,
                shader_specialization@,
                shader_specialization.defines(),
                self.shader_state(shader_storage, *compiler),
                result,
            );
        }
        result
    }

    /// The steps of [`PipelineCompiler::compile_shader`].
    fn resolve_shader_variant<C: ShaderCompiler>(
        &mut self,
        compiler: &mut C,
        shader_storage: &mut ShaderStore,
        shader_handle: ShaderHandle,
        shader_specialization: &ShaderSpecialization,
    ) -> (result: Result<ShaderHandle, PipelineError>)
        ensures
            shader_resolved(
                old(self).shader_state(old(shader_storage), *old(compiler)),
                shader_handle,
                shader_specialization@,
                shader_specialization.defines(),
                final(self).shader_state(final(shader_storage), *final(compiler)),
                result,
            ),
            needs_compiling(
                old(self).shader_state(old(shader_storage), *old(compiler)),
                shader_handle,
                shader_specialization@,
            ) ==> exists|
                service: &mut C,
                asked: Shader,
                shader_defs: Vec<String>,
                outcome: Result<Vec<u32>, CompileError>,
            |
                {
                    &&& *service == *old(compiler)
                    &&& *final(service) == *final(compiler)
                    &&& asked@ == shader_assets(*old(shader_storage))[shader_handle.id]
                    &&& texts(shader_defs@) == listing(shader_specialization@)
                    &&& #[trigger] call_ensures(
                        C::compile_with_defines,
                        (service, &asked, &shader_defs),
                        outcome,
                    )
                    &&& compiled_stored(
                        old(self).shader_state(old(shader_storage), *old(compiler)),
                        shader_handle,
                        shader_specialization@,
                        outcome,
                        final(self).shader_state(final(shader_storage), *final(compiler)),
                        result,
                    )
                },
            final(self).pipeline_cache() == old(self).pipeline_cache(),
    {
        let shader = match get_shader(shader_storage, shader_handle) {
            Some(shader) => shader,
            None => {
                return Err(PipelineError::ShaderNotFound(shader_handle));
            },
        };
        if shader.is_binary() {
            return Ok(shader_handle);
        }
        match self.find_compiled_shader(shader_handle, shader_specialization) {
            Some(compiled_handle) => Ok(compiled_handle),
            None => {
                let ghost pre = self.shader_state(shader_storage, *compiler);
                let shader_defs = shader_specialization.define_list();
                let outcome = compiler.compile_with_defines(shader, &shader_defs);
                let ghost answered = outcome;
                proof {
                    assert(service_answered(
                        pre.service,
                        pre.store[shader_handle.id],
                        shader_specialization.defines(),
                        answered,
                    ));
                }
                let result = match outcome {
                    Ok(spirv) => {
                        let stage = shader.stage;
                        Ok(
                            self.store_compiled_shader(
                                shader_storage,
                                shader_handle,
                                shader_specialization,
                                stage,
                                spirv,
                            ),
                        )
                    },
                    Err(error) => Err(PipelineError::Compile(error)),
                };
                proof {
                    assert(compiled_stored(
                        pre,
                        shader_handle,
                        shader_specialization@,
                        answered,
                        self.shader_state(shader_storage, *compiler),
                        result,
                    ));
                }
                result
            },
        }
    }

    /// The layout of a pipeline from the layouts that its stages reflected as: the
    /// stage layouts merged, the vertex buffers synchronized with the table, and each
    /// uniform binding marked dynamic where the draw call binds a dynamic buffer to its
    /// name.
    pub fn layout_from_reflection<X: RenderResourceContext>(
        shader_layouts: &Vec<ShaderLayout>,
        vertex_buffer_descriptors: &VertexBufferDescriptors,
        render_resource_context: &X,
        render_resource_assignments: &RenderResourceAssignments,
    ) -> (layout: PipelineLayout)
        ensures
            layout@ == reflected_layout(
                views(shader_layouts@),
                vertex_buffer_descriptors@,
                dynamic_flags(render_resource_assignments, render_resource_context),
            ),
    {
        let ghost flags = dynamic_flags(render_resource_assignments, render_resource_context);
        let mut layout = PipelineLayout::from_shader_layouts(shader_layouts);
        layout.sync_vertex_buffer_descriptors(vertex_buffer_descriptors);
        let ghost synced = layout@;
        let mut i: usize = 0;
        while i < layout.bind_groups.len()
            invariant
                i <= layout.bind_groups.len(),
                layout.bind_groups.len() == synced.bind_groups.len(),
                layout@.vertex_buffer_descriptors == synced.vertex_buffer_descriptors,
                flags == dynamic_flags(render_resource_assignments, render_resource_context),
                forall|k: int|
                    0 <= k < i ==> (#[trigger] layout.bind_groups[k])@ == marked_group(
                        synced.bind_groups[k],
                        flags,
                    ),
                forall|k: int|
                    i <= k < layout.bind_groups.len() ==> (#[trigger] layout.bind_groups[k])@
                        == synced.bind_groups[k],
            decreases layout.bind_groups.len() - i,
        {
            mark_dynamic_bindings(
                &mut layout.bind_groups[i],
                render_resource_context,
                render_resource_assignments,
            );
            i += 1;
        }
        assert(layout@.bind_groups =~= marked_groups(synced.bind_groups, flags));
        layout
    }

    /// Reflects the layout of the shaders of `pipeline_descriptor` and attaches it.
    /// Where a shader is missing from the store, or no layout can be read off one, the
    /// descriptor stays as it was.
    pub fn reflect_layout<R: LayoutReflector, X: RenderResourceContext>(
        shader_storage: &ShaderStore,
        vertex_buffer_descriptors: &VertexBufferDescriptors,
        pipeline_descriptor: &mut PipelineDescriptor,
        reflector: &R,
        render_resource_context: &X,
        render_resource_assignments: &RenderResourceAssignments,
    ) -> (result: Result<(), PipelineError>)
        ensures
            exists|reflected: Result<PipelineLayoutView, PipelineError>|
                {
                    &&& #[trigger] stages_reflected(
                        compile_env(
                            vertex_buffer_descriptors,
                            reflector,
                            render_resource_context,
                            render_resource_assignments,
                        ),
                        shader_assets(*shader_storage),
                        old(pipeline_descriptor).shader_stages,
                        reflected,
                    )
                    &&& match reflected {
                        Ok(layout) => result is Ok && final(pipeline_descriptor)@ == with_layout(
                            old(pipeline_descriptor)@,
                            layout,
                        ),
                        Err(error) => {
                            &&& result == Err::<(), PipelineError>(error)
                            &&& final(pipeline_descriptor)@ == old(pipeline_descriptor)@
                        },
                    }
                },
    {
        let ghost env = compile_env(
            vertex_buffer_descriptors,
            reflector,
            render_resource_context,
            render_resource_assignments,
        );
        let ghost store = shader_assets(*shader_storage);
        let ghost stages = pipeline_descriptor.shader_stages;
        let vertex = pipeline_descriptor.shader_stages.vertex;
        let vertex_spirv = match get_shader(shader_storage, vertex) {
            Some(shader) => shader,
            None => {
                proof {
                    assert(stages_reflected(
                        env,
                        store,
                        stages,
                        Err(PipelineError::ShaderNotFound(vertex)),
                    ));
                }
                return Err(PipelineError::ShaderNotFound(vertex));
            },
        };
        let fragment_spirv = match pipeline_descriptor.shader_stages.fragment {
            Some(fragment) => match get_shader(shader_storage, fragment) {
                Some(shader) => Some((fragment, shader)),
                None => {
                    proof {
                        assert(stages_reflected(
                            env,
                            store,
                            stages,
                            Err(PipelineError::ShaderNotFound(fragment)),
                        ));
                    }
                    return Err(PipelineError::ShaderNotFound(fragment));
                },
            },
            None => None,
        };
        let mut layouts: Vec<ShaderLayout> = Vec::new();
        let vertex_answer = vertex_spirv.reflect_layout(reflector);
        proof {
            lemma_stage_reflected(reflector, *vertex_spirv, store, vertex, vertex_answer);
        }
        match vertex_answer {
            Some(layout) => {
                layouts.push(layout);
            },
            None => {
                proof {
                    assert(stage_reflected(
                        env.reflects,
                        store,
                        stages.vertex,
                        None::<ShaderLayoutView>,
                    ));
                    assert(stages_reflected(
                        env,
                        store,
                        stages,
                        Err(PipelineError::Reflection(vertex)),
                    ));
                }
                return Err(PipelineError::Reflection(vertex));
            },
        }
        let ghost vertex_layout = layouts@[0]@;
        proof {
            assert(stage_reflected(env.reflects, store, stages.vertex, Some(vertex_layout)));
        }
        if let Some((fragment, shader)) = fragment_spirv {
            let fragment_answer = shader.reflect_layout(reflector);
            proof {
                lemma_stage_reflected(reflector, *shader, store, fragment, fragment_answer);
            }
            match fragment_answer {
                Some(layout) => {
                    layouts.push(layout);
                    proof {
                        assert(stage_reflected(
                            env.reflects,
                            store,
                            fragment,
                            Some(layouts@[1]@),
                        ));
                    }
                },
                None => {
                    proof {
                        let failed = Err::<PipelineLayoutView, PipelineError>(
                            PipelineError::Reflection(fragment),
                        );
                        assert(stage_reflected(
                            env.reflects,
                            store,
                            fragment,
                            None::<ShaderLayoutView>,
                        ));
                        assert(fragment_reflected(env, store, stages, vertex_layout, failed));
                        assert(stages_reflected(env, store, stages, failed));
                    }
                    return Err(PipelineError::Reflection(fragment));
                },
            }
        }
        let layout = Self::layout_from_reflection(
            &layouts,
            vertex_buffer_descriptors,
            render_resource_context,
            render_resource_assignments,
        );
        proof {
            let reflected = Ok::<PipelineLayoutView, PipelineError>(layout@);
            if stages.fragment is Some {
                assert(views(layouts@) =~= seq![vertex_layout, layouts@[1]@]);
            } else {
                assert(views(layouts@) =~= seq![vertex_layout]);
            }
            assert(fragment_reflected(env, store, stages, vertex_layout, reflected));
            assert(stages_reflected(env, store, stages, reflected));
        }
        pipeline_descriptor.layout = PipelineLayoutType::Reflected(Some(layout));
        Ok(())
    }

    /// Compiles the variant of `pipeline_descriptor` that the draw call of
    /// `render_resource_assignments` asks for: a copy of the source pipeline with its
    /// shaders resolved for the defines of the draw call, the layout reflected from
    /// them, and the topology of the draw call.
    pub fn compile_pipeline<C: ShaderCompiler, R: LayoutReflector, X: RenderResourceContext>(
        &mut self,
        compiler: &mut C,
        reflector: &R,
        vertex_buffer_descriptors: &VertexBufferDescriptors,
        shader_storage: &mut ShaderStore,
        render_resource_context: &X,
        pipeline_descriptor: &PipelineDescriptor,
        render_resource_assignments: &RenderResourceAssignments,
    ) -> (result: Result<PipelineDescriptor, PipelineError>)
        ensures
            pipeline_compiled(
                old(self).shader_state(old(shader_storage), *old(compiler)),
                pipeline_descriptor@,
                compile_env(
                    vertex_buffer_descriptors,
                    reflector,
                    render_resource_context,
                    render_resource_assignments,
                ),
                final(self).shader_state(final(shader_storage), *final(compiler)),
                descriptor_result(result),
            ),
            final(self).pipeline_cache() == old(self).pipeline_cache(),
    {
        let ghost pre = self.shader_state(shader_storage, *compiler);
        let ghost env = compile_env(
            vertex_buffer_descriptors,
            reflector,
            render_resource_context,
            render_resource_assignments,
        );
        let mut compiled_pipeline_descriptor = pipeline_descriptor.clone();
        let vertex_result = self.compile_shader(
            compiler,
            shader_storage,
            pipeline_descriptor.shader_stages.vertex,
            &render_resource_assignments.pipeline_specialization.shader_specialization,
        );
        let ghost mid = self.shader_state(shader_storage, *compiler);
        let vertex = match vertex_result {
            Ok(handle) => handle,
            Err(error) => {
                proof {
                    assert(shader_resolved(
                        pre,
                        pipeline_descriptor@.shader_stages.vertex,
                        env.specialization.shader_defs,
                        env.defines,
                        mid,
                        vertex_result,
                    ));
                }
                return Err(error);
            },
        };
        let ghost mut fragment_result: Result<ShaderHandle, PipelineError> = Ok(vertex);
        let fragment = match pipeline_descriptor.shader_stages.fragment {
            Some(fragment) => {
                let resolved = self.compile_shader(
                    compiler,
                    shader_storage,
                    fragment,
                    &render_resource_assignments.pipeline_specialization.shader_specialization,
                );
                proof {
                    fragment_result = resolved;
                }
                match resolved {
                    Ok(handle) => Some(handle),
                    Err(error) => {
                        proof {
                            let post = self.shader_state(shader_storage, *compiler);
                            assert(shader_resolved(
                                mid,
                                fragment,
                                env.specialization.shader_defs,
                                env.defines,
                                post,
                                resolved,
                            ));
                            assert(fragment_compiled(
                                mid,
                                pipeline_descriptor@,
                                env,
                                vertex,
                                post,
                                Err::<PipelineDescriptorView, PipelineError>(error),
                            ));
                            assert(shader_resolved(
                                pre,
                                pipeline_descriptor@.shader_stages.vertex,
                                env.specialization.shader_defs,
                                env.defines,
                                mid,
                                vertex_result,
                            ));
                        }
                        return Err(error);
                    },
                }
            },
            None => None,
        };
        let ghost post = self.shader_state(shader_storage, *compiler);
        let stages = ShaderStages { vertex, fragment };
        compiled_pipeline_descriptor.shader_stages = stages;
        let ghost unreflected = compiled_pipeline_descriptor@;
        let reflected = Self::reflect_layout(
            shader_storage,
            vertex_buffer_descriptors,
            &mut compiled_pipeline_descriptor,
            reflector,
            render_resource_context,
            render_resource_assignments,
        );
        let ghost attached = compiled_pipeline_descriptor@;
        let result = match reflected {
            Ok(_) => {
                compiled_pipeline_descriptor.primitive_topology =
                render_resource_assignments.pipeline_specialization.primitive_topology;
                Ok(compiled_pipeline_descriptor)
            },
            Err(error) => Err(error),
        };
        proof {
            let layout_result = choose|layout_result: Result<PipelineLayoutView, PipelineError>|
                {
                    &&& #[trigger] stages_reflected(env, post.store, stages, layout_result)
                    &&& match layout_result {
                        Ok(layout) => reflected is Ok && attached == with_layout(
                            unreflected,
                            layout,
                        ),
                        Err(error) => reflected == Err::<(), PipelineError>(error) && attached
                            == unreflected,
                    }
                };
            assert(stages_reflected(env, post.store, stages, layout_result));
        }
        proof {
            assert(stages_compiled(
                pipeline_descriptor@,
                env,
                post.store,
                stages,
                descriptor_result(result),
            ));
            if pipeline_descriptor.shader_stages.fragment is Some {
                assert(shader_resolved(
                    mid,
                    pipeline_descriptor.shader_stages.fragment->0,
                    env.specialization.shader_defs,
                    env.defines,
                    post,
                    fragment_result,
                ));
            }
            assert(fragment_compiled(
                mid,
                pipeline_descriptor@,
                env,
                vertex,
                post,
                descriptor_result(result),
            ));
            assert(shader_resolved(
                pre,
                pipeline_descriptor@.shader_stages.vertex,
                env.specialization.shader_defs,
                env.defines,
                mid,
                vertex_result,
            ));
        }
        result
    }

    /// The handle of the variant of `pipeline_handle` that was compiled for
    /// `pipeline_specialization`, if one was.
    pub fn find_compiled_pipeline(
        &self,
        pipeline_handle: PipelineHandle,
        pipeline_specialization: &PipelineSpecialization,
    ) -> (found: Option<PipelineHandle>)
        ensures
            found == cached_pipeline(
                self.pipeline_cache(),
                pipeline_handle.id,
                pipeline_specialization@,
            ),
    {
        let ghost wanted = variant_of::<PipelineSpecializationView, PipelineHandle>(
            pipeline_specialization@,
        );
        let ghost variants = listed(self.pipeline_cache(), pipeline_handle.id);
        match self.pipeline_source_to_compiled.get(&pipeline_handle.id) {
            Some(compiled_pipelines) => {
                let mut i: usize = 0;
                while i < compiled_pipelines.len()
                    invariant
                        i <= compiled_pipelines.len(),
                        variants == pipeline_variants(compiled_pipelines@),
                        variants == listed(self.pipeline_cache(), pipeline_handle.id),
                        wanted == variant_of::<PipelineSpecializationView, PipelineHandle>(
                            pipeline_specialization@,
                        ),
                        forall|k: int| 0 <= k < i ==> !wanted(#[trigger] variants[k]),
                    decreases compiled_pipelines.len() - i,
                {
                    if compiled_pipelines[i].0 == *pipeline_specialization {
                        proof {
                            assert(wanted(variants[i as int]));
                            lemma_first_match_is(variants, wanted, i as int);
                        }
                        return Some(compiled_pipelines[i].1);
                    }
                    i += 1;
                }
                proof {
                    lemma_first_match_none(variants, wanted);
                }
                None
            },
            None => {
                proof {
                    lemma_first_match_none(variants, wanted);
                }
                None
            },
        }
    }

    /// Makes the cache of pipeline variants know the source `pipeline_handle`: it gets
    /// an empty list of variants unless it has a list already.
    pub fn ensure_pipeline_source(&mut self, pipeline_handle: PipelineHandle)
        ensures
            final(self).pipeline_cache() == with_key(old(self).pipeline_cache(), pipeline_handle.id),
            final(self).shader_cache() == old(self).shader_cache(),
    {
        if !self.pipeline_source_to_compiled.contains_key(&pipeline_handle.id) {
            self.pipeline_source_to_compiled.insert(pipeline_handle.id, Vec::new());
            proof {
                let expected = with_key(old(self).pipeline_cache(), pipeline_handle.id);
                assert(self.pipeline_cache().dom() =~= expected.dom());
                assert forall|source: u128|
                    self.pipeline_cache().contains_key(source) implies (
                #[trigger] self.pipeline_cache()[source]) == expected[source] by {
                    if source == pipeline_handle.id {
                        assert(self.pipeline_cache()[source] =~= expected[source]);
                    }
                }
                assert(self.pipeline_cache() =~= expected);
            }
        }
    }

    /// Appends the variant `compiled_handle` of `pipeline_handle`, compiled for
    /// `pipeline_specialization`, to the cache of pipeline variants.
    pub fn record_compiled_pipeline(
        &mut self,
        pipeline_handle: PipelineHandle,
        pipeline_specialization: &PipelineSpecialization,
        compiled_handle: PipelineHandle,
    )
        ensures
            final(self).pipeline_cache() == with_appended(
                old(self).pipeline_cache(),
                pipeline_handle.id,
                (pipeline_specialization@, compiled_handle),
            ),
            final(self).shader_cache() == old(self).shader_cache(),
    {
        let compiled_pipelines = self.pipeline_source_to_compiled.entry(
            pipeline_handle.id,
        ).or_insert(Vec::new());
        compiled_pipelines.push((pipeline_specialization.clone(), compiled_handle));
        proof {
            let expected = with_appended(
                old(self).pipeline_cache(),
                pipeline_handle.id,
                (pipeline_specialization@, compiled_handle),
            );
            assert(self.pipeline_cache().dom() =~= expected.dom());
            assert forall|source: u128| self.pipeline_cache().contains_key(source) implies (
            #[trigger] self.pipeline_cache()[source]) == expected[source] by {
                if source == pipeline_handle.id {
                    assert(self.pipeline_cache()[source] =~= expected[source]);
                }
            }
            assert(self.pipeline_cache() =~= expected);
        }
    }

    /// Stores the descriptor `compiled_pipeline`, compiled from the pipeline
    /// `pipeline_handle` for `pipeline_specialization`, and appends it to the variants
    /// of `pipeline_handle`.
    pub fn store_compiled_pipeline(
        &mut self,
        pipeline_storage: &mut PipelineStore,
        pipeline_handle: PipelineHandle,
        pipeline_specialization: &PipelineSpecialization,
        compiled_pipeline: PipelineDescriptor,
    ) -> (compiled_handle: PipelineHandle)
        ensures
            pipeline_assets(*final(pipeline_storage)) == pipeline_assets(
                *old(pipeline_storage),
            ).insert(compiled_handle.id, compiled_pipeline@),
            final(self).pipeline_cache() == with_appended(
                old(self).pipeline_cache(),
                pipeline_handle.id,
                (pipeline_specialization@, compiled_handle),
            ),
            final(self).shader_cache() == old(self).shader_cache(),
    {
        let compiled_handle = add_pipeline(pipeline_storage, compiled_pipeline);
        self.record_compiled_pipeline(pipeline_handle, pipeline_specialization, compiled_handle);
        compiled_handle
    }

    /// Resolves the pipeline `pipeline_handle` for the draw call of
    /// `render_resource_assignments`: the variant that the cache holds for the
    /// specialization of the draw call, which is compiled and stored first where the
    /// cache does not hold it yet. The compile service is left alone unless a shader
    /// variant has to be compiled.
    pub fn resolve_pipeline<C: ShaderCompiler, R: LayoutReflector, X: RenderResourceContext>(
        &mut self,
        compiler: &mut C,
        reflector: &R,
        vertex_buffer_descriptors: &VertexBufferDescriptors,
        render_resource_context: &X,
        pipeline_storage: &mut PipelineStore,
        shader_storage: &mut ShaderStore,
        pipeline_handle: PipelineHandle,
        render_resource_assignments: &RenderResourceAssignments,
    ) -> (result: Result<PipelineHandle, PipelineError>)
        ensures
            pipeline_resolved(
                old(self).state(old(shader_storage), old(pipeline_storage), *old(compiler)),
                pipeline_handle,
                compile_env(
                    vertex_buffer_descriptors,
                    reflector,
                    render_resource_context,
                    render_resource_assignments,
                ),
                final(self).state(final(shader_storage), final(pipeline_storage), *final(compiler)),
                result,
            ),
            cached_pipeline(
                old(self).pipeline_cache(),
                pipeline_handle.id,
                render_resource_assignments.pipeline_specialization@,
            ) is Some ==> *final(compiler) == *old(compiler),
            variants_kept(old(self).pipeline_cache(), final(self).pipeline_cache()),
            variants_kept(old(self).shader_cache(), final(self).shader_cache()),
            grown_from(old(self).pipeline_cache(), final(self).pipeline_cache()),
            grown_from(old(self).shader_cache(), final(self).shader_cache()),
            one_variant_each(old(self).pipeline_cache()) ==> one_variant_each(
                final(self).pipeline_cache(),
            ),
            one_variant_each(old(self).shader_cache()) ==> one_variant_each(
                final(self).shader_cache(),
            ),
    {
        let result = self.resolve_pipeline_variant(
            compiler,
            reflector,
            vertex_buffer_descriptors,
            render_resource_context,
            pipeline_storage,
            shader_storage,
            pipeline_handle,
            render_resource_assignments,
        );
        proof {
            lemma_resolution_keeps(
                old(self).state(old(shader_storage), old(pipeline_storage), *old(compiler)),
                pipeline_handle,
                compile_env(
                    vertex_buffer_descriptors,
                    reflector,
                    render_resource_context,
                    render_resource_assignments,
                ),
                self.state(shader_storage, pipeline_storage, *compiler),
                result,
            );
        }
        result
    }

    /// The steps of [`PipelineCompiler::resolve_pipeline`].
    fn resolve_pipeline_variant<
        C: ShaderCompiler,
        R: LayoutReflector,
        X: RenderResourceContext,
    >(
        &mut self,
        compiler: &mut C,
        reflector: &R,
        vertex_buffer_descriptors: &VertexBufferDescriptors,
        render_resource_context: &X,
        pipeline_storage: &mut PipelineStore,
        shader_storage: &mut ShaderStore,
        pipeline_handle: PipelineHandle,
        render_resource_assignments: &RenderResourceAssignments,
    ) -> (result: Result<PipelineHandle, PipelineError>)
        ensures
            pipeline_resolved(
                old(self).state(old(shader_storage), old(pipeline_storage), *old(compiler)),
                pipeline_handle,
                compile_env(
                    vertex_buffer_descriptors,
                    reflector,
                    render_resource_context,
                    render_resource_assignments,
                ),
                final(self).state(final(shader_storage), final(pipeline_storage), *final(compiler)),
                result,
            ),
    {
        let ghost pre = self.state(shader_storage, pipeline_storage, *compiler);
        let ghost env = compile_env(
            vertex_buffer_descriptors,
            reflector,
            render_resource_context,
            render_resource_assignments,
        );
        match self.find_compiled_pipeline(
            pipeline_handle,
            &render_resource_assignments.pipeline_specialization,
        ) {
            Some(compiled_handle) => {
                return Ok(compiled_handle);
            },
            None => {},
        }
        self.ensure_pipeline_source(pipeline_handle);
        let pipeline_descriptor = match get_pipeline(pipeline_storage, pipeline_handle) {
            Some(pipeline_descriptor) => pipeline_descriptor,
            None => {
                return Err(PipelineError::PipelineNotFound(pipeline_handle));
            },
        };
        let compiled = self.compile_pipeline(
            compiler,
            reflector,
            vertex_buffer_descriptors,
            shader_storage,
            render_resource_context,
            pipeline_descriptor,
            render_resource_assignments,
        );
        let ghost compiled_view = descriptor_result(compiled);
        let result = match compiled {
            Ok(compiled_pipeline) => {
                let compiled_handle = self.store_compiled_pipeline(
                    pipeline_storage,
                    pipeline_handle,
                    &render_resource_assignments.pipeline_specialization,
                    compiled_pipeline,
                );
                proof {
                    assert(self.pipeline_cache() =~= with_appended(
                        pre.pipelines,
                        pipeline_handle.id,
                        (env.specialization, compiled_handle),
                    ));
                }
                Ok(compiled_handle)
            },
            Err(error) => Err(error),
        };
        proof {
            let post = self.state(shader_storage, pipeline_storage, *compiler);
            assert(pipeline_compiled(
                pre.shaders,
                pre.pipeline_store[pipeline_handle.id],
                env,
                post.shaders,
                compiled_view,
            ));
        }
        result
    }

    /// Resolves each source pipeline of one draw call and enters the draw call in the
    /// table under each compiled pipeline that it resolved to. A pipeline that fails to
    /// resolve is reported in its outcome and leaves the draw call out of the table;
    /// the pipelines after it are resolved all the same.
    pub fn update_shader_assignments<
        C: ShaderCompiler,
        R: LayoutReflector,
        X: RenderResourceContext,
    >(
        &mut self,
        compiler: &mut C,
        reflector: &R,
        vertex_buffer_descriptors: &VertexBufferDescriptors,
        shader_pipeline_assignments: &mut PipelineAssignments,
        render_resource_context: &X,
        pipeline_storage: &mut PipelineStore,
        shader_storage: &mut ShaderStore,
        pipelines: &Vec<PipelineHandle>,
        render_resource_assignments: &RenderResourceAssignments,
    ) -> (outcomes: Vec<DrawOutcome>)
        ensures
            pass_resolved(
                FrameState {
                    compiler: old(self).state(old(shader_storage), old(pipeline_storage), *old(compiler)),
                    table: old(shader_pipeline_assignments)@,
                },
                draw_requests(
                    pipelines@,
                    render_resource_assignments.id,
                    compile_env(
                        vertex_buffer_descriptors,
                        reflector,
                        render_resource_context,
                        render_resource_assignments,
                    ),
                ),
                FrameState {
                    compiler: final(self).state(final(shader_storage), final(pipeline_storage), *final(compiler)),
                    table: final(shader_pipeline_assignments)@,
                },
                outcomes@,
            ),
            final(shader_pipeline_assignments)@ == table_with(
                old(shader_pipeline_assignments)@,
                outcomes@,
            ),
            outcomes@.len() == pipelines@.len(),
            all_cached(
                old(self).state(old(shader_storage), old(pipeline_storage), *old(compiler)),
                draw_requests(
                    pipelines@,
                    render_resource_assignments.id,
                    compile_env(
                        vertex_buffer_descriptors,
                        reflector,
                        render_resource_context,
                        render_resource_assignments,
                    ),
                ),
            ) ==> {
                &&& *final(compiler) == *old(compiler)
                &&& final(self).state(
                    final(shader_storage),
                    final(pipeline_storage),
                    *final(compiler),
                ) == old(self).state(old(shader_storage), old(pipeline_storage), *old(compiler))
            },
            variants_kept(old(self).pipeline_cache(), final(self).pipeline_cache()),
            variants_kept(old(self).shader_cache(), final(self).shader_cache()),
            grown_from(old(self).pipeline_cache(), final(self).pipeline_cache()),
            grown_from(old(self).shader_cache(), final(self).shader_cache()),
            one_variant_each(old(self).pipeline_cache()) ==> one_variant_each(
                final(self).pipeline_cache(),
            ),
            one_variant_each(old(self).shader_cache()) ==> one_variant_each(
                final(self).shader_cache(),
            ),
    {
        let ghost env = compile_env(
            vertex_buffer_descriptors,
            reflector,
            render_resource_context,
            render_resource_assignments,
        );
        let ghost requests = draw_requests(pipelines@, render_resource_assignments.id, env);
        let ghost pre = FrameState {
            compiler: self.state(shader_storage, pipeline_storage, *compiler),
            table: shader_pipeline_assignments@,
        };
        let ghost mut states: Seq<FrameState<C>> = seq![pre];
        let mut outcomes: Vec<DrawOutcome> = Vec::new();
        let mut i: usize = 0;
        while i < pipelines.len()
            invariant
                i <= pipelines.len(),
                env == compile_env(
                    vertex_buffer_descriptors,
                    reflector,
                    render_resource_context,
                    render_resource_assignments,
                ),
                requests == draw_requests(pipelines@, render_resource_assignments.id, env),
                states.first() == pre,
                states.last() == (FrameState {
                    compiler: self.state(shader_storage, pipeline_storage, *compiler),
                    table: shader_pipeline_assignments@,
                }),
                draws_resolved(states, requests.take(i as int), outcomes@),
            decreases pipelines.len() - i,
        {
            let ghost before = states.last();
            let result = self.resolve_pipeline(
                compiler,
                reflector,
                vertex_buffer_descriptors,
                render_resource_context,
                pipeline_storage,
                shader_storage,
                pipelines[i],
                render_resource_assignments,
            );
            match &result {
                Ok(final_handle) => {
                    shader_pipeline_assignments.assign(
                        *final_handle,
                        render_resource_assignments.id,
                    );
                },
                Err(_) => {},
            }
            let outcome = DrawOutcome {
                id: render_resource_assignments.id,
                pipeline: pipelines[i],
                result,
            };
            proof {
                let after = FrameState {
                    compiler: self.state(shader_storage, pipeline_storage, *compiler),
                    table: shader_pipeline_assignments@,
                };
                let longer = states.push(after);
                let served = requests.take(i as int + 1);
                let reported = outcomes@.push(outcome);
                assert(draw_resolved(before, requests[i as int], after, outcome));
                assert forall|k: int|
                    #![trigger served[k]]
                    0 <= k < served.len() implies draw_resolved(
                    longer[k],
                    served[k],
                    longer[k + 1],
                    reported[k],
                ) by {
                    if k < i {
                        assert(draw_resolved(
                            states[k],
                            requests.take(i as int)[k],
                            states[k + 1],
                            outcomes@[k],
                        ));
                    }
                }
                states = longer;
            }
            outcomes.push(outcome);
            i += 1;
        }
        proof {
            assert(requests.take(pipelines.len() as int) =~= requests);
            lemma_pass_table(
                pre,
                requests,
                FrameState {
                    compiler: self.state(shader_storage, pipeline_storage, *compiler),
                    table: shader_pipeline_assignments@,
                },
                outcomes@,
            );
            lemma_pass_keeps(
                pre,
                requests,
                FrameState {
                    compiler: self.state(shader_storage, pipeline_storage, *compiler),
                    table: shader_pipeline_assignments@,
                },
                outcomes@,
            );
            if all_cached(pre.compiler, requests) {
                lemma_cached_pass_changes_only_the_table(
                    pre,
                    requests,
                    FrameState {
                        compiler: self.state(shader_storage, pipeline_storage, *compiler),
                        table: shader_pipeline_assignments@,
                    },
                    outcomes@,
                );
            }
        }
        outcomes
    }

    /// The compiled variants of the source pipeline `pipeline_handle`, oldest first;
    /// nothing where the cache does not know the source.
    pub fn iter_compiled_pipelines(&self, pipeline_handle: PipelineHandle) -> (compiled: Option<
        Vec<PipelineHandle>,
    >)
        ensures
            match compiled {
                Some(handles) => self.pipeline_cache().contains_key(pipeline_handle.id)
                    && handles@ == variant_handles(self.pipeline_cache()[pipeline_handle.id]),
                None => !self.pipeline_cache().contains_key(pipeline_handle.id),
            },
    {
        match self.pipeline_source_to_compiled.get(&pipeline_handle.id) {
            Some(compiled_pipelines) => {
                let mut handles: Vec<PipelineHandle> = Vec::new();
                let mut i: usize = 0;
                while i < compiled_pipelines.len()
                    invariant
                        i <= compiled_pipelines.len(),
                        handles@.len() == i,
                        forall|k: int| 0 <= k < i ==> handles@[k] == compiled_pipelines@[k].1,
                    decreases compiled_pipelines.len() - i,
                {
                    handles.push(compiled_pipelines[i].1);
                    i += 1;
                }
                assert(handles@ =~= variant_handles(self.pipeline_cache()[pipeline_handle.id]));
                Some(handles)
            },
            None => None,
        }
    }

    /// The compiled variants of all source pipelines: source by source in the order in
    /// which the cache walks its sources, the variants of each source oldest first.
    pub fn iter_all_compiled_pipelines(&self) -> (compiled: Vec<PipelineHandle>)
        ensures
            exists|order: Seq<u128>|
                {
                    &&& order.no_duplicates()
                    &&& order.to_set() == self.pipeline_cache().dom()
                    &&& compiled@ == #[trigger] handles_in_order(self.pipeline_cache(), order)
                },
    {
        let mut compiled: Vec<PipelineHandle> = Vec::new();
        let ghost mut order: Seq<u128> = Seq::empty();
        for source in walk: self.pipeline_source_to_compiled.keys()
            invariant
                walk.seq() == self.pipeline_source_to_compiled.keys().remaining(),
                order == walk.seq().take(walk.index() as int).unref(),
                compiled@ == handles_in_order(self.pipeline_cache(), order),
        {
            let ghost before = order;
            match self.iter_compiled_pipelines(PipelineHandle { id: *source }) {
                Some(mut handles) => {
                    compiled.append(&mut handles);
                },
                None => {},
            }
            proof {
                order = before.push(*source);
                assert(order.drop_last() =~= before);
            }
        }
        proof {
            let sources = self.pipeline_source_to_compiled.keys().remaining();
            assert(sources.take(sources.len() as int) =~= sources);
            assert(sources.no_duplicates());
            assert forall|i: int, j: int|
                0 <= i < order.len() && 0 <= j < order.len() && i != j implies order[i]
                != order[j] by {
                assert(sources[i] != sources[j]);
            }
            assert(self.pipeline_cache().dom() =~= self.pipeline_source_to_compiled@.dom());
        }
        compiled
    }
}

/// The frame pass. The table is discarded and rebuilt from nothing: each renderable
/// that is not instanced has each of its source pipelines resolved for its current
/// specialization and is entered in the table under the compiled pipelines, and then
/// has its shader defines cleared. What became of each request is returned, in the
/// order of the requests; a failure drops that one draw call for this frame and nothing
/// else.
pub fn update_shader_assignments<C: ShaderCompiler, R: LayoutReflector, X: RenderResourceContext>(
    pipeline_compiler: &mut PipelineCompiler,
    shader_pipeline_assignments: &mut PipelineAssignments,
    compiler: &mut C,
    reflector: &R,
    vertex_buffer_descriptors: &VertexBufferDescriptors,
    render_resource_context: &X,
    pipeline_storage: &mut PipelineStore,
    shader_storage: &mut ShaderStore,
    renderables: &mut Vec<Renderable>,
) -> (outcomes: Vec<DrawOutcome>)
    ensures
        final(renderables).len() == old(renderables).len(),
        forall|k: int|
            0 <= k < old(renderables).len() ==> passed_over(
                old(renderables)[k],
                #[trigger] final(renderables)[k],
            ),
        pass_resolved(
            FrameState {
                compiler: old(pipeline_compiler).state(
                    old(shader_storage),
                    old(pipeline_storage),
                    *old(compiler),
                ),
                table: Map::empty(),
            },
            frame_requests(
                old(renderables)@,
                vertex_buffer_descriptors,
                reflector,
                render_resource_context,
            ),
            FrameState {
                compiler: final(pipeline_compiler).state(
                    final(shader_storage),
                    final(pipeline_storage),
                    *final(compiler),
                ),
                table: final(shader_pipeline_assignments)@,
            },
            outcomes@,
        ),
        final(shader_pipeline_assignments)@ == table_of(outcomes@),
        table_from_frame(final(shader_pipeline_assignments)@, old(renderables)@),
        all_cached(
            old(pipeline_compiler).state(
                old(shader_storage),
                old(pipeline_storage),
                *old(compiler),
            ),
            frame_requests(
                old(renderables)@,
                vertex_buffer_descriptors,
                reflector,
                render_resource_context,
            ),
        ) ==> {
            &&& *final(compiler) == *old(compiler)
            &&& final(pipeline_compiler).state(
                final(shader_storage),
                final(pipeline_storage),
                *final(compiler),
            ) == old(pipeline_compiler).state(
                old(shader_storage),
                old(pipeline_storage),
                *old(compiler),
            )
        },
        variants_kept(
            old(pipeline_compiler).pipeline_cache(),
            final(pipeline_compiler).pipeline_cache(),
        ),
        variants_kept(old(pipeline_compiler).shader_cache(), final(pipeline_compiler).shader_cache()),
        grown_from(
            old(pipeline_compiler).pipeline_cache(),
            final(pipeline_compiler).pipeline_cache(),
        ),
        grown_from(old(pipeline_compiler).shader_cache(), final(pipeline_compiler).shader_cache()),
        one_variant_each(old(pipeline_compiler).pipeline_cache()) ==> one_variant_each(
            final(pipeline_compiler).pipeline_cache(),
        ),
        one_variant_each(old(pipeline_compiler).shader_cache()) ==> one_variant_each(
            final(pipeline_compiler).shader_cache(),
        ),
{
    shader_pipeline_assignments.reset();
    let ghost pre = FrameState {
        compiler: pipeline_compiler.state(shader_storage, pipeline_storage, *compiler),
        table: Map::empty(),
    };
    let mut outcomes: Vec<DrawOutcome> = Vec::new();
    proof {
        lemma_pass_empty(pre);
    }
    let mut i: usize = 0;
    while i < renderables.len()
        invariant
            i <= renderables.len(),
            renderables.len() == old(renderables).len(),
            forall|k: int|
                0 <= k < i ==> passed_over(old(renderables)[k], #[trigger] renderables[k]),
            forall|k: int|
                i <= k < renderables.len() ==> (#[trigger] renderables[k]) == old(
                    renderables,
                )[k],
            pass_resolved(
                pre,
                frame_requests(
                    old(renderables)@.take(i as int),
                    vertex_buffer_descriptors,
                    reflector,
                    render_resource_context,
                ),
                FrameState {
                    compiler: pipeline_compiler.state(shader_storage, pipeline_storage, *compiler),
                    table: shader_pipeline_assignments@,
                },
                outcomes@,
            ),
        decreases renderables.len() - i,
    {
        let ghost served = frame_requests(
            old(renderables)@.take(i as int),
            vertex_buffer_descriptors,
            reflector,
            render_resource_context,
        );
        let ghost before = FrameState {
            compiler: pipeline_compiler.state(shader_storage, pipeline_storage, *compiler),
            table: shader_pipeline_assignments@,
        };
        let ghost reported = outcomes@;
        proof {
            let prefix = old(renderables)@.take(i as int + 1);
            assert(prefix.drop_last() =~= old(renderables)@.take(i as int));
            assert(prefix.last() == old(renderables)[i as int]);
        }
        if renderables[i].is_instanced {
            proof {
                lemma_pass_empty(before);
                lemma_pass_concat(
                    pre,
                    served,
                    reported,
                    before,
                    Seq::empty(),
                    Seq::empty(),
                    before,
                );
                assert(served + Seq::<DrawRequest>::empty() =~= served);
                assert(reported + Seq::<DrawOutcome>::empty() =~= reported);
            }
        } else {
            let mut drawn = pipeline_compiler.update_shader_assignments(
                compiler,
                reflector,
                vertex_buffer_descriptors,
                shader_pipeline_assignments,
                render_resource_context,
                pipeline_storage,
                shader_storage,
                &renderables[i].pipelines,
                &renderables[i].render_resource_assignments,
            );
            proof {
                lemma_pass_concat(
                    pre,
                    served,
                    reported,
                    before,
                    renderable_requests(
                        old(renderables)[i as int],
                        vertex_buffer_descriptors,
                        reflector,
                        render_resource_context,
                    ),
                    drawn@,
                    FrameState {
                        compiler: pipeline_compiler.state(shader_storage, pipeline_storage, *compiler),
                        table: shader_pipeline_assignments@,
                    },
                );
            }
            outcomes.append(&mut drawn);
            renderables[i].render_resource_assignments.pipeline_specialization.shader_specialization.clear();
        }
        i += 1;
    }
    proof {
        assert(old(renderables)@.take(renderables.len() as int) =~= old(renderables)@);
        lemma_pass_table(
            pre,
            frame_requests(old(renderables)@, vertex_buffer_descriptors, reflector, render_resource_context),
            FrameState {
                compiler: pipeline_compiler.state(shader_storage, pipeline_storage, *compiler),
                table: shader_pipeline_assignments@,
            },
            outcomes@,
        );
        lemma_pass_keeps(
            pre,
            frame_requests(old(renderables)@, vertex_buffer_descriptors, reflector, render_resource_context),
            FrameState {
                compiler: pipeline_compiler.state(shader_storage, pipeline_storage, *compiler),
                table: shader_pipeline_assignments@,
            },
            outcomes@,
        );
        if all_cached(
            pre.compiler,
            frame_requests(
                old(renderables)@,
                vertex_buffer_descriptors,
                reflector,
                render_resource_context,
            ),
        ) {
            lemma_cached_pass_changes_only_the_table(
                pre,
                frame_requests(
                    old(renderables)@,
                    vertex_buffer_descriptors,
                    reflector,
                    render_resource_context,
                ),
                FrameState {
                    compiler: pipeline_compiler.state(shader_storage, pipeline_storage, *compiler),
                    table: shader_pipeline_assignments@,
                },
                outcomes@,
            );
        }
        lemma_frame_isolation(
            pre,
            old(renderables)@,
            vertex_buffer_descriptors,
            reflector,
            render_resource_context,
            FrameState {
                compiler: pipeline_compiler.state(shader_storage, pipeline_storage, *compiler),
                table: shader_pipeline_assignments@,
            },
            outcomes@,
        );
    }
    outcomes
}

} // verus!
