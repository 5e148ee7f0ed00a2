use bevy_asset::Assets;
use pipeline_compiler::asset_store::{PipelineStore, ShaderStore};
use pipeline_compiler::handle::{PipelineHandle, ShaderHandle};
use pipeline_compiler::layout::{
    BindGroupDescriptor, BindType, BindingDescriptor, InputStepMode, ShaderLayout,
    VertexAttributeDescriptor, VertexBufferDescriptor, VertexBufferDescriptors, VertexFormat,
};
use pipeline_compiler::pipeline::{
    IndexFormat, PipelineDescriptor, PipelineLayoutType, ShaderStages,
};
use pipeline_compiler::error::PipelineError;
use pipeline_compiler::frame::DrawOutcome;
use pipeline_compiler::pipeline_compiler::{
    update_shader_assignments, PipelineAssignments, PipelineCompiler,
};
use pipeline_compiler::render_resource::{
    BufferInfo, RenderResource, RenderResourceAssignments, RenderResourceAssignmentsId,
    RenderResourceContext, Renderable, ResourceInfo,
};
use pipeline_compiler::shader::{
    CompileError, LayoutReflector, Shader, ShaderCompiler, ShaderSource, ShaderStage,
};
use pipeline_compiler::specialization::{
    PipelineSpecialization, PrimitiveTopology, ShaderSpecialization,
};

/// A compile service that counts its calls and encodes the defines into the binary.
struct CountingCompiler {
    calls: usize,
    requests: Vec<Vec<String>>,
    refuse: Option<String>,
}

impl CountingCompiler {
    fn new() -> Self {
        CountingCompiler { calls: 0, requests: Vec::new(), refuse: None }
    }
}

impl ShaderCompiler for CountingCompiler {
    fn compile_with_defines(
        &mut self,
        shader: &Shader,
        shader_defs: &Vec<String>,
    ) -> Result<Vec<u32>, CompileError> {
        self.calls += 1;
        self.requests.push(shader_defs.clone());
        if let Some(def) = &self.refuse {
            if shader_defs.contains(def) {
                return Err(CompileError { message: format!("unsupported define {}", def) });
            }
        }
        let text = match &shader.source {
            ShaderSource::Glsl(text) => text.len() as u32,
            ShaderSource::Spirv(words) => words.len() as u32,
        };
        let mut words = vec![0x0723_0203, text];
        for def in shader_defs {
            words.push(def.len() as u32);
        }
        Ok(words)
    }
}

/// A reflector that reports one uniform binding per stage layout, and nothing for a
/// binary that does not start with the magic word.
struct FixedReflector;

impl LayoutReflector for FixedReflector {
    fn reflect_layout(&self, spirv: &Vec<u32>) -> Option<ShaderLayout> {
        if spirv.first() != Some(&0x0723_0203) {
            return None;
        }
        Some(ShaderLayout {
            bind_groups: vec![BindGroupDescriptor {
                index: 0,
                bindings: vec![BindingDescriptor {
                    name: "Camera".to_string(),
                    index: 0,
                    bind_type: BindType::Uniform { dynamic: false, size: 64 },
                }],
            }],
            vertex_buffer_descriptors: vec![VertexBufferDescriptor {
                name: "Vertex".to_string(),
                stride: 0,
                step_mode: InputStepMode::Vertex,
                attributes: vec![VertexAttributeDescriptor {
                    name: "Vertex_Position".to_string(),
                    offset: 0,
                    format: VertexFormat::Float4,
                    shader_location: 0,
                }],
            }],
            entry_point: "main".to_string(),
        })
    }
}

/// A registry that knows the resources it was told of.
struct Registry {
    known: Vec<(RenderResource, ResourceInfo)>,
}

impl RenderResourceContext for Registry {
    fn resource_info(&self, resource: RenderResource) -> Option<ResourceInfo> {
        self.known.iter().find(|(known, _)| *known == resource).map(|(_, info)| *info)
    }

    fn get_resource_info(&self, resource: RenderResource) -> Option<ResourceInfo> {
        self.resource_info(resource)
    }
}

struct World {
    compiler: PipelineCompiler,
    assignments: PipelineAssignments,
    service: CountingCompiler,
    reflector: FixedReflector,
    table: VertexBufferDescriptors,
    registry: Registry,
    pipelines: PipelineStore,
    shaders: ShaderStore,
}

fn world() -> World {
    World {
        compiler: PipelineCompiler::new(),
        assignments: PipelineAssignments::new(),
        service: CountingCompiler::new(),
        reflector: FixedReflector,
        table: VertexBufferDescriptors::new(),
        registry: Registry { known: Vec::new() },
        pipelines: PipelineStore { assets: Assets::default() },
        shaders: ShaderStore { assets: Assets::default() },
    }
}

fn add_glsl(world: &mut World, stage: ShaderStage, text: &str) -> ShaderHandle {
    let handle = world.shaders.assets.add(Shader::from_glsl(stage, text.to_string()));
    ShaderHandle { id: handle.id.0.as_u128() }
}

fn add_spirv(world: &mut World, stage: ShaderStage, words: Vec<u32>) -> ShaderHandle {
    let handle = world.shaders.assets.add(Shader::from_spirv(stage, words));
    ShaderHandle { id: handle.id.0.as_u128() }
}

fn add_source_pipeline(world: &mut World, stages: ShaderStages) -> PipelineHandle {
    let handle = world.pipelines.assets.add(PipelineDescriptor::new(stages));
    PipelineHandle { id: handle.id.0.as_u128() }
}

fn specialization(defs: &[&str]) -> ShaderSpecialization {
    let mut specialization = ShaderSpecialization::new();
    for def in defs {
        specialization.insert(def.to_string());
    }
    specialization
}

fn draw_call(id: u64, defs: &[&str], topology: PrimitiveTopology) -> RenderResourceAssignments {
    let mut assignments = RenderResourceAssignments::new(RenderResourceAssignmentsId { id });
    assignments.pipeline_specialization = PipelineSpecialization {
        shader_specialization: specialization(defs),
        primitive_topology: topology,
    };
    assignments
}

fn resolve(
    world: &mut World,
    pipeline: PipelineHandle,
    draw: &RenderResourceAssignments,
) -> Result<PipelineHandle, PipelineError> {
    world.compiler.resolve_pipeline(
        &mut world.service,
        &world.reflector,
        &world.table,
        &world.registry,
        &mut world.pipelines,
        &mut world.shaders,
        pipeline,
        draw,
    )
}

fn frame(world: &mut World, renderables: &mut Vec<Renderable>) -> Vec<DrawOutcome> {
    update_shader_assignments(
        &mut world.compiler,
        &mut world.assignments,
        &mut world.service,
        &world.reflector,
        &world.table,
        &world.registry,
        &mut world.pipelines,
        &mut world.shaders,
        renderables,
    )
}

#[test]
fn shader_variants_are_cached_by_define_set() {
    let mut world = world();
    let source = add_glsl(&mut world, ShaderStage::Vertex, "void main() {}");
    let a = specialization(&["A"]);
    let b = specialization(&["A", "B"]);
    let first = world
        .compiler
        .compile_shader(&mut world.service, &mut world.shaders, source, &a)
        .unwrap();
    let second = world
        .compiler
        .compile_shader(&mut world.service, &mut world.shaders, source, &b)
        .unwrap();
    assert_ne!(first, second);
    assert_ne!(first, source);
    assert_eq!(world.service.calls, 2);
    let again = world
        .compiler
        .compile_shader(&mut world.service, &mut world.shaders, source, &a)
        .unwrap();
    assert_eq!(again, first);
    assert_eq!(world.service.calls, 2);
    assert_eq!(world.compiler.find_compiled_shader(source, &a), Some(first));
    assert_eq!(world.compiler.find_compiled_shader(source, &b), Some(second));
    assert_eq!(world.compiler.shader_source_to_compiled[&source.id].len(), 2);
}

fn vertex_only_pipeline(world: &mut World) -> (PipelineHandle, ShaderHandle) {
    let vertex = add_glsl(world, ShaderStage::Vertex, "void main() {}");
    let pipeline = add_source_pipeline(world, ShaderStages { vertex, fragment: None });
    (pipeline, vertex)
}

fn two_stage_pipeline(world: &mut World) -> (PipelineHandle, ShaderHandle, ShaderHandle) {
    let vertex = add_glsl(world, ShaderStage::Vertex, "void main() {}");
    let fragment = add_glsl(world, ShaderStage::Fragment, "void main() { discard; }");
    let pipeline = add_source_pipeline(world, ShaderStages { vertex, fragment: Some(fragment) });
    (pipeline, vertex, fragment)
}

fn renderable(id: u64, pipelines: Vec<PipelineHandle>, defs: &[&str]) -> Renderable {
    Renderable {
        is_instanced: false,
        pipelines,
        render_resource_assignments: draw_call(id, defs, PrimitiveTopology::TriangleList),
    }
}

fn rsid(id: u64) -> RenderResourceAssignmentsId {
    RenderResourceAssignmentsId { id }
}

#[test]
fn define_sets_that_differ_only_in_order_share_a_variant() {
    let mut world = world();
    let source = add_glsl(&mut world, ShaderStage::Vertex, "void main() {}");
    let ab = specialization(&["A", "B"]);
    let ba = specialization(&["B", "A"]);
    let first = world
        .compiler
        .compile_shader(&mut world.service, &mut world.shaders, source, &ab)
        .unwrap();
    let second = world
        .compiler
        .compile_shader(&mut world.service, &mut world.shaders, source, &ba)
        .unwrap();
    assert_eq!(first, second);
    assert_eq!(world.service.calls, 1);
    assert_eq!(world.compiler.shader_source_to_compiled[&source.id].len(), 1);
}

#[test]
fn compile_service_gets_the_defines_in_ascending_order() {
    let mut world = world();
    let source = add_glsl(&mut world, ShaderStage::Vertex, "void main() {}");
    let defs = specialization(&["ZETA", "ALPHA", "ZETA", "MID"]);
    world
        .compiler
        .compile_shader(&mut world.service, &mut world.shaders, source, &defs)
        .unwrap();
    assert_eq!(
        world.service.requests,
        vec![vec!["ALPHA".to_string(), "MID".to_string(), "ZETA".to_string()]]
    );
}

#[test]
fn compiled_shader_is_stored_as_binary_of_the_same_stage() {
    let mut world = world();
    let source = add_glsl(&mut world, ShaderStage::Fragment, "void main() {}");
    let compiled = world
        .compiler
        .compile_shader(&mut world.service, &mut world.shaders, source, &specialization(&["A"]))
        .unwrap();
    let stored = world
        .shaders
        .assets
        .get(&bevy_asset::Handle::from_u128(compiled.id))
        .expect("the compiled shader is in the store");
    assert!(stored.is_binary());
    assert_eq!(stored.stage, ShaderStage::Fragment);
    match &stored.source {
        ShaderSource::Spirv(words) => assert_eq!(words, &vec![0x0723_0203, 14, 1]),
        ShaderSource::Glsl(_) => panic!("a compiled shader is a binary"),
    }
    let source_shader = world
        .shaders
        .assets
        .get(&bevy_asset::Handle::from_u128(source.id))
        .expect("the source shader stays in the store");
    assert!(!source_shader.is_binary());
}

#[test]
fn binary_shader_passes_through_for_every_specialization() {
    let mut world = world();
    let binary = add_spirv(&mut world, ShaderStage::Vertex, vec![0x0723_0203, 1, 2]);
    for defs in [&[][..], &["A"][..], &["A", "B"][..]] {
        let resolved = world
            .compiler
            .compile_shader(&mut world.service, &mut world.shaders, binary, &specialization(defs))
            .unwrap();
        assert_eq!(resolved, binary);
    }
    assert_eq!(world.service.calls, 0);
    assert!(world.compiler.shader_source_to_compiled.is_empty());
    assert_eq!(world.shaders.assets.iter().count(), 1);
}

#[test]
fn missing_shader_is_reported_and_nothing_changes() {
    let mut world = world();
    let missing = ShaderHandle { id: 77 };
    let result = world.compiler.compile_shader(
        &mut world.service,
        &mut world.shaders,
        missing,
        &specialization(&["A"]),
    );
    match result {
        Err(PipelineError::ShaderNotFound(handle)) => assert_eq!(handle, missing),
        other => panic!("unexpected result {:?}", other),
    }
    assert_eq!(world.service.calls, 0);
    assert!(world.compiler.shader_source_to_compiled.is_empty());
}

#[test]
fn compile_error_is_surfaced_and_nothing_is_cached() {
    let mut world = world();
    world.service.refuse = Some("BROKEN".to_string());
    let source = add_glsl(&mut world, ShaderStage::Vertex, "void main() {}");
    let result = world.compiler.compile_shader(
        &mut world.service,
        &mut world.shaders,
        source,
        &specialization(&["BROKEN"]),
    );
    match result {
        Err(PipelineError::Compile(error)) => {
            assert_eq!(error.message, "unsupported define BROKEN")
        },
        other => panic!("unexpected result {:?}", other),
    }
    assert_eq!(world.compiler.find_compiled_shader(source, &specialization(&["BROKEN"])), None);
    assert_eq!(world.shaders.assets.iter().count(), 1);
    // A failure is not remembered: the next request asks the service again.
    let _ = world.compiler.compile_shader(
        &mut world.service,
        &mut world.shaders,
        source,
        &specialization(&["BROKEN"]),
    );
    assert_eq!(world.service.calls, 2);
}

#[test]
fn pipeline_variants_by_defines_scenario() {
    let mut world = world();
    let (pipeline, _) = vertex_only_pipeline(&mut world);
    let a = draw_call(1, &["A"], PrimitiveTopology::TriangleList);
    let ab = draw_call(2, &["A", "B"], PrimitiveTopology::TriangleList);
    let h1 = resolve(&mut world, pipeline, &a).unwrap();
    let h2 = resolve(&mut world, pipeline, &ab).unwrap();
    assert_ne!(h1, h2);
    assert_ne!(h1, pipeline);
    let again = resolve(&mut world, pipeline, &a).unwrap();
    assert_eq!(again, h1);
    assert_eq!(world.compiler.iter_compiled_pipelines(pipeline), Some(vec![h1, h2]));
    assert_eq!(world.service.calls, 2);
}

#[test]
fn topology_is_part_of_the_pipeline_specialization() {
    let mut world = world();
    let (pipeline, _) = vertex_only_pipeline(&mut world);
    let triangles = draw_call(1, &["A"], PrimitiveTopology::TriangleList);
    let lines = draw_call(2, &["A"], PrimitiveTopology::LineList);
    let h1 = resolve(&mut world, pipeline, &triangles).unwrap();
    let h2 = resolve(&mut world, pipeline, &lines).unwrap();
    assert_ne!(h1, h2);
    // Both variants share the one shader variant compiled for {"A"}.
    assert_eq!(world.service.calls, 1);
    let first = world.pipelines.assets.get(&bevy_asset::Handle::from_u128(h1.id)).unwrap();
    let second = world.pipelines.assets.get(&bevy_asset::Handle::from_u128(h2.id)).unwrap();
    assert_eq!(first.primitive_topology, PrimitiveTopology::TriangleList);
    assert_eq!(second.primitive_topology, PrimitiveTopology::LineList);
    assert_eq!(first.shader_stages, second.shader_stages);
}

#[test]
fn compiled_pipeline_overrides_shaders_layout_and_topology_only() {
    let mut world = world();
    let vertex = add_glsl(&mut world, ShaderStage::Vertex, "void main() {}");
    let fragment = add_spirv(&mut world, ShaderStage::Fragment, vec![0x0723_0203, 9]);
    let mut source = PipelineDescriptor::new(ShaderStages { vertex, fragment: Some(fragment) });
    source.name = Some("forward".to_string());
    source.index_format = IndexFormat::Uint16;
    source.sample_count = 4;
    source.sample_mask = 0x0f;
    source.alpha_to_coverage_enabled = true;
    let handle = world.pipelines.assets.add(source);
    let pipeline = PipelineHandle { id: handle.id.0.as_u128() };
    let draw = draw_call(1, &["A"], PrimitiveTopology::LineStrip);
    let compiled_handle = resolve(&mut world, pipeline, &draw).unwrap();
    let compiled_vertex = world
        .compiler
        .find_compiled_shader(vertex, &specialization(&["A"]))
        .expect("the vertex shader was compiled");
    let compiled = world
        .pipelines
        .assets
        .get(&bevy_asset::Handle::from_u128(compiled_handle.id))
        .unwrap();
    assert_eq!(compiled.name, Some("forward".to_string()));
    assert_eq!(compiled.index_format, IndexFormat::Uint16);
    assert_eq!(compiled.sample_count, 4);
    assert_eq!(compiled.sample_mask, 0x0f);
    assert!(compiled.alpha_to_coverage_enabled);
    assert_eq!(compiled.primitive_topology, PrimitiveTopology::LineStrip);
    assert_eq!(
        compiled.shader_stages,
        ShaderStages { vertex: compiled_vertex, fragment: Some(fragment) }
    );
    match &compiled.layout {
        PipelineLayoutType::Reflected(Some(layout)) => {
            assert_eq!(layout.bind_groups.len(), 1);
            assert_eq!(layout.bind_groups[0].bindings.len(), 1);
            assert_eq!(layout.vertex_buffer_descriptors.len(), 1);
        },
        other => panic!("unexpected layout {:?}", other),
    }
    // The source pipeline is left as it was.
    let source = world.pipelines.assets.get(&bevy_asset::Handle::from_u128(pipeline.id)).unwrap();
    assert_eq!(source.primitive_topology, PrimitiveTopology::TriangleList);
    assert_eq!(source.shader_stages, ShaderStages { vertex, fragment: Some(fragment) });
    assert!(matches!(source.layout, PipelineLayoutType::Reflected(None)));
}

#[test]
fn missing_pipeline_is_reported() {
    let mut world = world();
    let missing = PipelineHandle { id: 5 };
    let draw = draw_call(1, &[], PrimitiveTopology::TriangleList);
    match resolve(&mut world, missing, &draw) {
        Err(PipelineError::PipelineNotFound(handle)) => assert_eq!(handle, missing),
        other => panic!("unexpected result {:?}", other),
    }
    // The cache knows the source, without any variant.
    assert_eq!(world.compiler.iter_compiled_pipelines(missing), Some(vec![]));
    assert!(world.pipelines.assets.iter().next().is_none());
}

#[test]
fn missing_vertex_shader_fails_the_pipeline() {
    let mut world = world();
    let vertex = ShaderHandle { id: 123 };
    let pipeline = add_source_pipeline(&mut world, ShaderStages { vertex, fragment: None });
    let draw = draw_call(1, &[], PrimitiveTopology::TriangleList);
    match resolve(&mut world, pipeline, &draw) {
        Err(PipelineError::ShaderNotFound(handle)) => assert_eq!(handle, vertex),
        other => panic!("unexpected result {:?}", other),
    }
    assert_eq!(world.compiler.iter_compiled_pipelines(pipeline), Some(vec![]));
    assert_eq!(world.pipelines.assets.iter().count(), 1);
}

#[test]
fn unreadable_binary_is_a_reflection_error() {
    let mut world = world();
    let vertex = add_spirv(&mut world, ShaderStage::Vertex, vec![1, 2, 3]);
    let pipeline = add_source_pipeline(&mut world, ShaderStages { vertex, fragment: None });
    let draw = draw_call(1, &[], PrimitiveTopology::TriangleList);
    match resolve(&mut world, pipeline, &draw) {
        Err(PipelineError::Reflection(handle)) => assert_eq!(handle, vertex),
        other => panic!("unexpected result {:?}", other),
    }
    assert_eq!(world.compiler.iter_compiled_pipelines(pipeline), Some(vec![]));
}

#[test]
fn fragment_compile_error_keeps_the_vertex_variant() {
    let mut world = world();
    let vertex = add_spirv(&mut world, ShaderStage::Vertex, vec![0x0723_0203]);
    let fragment = add_glsl(&mut world, ShaderStage::Fragment, "void main() {}");
    let pipeline =
        add_source_pipeline(&mut world, ShaderStages { vertex, fragment: Some(fragment) });
    world.service.refuse = Some("BROKEN".to_string());
    let draw = draw_call(1, &["BROKEN"], PrimitiveTopology::TriangleList);
    assert!(matches!(resolve(&mut world, pipeline, &draw), Err(PipelineError::Compile(_))));
    assert_eq!(world.compiler.iter_compiled_pipelines(pipeline), Some(vec![]));
    let fine = draw_call(2, &["FINE"], PrimitiveTopology::TriangleList);
    let handle = resolve(&mut world, pipeline, &fine).unwrap();
    assert_eq!(world.compiler.iter_compiled_pipelines(pipeline), Some(vec![handle]));
}

#[test]
fn unknown_source_has_no_variants() {
    let world = world();
    assert_eq!(world.compiler.iter_compiled_pipelines(PipelineHandle { id: 1 }), None);
    assert_eq!(world.compiler.iter_all_compiled_pipelines(), vec![]);
}

#[test]
fn all_compiled_pipelines_lists_every_variant_once() {
    let mut world = world();
    let (first, _) = vertex_only_pipeline(&mut world);
    let (second, _, _) = two_stage_pipeline(&mut world);
    let a = draw_call(1, &["A"], PrimitiveTopology::TriangleList);
    let b = draw_call(2, &["B"], PrimitiveTopology::TriangleList);
    let h1 = resolve(&mut world, first, &a).unwrap();
    let h2 = resolve(&mut world, first, &b).unwrap();
    let h3 = resolve(&mut world, second, &a).unwrap();
    let mut all = world.compiler.iter_all_compiled_pipelines();
    assert_eq!(all.len(), 3);
    let position = |handle: PipelineHandle, all: &Vec<PipelineHandle>| {
        all.iter().position(|other| *other == handle).unwrap()
    };
    // The variants of one source stay in the order in which they were compiled.
    assert!(position(h1, &all) < position(h2, &all));
    all.sort_by_key(|handle| handle.id);
    let mut expected = vec![h1, h2, h3];
    expected.sort_by_key(|handle| handle.id);
    assert_eq!(all, expected);
}

#[test]
fn identical_draw_calls_share_one_assignment_list() {
    let mut world = world();
    let (pipeline, _) = vertex_only_pipeline(&mut world);
    let mut renderables =
        vec![renderable(1, vec![pipeline], &["A"]), renderable(2, vec![pipeline], &["A"])];
    let outcomes = frame(&mut world, &mut renderables);
    assert_eq!(outcomes.len(), 2);
    let h1 = *outcomes[0].result.as_ref().unwrap();
    assert_eq!(*outcomes[1].result.as_ref().unwrap(), h1);
    assert_eq!(outcomes[0].id, rsid(1));
    assert_eq!(outcomes[1].id, rsid(2));
    assert_eq!(outcomes[0].pipeline, pipeline);
    assert_eq!(world.assignments.get(h1), Some(&vec![rsid(1), rsid(2)]));
    assert_eq!(world.assignments.assignments.len(), 1);
    assert_eq!(world.service.calls, 1);
}

#[test]
fn instanced_entity_is_skipped_entirely() {
    let mut world = world();
    let (pipeline, vertex) = vertex_only_pipeline(&mut world);
    let mut instanced = renderable(1, vec![pipeline], &["NOVEL"]);
    instanced.is_instanced = true;
    let mut renderables = vec![instanced];
    let outcomes = frame(&mut world, &mut renderables);
    assert!(outcomes.is_empty());
    assert!(world.assignments.assignments.is_empty());
    assert_eq!(world.compiler.iter_compiled_pipelines(pipeline), None);
    assert_eq!(world.compiler.find_compiled_shader(vertex, &specialization(&["NOVEL"])), None);
    assert_eq!(world.service.calls, 0);
    // The defines of an entity that was skipped are not touched.
    let kept = &renderables[0].render_resource_assignments.pipeline_specialization;
    assert!(kept.shader_specialization.contains(&"NOVEL".to_string()));
    assert_eq!(kept.shader_specialization.len(), 1);
}

#[test]
fn defines_are_cleared_after_the_frame() {
    let mut world = world();
    let (pipeline, _) = vertex_only_pipeline(&mut world);
    let mut renderables = vec![
        renderable(1, vec![pipeline], &[]),
        renderable(2, vec![pipeline], &["A"]),
        renderable(3, vec![], &["A", "B", "C"]),
    ];
    frame(&mut world, &mut renderables);
    for renderable in &renderables {
        let specialization = &renderable.render_resource_assignments.pipeline_specialization;
        assert!(specialization.shader_specialization.is_empty());
        assert_eq!(specialization.shader_specialization.len(), 0);
        assert_eq!(specialization.primitive_topology, PrimitiveTopology::TriangleList);
    }
    assert_eq!(renderables[0].render_resource_assignments.id, rsid(1));
    assert_eq!(renderables[1].pipelines, vec![pipeline]);
    assert!(!renderables[2].is_instanced);
}

#[test]
fn table_is_rebuilt_every_frame() {
    let mut world = world();
    let (pipeline, _) = vertex_only_pipeline(&mut world);
    let mut renderables =
        vec![renderable(1, vec![pipeline], &[]), renderable(2, vec![pipeline], &[])];
    let outcomes = frame(&mut world, &mut renderables);
    let handle = *outcomes[0].result.as_ref().unwrap();
    assert_eq!(world.assignments.get(handle), Some(&vec![rsid(1), rsid(2)]));
    // The first entity is removed before the next frame.
    renderables.remove(0);
    let outcomes = frame(&mut world, &mut renderables);
    assert_eq!(outcomes.len(), 1);
    assert_eq!(*outcomes[0].result.as_ref().unwrap(), handle);
    assert_eq!(world.assignments.get(handle), Some(&vec![rsid(2)]));
    // A frame without entities leaves an empty table.
    renderables.clear();
    frame(&mut world, &mut renderables);
    assert!(world.assignments.assignments.is_empty());
    assert_eq!(world.assignments.get(handle), None);
}

#[test]
fn resolution_is_idempotent_across_frames() {
    let mut world = world();
    let (pipeline, _, _) = two_stage_pipeline(&mut world);
    let mut handles = Vec::new();
    for _ in 0..5 {
        let mut renderables = vec![renderable(1, vec![pipeline, pipeline], &["A"])];
        let outcomes = frame(&mut world, &mut renderables);
        assert_eq!(outcomes.len(), 2);
        for outcome in outcomes {
            handles.push(outcome.result.unwrap());
        }
    }
    assert!(handles.iter().all(|handle| *handle == handles[0]));
    assert_eq!(world.compiler.iter_compiled_pipelines(pipeline), Some(vec![handles[0]]));
    // One compilation for each of the two stages, in the first frame only.
    assert_eq!(world.service.calls, 2);
    assert_eq!(world.pipelines.assets.iter().count(), 2);
    assert_eq!(world.assignments.get(handles[0]), Some(&vec![rsid(1), rsid(1)]));
}

#[test]
fn pipeline_is_compiled_once_after_earlier_failures() {
    let mut world = world();
    let (pipeline, _) = vertex_only_pipeline(&mut world);
    let draw = draw_call(1, &["FLAKY", "A"], PrimitiveTopology::LineList);
    world.service.refuse = Some("FLAKY".to_string());
    for _ in 0..2 {
        assert!(resolve(&mut world, pipeline, &draw).is_err());
        assert_eq!(world.compiler.iter_compiled_pipelines(pipeline), Some(Vec::new()));
        assert_eq!(world.pipelines.assets.iter().count(), 1);
    }
    world.service.refuse = None;
    let first = resolve(&mut world, pipeline, &draw).unwrap();
    let stored = world.pipelines.assets.iter().count();
    assert_eq!(stored, 2);
    for _ in 0..4 {
        let again = draw_call(9, &["A", "FLAKY"], PrimitiveTopology::LineList);
        assert_eq!(resolve(&mut world, pipeline, &again).unwrap(), first);
        assert_eq!(world.compiler.iter_compiled_pipelines(pipeline), Some(vec![first]));
        assert_eq!(world.pipelines.assets.iter().count(), stored);
    }
    // Two refusals and one compilation; the hits ask nothing.
    assert_eq!(world.service.calls, 3);
    assert_eq!(
        world.service.requests,
        vec![vec!["A".to_string(), "FLAKY".to_string()]; 3]
    );
}

#[test]
fn failed_draw_call_is_dropped_and_the_others_go_on() {
    let mut world = world();
    world.service.refuse = Some("BROKEN".to_string());
    let (pipeline, _) = vertex_only_pipeline(&mut world);
    let missing = PipelineHandle { id: 4242 };
    let mut renderables = vec![
        renderable(1, vec![pipeline], &["BROKEN"]),
        renderable(2, vec![missing, pipeline], &["A"]),
        renderable(3, vec![pipeline], &["A"]),
    ];
    let outcomes = frame(&mut world, &mut renderables);
    assert_eq!(outcomes.len(), 4);
    assert!(matches!(outcomes[0].result, Err(PipelineError::Compile(_))));
    assert_eq!(outcomes[0].id, rsid(1));
    assert!(matches!(outcomes[1].result, Err(PipelineError::PipelineNotFound(_))));
    assert_eq!(outcomes[1].pipeline, missing);
    let handle = *outcomes[2].result.as_ref().unwrap();
    assert_eq!(*outcomes[3].result.as_ref().unwrap(), handle);
    assert_eq!(world.assignments.get(handle), Some(&vec![rsid(2), rsid(3)]));
    assert_eq!(world.assignments.assignments.len(), 1);
    // The defines of the entity whose draw call failed are cleared all the same.
    assert!(renderables[0]
        .render_resource_assignments
        .pipeline_specialization
        .shader_specialization
        .is_empty());
}

#[test]
fn one_draw_call_with_two_pipelines_is_assigned_to_both() {
    let mut world = world();
    let (first, _) = vertex_only_pipeline(&mut world);
    let (second, _, _) = two_stage_pipeline(&mut world);
    let draw = draw_call(9, &["A"], PrimitiveTopology::TriangleList);
    let outcomes = world.compiler.update_shader_assignments(
        &mut world.service,
        &world.reflector,
        &world.table,
        &mut world.assignments,
        &world.registry,
        &mut world.pipelines,
        &mut world.shaders,
        &vec![first, second],
        &draw,
    );
    assert_eq!(outcomes.len(), 2);
    let h1 = *outcomes[0].result.as_ref().unwrap();
    let h2 = *outcomes[1].result.as_ref().unwrap();
    assert_ne!(h1, h2);
    assert_eq!(world.assignments.get(h1), Some(&vec![rsid(9)]));
    assert_eq!(world.assignments.get(h2), Some(&vec![rsid(9)]));
    // The draw call itself is only read.
    assert!(draw.pipeline_specialization.shader_specialization.contains(&"A".to_string()));
}

#[test]
fn dynamic_buffer_marks_the_uniform_binding_dynamic() {
    let mut world = world();
    world.registry.known.push((
        RenderResource { id: 1 },
        ResourceInfo::Buffer(BufferInfo { size: 256, is_dynamic: true }),
    ));
    world.registry.known.push((RenderResource { id: 2 }, ResourceInfo::Texture));
    let (pipeline, _) = vertex_only_pipeline(&mut world);
    let mut dynamic = draw_call(1, &["A"], PrimitiveTopology::TriangleList);
    dynamic.set("Camera".to_string(), RenderResource { id: 1 });
    let mut textured = draw_call(2, &["B"], PrimitiveTopology::TriangleList);
    textured.set("Camera".to_string(), RenderResource { id: 2 });
    let unbound = draw_call(3, &["C"], PrimitiveTopology::TriangleList);
    let bind_type = |world: &World, handle: PipelineHandle| {
        let compiled =
            world.pipelines.assets.get(&bevy_asset::Handle::from_u128(handle.id)).unwrap();
        match &compiled.layout {
            PipelineLayoutType::Reflected(Some(layout)) => layout.bind_groups[0].bindings[0].bind_type,
            other => panic!("unexpected layout {:?}", other),
        }
    };
    let h1 = resolve(&mut world, pipeline, &dynamic).unwrap();
    let h2 = resolve(&mut world, pipeline, &textured).unwrap();
    let h3 = resolve(&mut world, pipeline, &unbound).unwrap();
    assert_eq!(bind_type(&world, h1), BindType::Uniform { dynamic: true, size: 64 });
    assert_eq!(bind_type(&world, h2), BindType::Uniform { dynamic: false, size: 64 });
    assert_eq!(bind_type(&world, h3), BindType::Uniform { dynamic: false, size: 64 });
}

#[test]
fn reflected_vertex_buffers_take_offsets_from_the_table() {
    let mut world = world();
    world.table.set(VertexBufferDescriptor {
        name: "Vertex".to_string(),
        stride: 32,
        step_mode: InputStepMode::Instance,
        attributes: vec![
            VertexAttributeDescriptor {
                name: "Vertex_Normal".to_string(),
                offset: 0,
                format: VertexFormat::Float3,
                shader_location: 7,
            },
            VertexAttributeDescriptor {
                name: "Vertex_Position".to_string(),
                offset: 12,
                format: VertexFormat::Float3,
                shader_location: 8,
            },
        ],
    });
    let (pipeline, _) = vertex_only_pipeline(&mut world);
    let draw = draw_call(1, &[], PrimitiveTopology::TriangleList);
    let handle = resolve(&mut world, pipeline, &draw).unwrap();
    let compiled = world.pipelines.assets.get(&bevy_asset::Handle::from_u128(handle.id)).unwrap();
    let layout = match &compiled.layout {
        PipelineLayoutType::Reflected(Some(layout)) => layout,
        other => panic!("unexpected layout {:?}", other),
    };
    let buffer = &layout.vertex_buffer_descriptors[0];
    assert_eq!(buffer.stride, 32);
    assert_eq!(buffer.step_mode, InputStepMode::Vertex);
    assert_eq!(buffer.attributes.len(), 1);
    assert_eq!(buffer.attributes[0].offset, 12);
    assert_eq!(buffer.attributes[0].format, VertexFormat::Float3);
    assert_eq!(buffer.attributes[0].shader_location, 0);
}
