use bevy_asset::{Assets, Handle};
use pipeline_compiler::asset_store::{PipelineStore, ShaderStore};
use pipeline_compiler::error::PipelineError;
use pipeline_compiler::handle::{PipelineHandle, ShaderHandle};
use pipeline_compiler::layout::{
    BindGroupDescriptor, BindType, BindingDescriptor, InputStepMode, ShaderLayout,
    VertexAttributeDescriptor, VertexBufferDescriptor, VertexBufferDescriptors, VertexFormat,
};
use pipeline_compiler::pipeline::{
    IndexFormat, PipelineDescriptor, PipelineLayoutType, ShaderStages,
};
use pipeline_compiler::pipeline_compiler::{
    mark_dynamic_bindings, PipelineAssignments, PipelineCompiler,
};
use pipeline_compiler::render_resource::{
    BufferInfo, RenderResource, RenderResourceAssignments, RenderResourceAssignmentsId,
    RenderResourceContext, ResourceInfo,
};
use pipeline_compiler::shader::{
    CompileError, LayoutReflector, Shader, ShaderCompiler, ShaderSource, ShaderStage,
};
use pipeline_compiler::specialization::{
    PipelineSpecialization, PrimitiveTopology, ShaderSpecialization,
};
use std::cell::Cell;

/// A reflector that counts how often it is asked and reports the words of the binary
/// as binding indices of one group.
struct EchoReflector {
    asked: Cell<usize>,
}

impl LayoutReflector for EchoReflector {
    fn reflect_layout(&self, spirv: &Vec<u32>) -> Option<ShaderLayout> {
        self.asked.set(self.asked.get() + 1);
        if spirv.is_empty() {
            return None;
        }
        Some(ShaderLayout {
            bind_groups: vec![BindGroupDescriptor {
                index: 0,
                bindings: spirv
                    .iter()
                    .map(|word| BindingDescriptor {
                        name: format!("b{}", word),
                        index: *word,
                        bind_type: BindType::Uniform { dynamic: false, size: 4 },
                    })
                    .collect(),
            }],
            vertex_buffer_descriptors: vec![VertexBufferDescriptor {
                name: format!("v{}", spirv[0]),
                stride: 4,
                step_mode: InputStepMode::Vertex,
                attributes: vec![VertexAttributeDescriptor {
                    name: "a".to_string(),
                    offset: 1,
                    format: VertexFormat::Float,
                    shader_location: 0,
                }],
            }],
            entry_point: "main".to_string(),
        })
    }
}

/// A registry with one dynamic buffer, one static buffer and one texture.
struct SmallRegistry;

impl RenderResourceContext for SmallRegistry {
    fn resource_info(&self, resource: RenderResource) -> Option<ResourceInfo> {
        match resource.id {
            1 => Some(ResourceInfo::Buffer(BufferInfo { size: 64, is_dynamic: true })),
            2 => Some(ResourceInfo::Buffer(BufferInfo { size: 64, is_dynamic: false })),
            3 => Some(ResourceInfo::Texture),
            4 => Some(ResourceInfo::Sampler),
            _ => None,
        }
    }

    fn get_resource_info(&self, resource: RenderResource) -> Option<ResourceInfo> {
        self.resource_info(resource)
    }
}

fn shader_store() -> ShaderStore {
    ShaderStore { assets: Assets::default() }
}

fn put_shader(store: &mut ShaderStore, shader: Shader) -> ShaderHandle {
    ShaderHandle { id: store.assets.add(shader).id.0.as_u128() }
}

fn defs(names: &[&str]) -> ShaderSpecialization {
    let mut specialization = ShaderSpecialization::new();
    for name in names {
        specialization.insert(name.to_string());
    }
    specialization
}

fn uniform(name: &str, index: u32, dynamic: bool) -> BindingDescriptor {
    BindingDescriptor {
        name: name.to_string(),
        index,
        bind_type: BindType::Uniform { dynamic, size: 8 },
    }
}

fn bound(bindings: &[(&str, u64)]) -> RenderResourceAssignments {
    let mut assignments = RenderResourceAssignments::new(RenderResourceAssignmentsId { id: 1 });
    for (name, id) in bindings {
        assignments.set(name.to_string(), RenderResource { id: *id });
    }
    assignments
}

#[test]
fn new_compiler_has_empty_caches() {
    let compiler = PipelineCompiler::new();
    assert!(compiler.shader_source_to_compiled.is_empty());
    assert!(compiler.pipeline_source_to_compiled.is_empty());
    assert_eq!(compiler.find_compiled_shader(ShaderHandle { id: 1 }, &defs(&[])), None);
    let specialization = PipelineSpecialization::default();
    assert_eq!(compiler.find_compiled_pipeline(PipelineHandle { id: 1 }, &specialization), None);
}

#[test]
fn recorded_variants_are_found_by_specialization() {
    let mut compiler = PipelineCompiler::new();
    let source = ShaderHandle { id: 10 };
    compiler.record_compiled_shader(source, &defs(&["A"]), ShaderHandle { id: 11 });
    compiler.record_compiled_shader(source, &defs(&["B", "A"]), ShaderHandle { id: 12 });
    compiler.record_compiled_shader(ShaderHandle { id: 20 }, &defs(&["A"]), ShaderHandle { id: 21 });
    assert_eq!(compiler.find_compiled_shader(source, &defs(&["A"])), Some(ShaderHandle { id: 11 }));
    assert_eq!(
        compiler.find_compiled_shader(source, &defs(&["A", "B"])),
        Some(ShaderHandle { id: 12 })
    );
    assert_eq!(compiler.find_compiled_shader(source, &defs(&["B"])), None);
    assert_eq!(
        compiler.find_compiled_shader(ShaderHandle { id: 20 }, &defs(&["A"])),
        Some(ShaderHandle { id: 21 })
    );
    assert_eq!(compiler.find_compiled_shader(ShaderHandle { id: 30 }, &defs(&["A"])), None);
    // A scan stops at the oldest variant of a specialization.
    compiler.record_compiled_shader(source, &defs(&["A"]), ShaderHandle { id: 13 });
    assert_eq!(compiler.find_compiled_shader(source, &defs(&["A"])), Some(ShaderHandle { id: 11 }));
}

#[test]
fn recorded_pipeline_variants_are_found_by_defines_and_topology() {
    let mut compiler = PipelineCompiler::new();
    let source = PipelineHandle { id: 1 };
    let of = |names: &[&str], topology: PrimitiveTopology| PipelineSpecialization {
        shader_specialization: defs(names),
        primitive_topology: topology,
    };
    compiler.ensure_pipeline_source(source);
    assert_eq!(compiler.iter_compiled_pipelines(source), Some(vec![]));
    compiler.record_compiled_pipeline(
        source,
        &of(&["A"], PrimitiveTopology::TriangleList),
        PipelineHandle { id: 2 },
    );
    compiler.record_compiled_pipeline(
        source,
        &of(&["A"], PrimitiveTopology::PointList),
        PipelineHandle { id: 3 },
    );
    compiler.ensure_pipeline_source(source);
    assert_eq!(
        compiler.iter_compiled_pipelines(source),
        Some(vec![PipelineHandle { id: 2 }, PipelineHandle { id: 3 }])
    );
    assert_eq!(
        compiler.find_compiled_pipeline(source, &of(&["A"], PrimitiveTopology::PointList)),
        Some(PipelineHandle { id: 3 })
    );
    assert_eq!(
        compiler.find_compiled_pipeline(source, &of(&["A"], PrimitiveTopology::LineList)),
        None
    );
    assert_eq!(
        compiler.find_compiled_pipeline(source, &of(&[], PrimitiveTopology::PointList)),
        None
    );
}

#[test]
fn store_compiled_shader_stores_the_binary_and_records_it() {
    let mut compiler = PipelineCompiler::new();
    let mut store = shader_store();
    let source = put_shader(&mut store, Shader::from_glsl(ShaderStage::Compute, "x".to_string()));
    let compiled = compiler.store_compiled_shader(
        &mut store,
        source,
        &defs(&["A"]),
        ShaderStage::Compute,
        vec![7, 8, 9],
    );
    assert_ne!(compiled, source);
    assert_eq!(compiler.find_compiled_shader(source, &defs(&["A"])), Some(compiled));
    let stored = store.assets.get(&Handle::from_u128(compiled.id)).unwrap();
    assert_eq!(stored.stage, ShaderStage::Compute);
    match &stored.source {
        ShaderSource::Spirv(words) => assert_eq!(words, &vec![7, 8, 9]),
        ShaderSource::Glsl(_) => panic!("a compiled shader is a binary"),
    }
    assert_eq!(store.assets.iter().count(), 2);
}

#[test]
fn store_compiled_pipeline_stores_the_descriptor_and_records_it() {
    let mut compiler = PipelineCompiler::new();
    let mut store = PipelineStore { assets: Assets::default() };
    let stages = ShaderStages { vertex: ShaderHandle { id: 5 }, fragment: None };
    let mut descriptor = PipelineDescriptor::new(stages);
    descriptor.sample_count = 8;
    let specialization = PipelineSpecialization {
        shader_specialization: defs(&["A"]),
        primitive_topology: PrimitiveTopology::TriangleStrip,
    };
    let source = PipelineHandle { id: 99 };
    let compiled = compiler.store_compiled_pipeline(&mut store, source, &specialization, descriptor);
    assert_eq!(compiler.find_compiled_pipeline(source, &specialization), Some(compiled));
    let stored = store.assets.get(&Handle::from_u128(compiled.id)).unwrap();
    assert_eq!(stored.sample_count, 8);
    assert_eq!(stored.shader_stages, stages);
}

#[test]
fn new_descriptor_has_the_stated_defaults() {
    let stages = ShaderStages {
        vertex: ShaderHandle { id: 1 },
        fragment: Some(ShaderHandle { id: 2 }),
    };
    let descriptor = PipelineDescriptor::new(stages);
    assert_eq!(descriptor.name, None);
    assert!(matches!(descriptor.layout, PipelineLayoutType::Reflected(None)));
    assert_eq!(descriptor.shader_stages, stages);
    assert_eq!(descriptor.primitive_topology, PrimitiveTopology::TriangleList);
    assert_eq!(descriptor.index_format, IndexFormat::Uint32);
    assert_eq!(descriptor.sample_count, 1);
    assert_eq!(descriptor.sample_mask, u32::MAX);
    assert!(!descriptor.alpha_to_coverage_enabled);
    let copy = descriptor.clone();
    assert_eq!(copy.shader_stages, stages);
    assert_eq!(copy.sample_mask, u32::MAX);
}

#[test]
fn source_text_has_no_layout_and_the_reflector_is_not_asked() {
    let reflector = EchoReflector { asked: Cell::new(0) };
    let source = Shader::from_glsl(ShaderStage::Vertex, "void main() {}".to_string());
    assert!(source.reflect_layout(&reflector).is_none());
    assert_eq!(reflector.asked.get(), 0);
    let binary = Shader::from_spirv(ShaderStage::Vertex, vec![3]);
    let layout = binary.reflect_layout(&reflector).unwrap();
    assert_eq!(layout.bind_groups[0].bindings[0].index, 3);
    assert_eq!(reflector.asked.get(), 1);
    assert!(Shader::from_spirv(ShaderStage::Vertex, vec![]).reflect_layout(&reflector).is_none());
    assert!(!source.is_binary());
    assert!(binary.is_binary());
}

#[test]
fn marking_touches_only_uniforms_bound_to_buffers() {
    let draw = bound(&[("Dynamic", 1), ("Static", 2), ("Texture", 3), ("Unknown", 9)]);
    let mut group = BindGroupDescriptor {
        index: 3,
        bindings: vec![
            uniform("Dynamic", 0, false),
            uniform("Static", 1, true),
            uniform("Texture", 2, true),
            uniform("Unknown", 3, true),
            uniform("Unbound", 4, true),
            BindingDescriptor { name: "Dynamic".to_string(), index: 5, bind_type: BindType::Sampler },
            BindingDescriptor {
                name: "Dynamic".to_string(),
                index: 6,
                bind_type: BindType::SampledTexture { multisampled: true },
            },
        ],
    };
    mark_dynamic_bindings(&mut group, &SmallRegistry, &draw);
    let types: Vec<BindType> = group.bindings.iter().map(|binding| binding.bind_type).collect();
    assert_eq!(
        types,
        vec![
            BindType::Uniform { dynamic: true, size: 8 },
            BindType::Uniform { dynamic: false, size: 8 },
            BindType::Uniform { dynamic: true, size: 8 },
            BindType::Uniform { dynamic: true, size: 8 },
            BindType::Uniform { dynamic: true, size: 8 },
            BindType::Sampler,
            BindType::SampledTexture { multisampled: true },
        ]
    );
    assert_eq!(group.index, 3);
    assert_eq!(group.bindings[0].name, "Dynamic");
    assert_eq!(group.bindings[4].index, 4);
}

#[test]
fn layout_from_reflection_merges_syncs_and_marks() {
    let reflector = EchoReflector { asked: Cell::new(0) };
    let vertex = reflector.reflect_layout(&vec![1, 2]).unwrap();
    let fragment = reflector.reflect_layout(&vec![2, 3]).unwrap();
    let mut table = VertexBufferDescriptors::new();
    table.set(VertexBufferDescriptor {
        name: "v1".to_string(),
        stride: 20,
        step_mode: InputStepMode::Vertex,
        attributes: vec![VertexAttributeDescriptor {
            name: "a".to_string(),
            offset: 16,
            format: VertexFormat::Uint,
            shader_location: 3,
        }],
    });
    let draw = bound(&[("b3", 1)]);
    let layout = PipelineCompiler::layout_from_reflection(
        &vec![vertex, fragment],
        &table,
        &SmallRegistry,
        &draw,
    );
    assert_eq!(layout.bind_groups.len(), 1);
    let bindings: Vec<(u32, BindType)> = layout.bind_groups[0]
        .bindings
        .iter()
        .map(|binding| (binding.index, binding.bind_type))
        .collect();
    assert_eq!(
        bindings,
        vec![
            (1, BindType::Uniform { dynamic: false, size: 4 }),
            (2, BindType::Uniform { dynamic: false, size: 4 }),
            (3, BindType::Uniform { dynamic: true, size: 4 }),
        ]
    );
    assert_eq!(layout.vertex_buffer_descriptors.len(), 1);
    assert_eq!(layout.vertex_buffer_descriptors[0].name, "v1");
    assert_eq!(layout.vertex_buffer_descriptors[0].stride, 20);
    assert_eq!(layout.vertex_buffer_descriptors[0].attributes[0].offset, 16);
    assert_eq!(layout.vertex_buffer_descriptors[0].attributes[0].format, VertexFormat::Uint);
}

#[test]
fn reflect_layout_reports_the_missing_shader_first() {
    let reflector = EchoReflector { asked: Cell::new(0) };
    let mut store = shader_store();
    let vertex = put_shader(&mut store, Shader::from_spirv(ShaderStage::Vertex, vec![1]));
    let missing = ShaderHandle { id: 404 };
    let table = VertexBufferDescriptors::new();
    let draw = bound(&[]);
    let mut descriptor =
        PipelineDescriptor::new(ShaderStages { vertex, fragment: Some(missing) });
    let result = PipelineCompiler::reflect_layout(
        &store,
        &table,
        &mut descriptor,
        &reflector,
        &SmallRegistry,
        &draw,
    );
    match result {
        Err(PipelineError::ShaderNotFound(handle)) => assert_eq!(handle, missing),
        other => panic!("unexpected result {:?}", other),
    }
    assert_eq!(reflector.asked.get(), 0);
    assert!(matches!(descriptor.layout, PipelineLayoutType::Reflected(None)));
}

#[test]
fn reflect_layout_fails_on_a_fragment_shader_that_is_source_text() {
    let reflector = EchoReflector { asked: Cell::new(0) };
    let mut store = shader_store();
    let vertex = put_shader(&mut store, Shader::from_spirv(ShaderStage::Vertex, vec![1]));
    let fragment =
        put_shader(&mut store, Shader::from_glsl(ShaderStage::Fragment, "void main() {}".to_string()));
    let table = VertexBufferDescriptors::new();
    let draw = bound(&[]);
    let mut descriptor =
        PipelineDescriptor::new(ShaderStages { vertex, fragment: Some(fragment) });
    let result = PipelineCompiler::reflect_layout(
        &store,
        &table,
        &mut descriptor,
        &reflector,
        &SmallRegistry,
        &draw,
    );
    match result {
        Err(PipelineError::Reflection(handle)) => assert_eq!(handle, fragment),
        other => panic!("unexpected result {:?}", other),
    }
    assert!(matches!(descriptor.layout, PipelineLayoutType::Reflected(None)));
}

#[test]
fn reflect_layout_attaches_the_merged_layout() {
    let reflector = EchoReflector { asked: Cell::new(0) };
    let mut store = shader_store();
    let vertex = put_shader(&mut store, Shader::from_spirv(ShaderStage::Vertex, vec![4, 5]));
    let fragment = put_shader(&mut store, Shader::from_spirv(ShaderStage::Fragment, vec![5, 6]));
    let table = VertexBufferDescriptors::new();
    let draw = bound(&[]);
    let mut descriptor =
        PipelineDescriptor::new(ShaderStages { vertex, fragment: Some(fragment) });
    descriptor.sample_count = 2;
    let result = PipelineCompiler::reflect_layout(
        &store,
        &table,
        &mut descriptor,
        &reflector,
        &SmallRegistry,
        &draw,
    );
    assert!(result.is_ok());
    assert_eq!(reflector.asked.get(), 2);
    assert_eq!(descriptor.sample_count, 2);
    match &descriptor.layout {
        PipelineLayoutType::Reflected(Some(layout)) => {
            let indices: Vec<u32> =
                layout.bind_groups[0].bindings.iter().map(|binding| binding.index).collect();
            assert_eq!(indices, vec![4, 5, 6]);
            assert_eq!(layout.vertex_buffer_descriptors[0].name, "v4");
        },
        other => panic!("unexpected layout {:?}", other),
    }
}

#[test]
fn assignment_table_appends_in_order() {
    let mut table = PipelineAssignments::new();
    let first = PipelineHandle { id: 1 };
    let second = PipelineHandle { id: 2 };
    assert_eq!(table.get(first), None);
    table.assign(first, RenderResourceAssignmentsId { id: 10 });
    table.assign(second, RenderResourceAssignmentsId { id: 20 });
    table.assign(first, RenderResourceAssignmentsId { id: 30 });
    table.assign(first, RenderResourceAssignmentsId { id: 10 });
    assert_eq!(
        table.get(first),
        Some(&vec![
            RenderResourceAssignmentsId { id: 10 },
            RenderResourceAssignmentsId { id: 30 },
            RenderResourceAssignmentsId { id: 10 },
        ])
    );
    assert_eq!(table.get(second), Some(&vec![RenderResourceAssignmentsId { id: 20 }]));
    table.reset();
    assert_eq!(table.get(first), None);
    assert!(table.assignments.is_empty());
}

/// A compile service that remembers what it was handed and answers with one word for
/// each define.
struct RecordingCompiler {
    handed: Vec<(String, ShaderStage, Vec<String>)>,
}

impl ShaderCompiler for RecordingCompiler {
    fn compile_with_defines(
        &mut self,
        shader: &Shader,
        shader_defs: &Vec<String>,
    ) -> Result<Vec<u32>, CompileError> {
        let text = match &shader.source {
            ShaderSource::Glsl(text) => text.clone(),
            ShaderSource::Spirv(_) => String::from("binary"),
        };
        self.handed.push((text, shader.stage, shader_defs.clone()));
        Ok(shader_defs.iter().map(|def| def.len() as u32).collect())
    }
}

#[test]
fn two_runs_with_the_same_defines_ask_the_service_alike() {
    let mut asked = Vec::new();
    for order in [["FOG", "SKINNED", "ALBEDO"], ["SKINNED", "ALBEDO", "FOG"]] {
        let mut compiler = PipelineCompiler::new();
        let mut store = shader_store();
        let mut service = RecordingCompiler { handed: Vec::new() };
        let source =
            put_shader(&mut store, Shader::from_glsl(ShaderStage::Vertex, "void v() {}".to_string()));
        let compiled =
            compiler.compile_shader(&mut service, &mut store, source, &defs(&order)).unwrap();
        let stored = store.assets.get(&Handle::from_u128(compiled.id)).unwrap();
        match &stored.source {
            ShaderSource::Spirv(words) => assert_eq!(words, &vec![6, 3, 7]),
            ShaderSource::Glsl(_) => panic!("a compiled shader is a binary"),
        }
        asked.push(service.handed);
    }
    assert_eq!(asked[0], asked[1]);
    assert_eq!(
        asked[0],
        vec![(
            "void v() {}".to_string(),
            ShaderStage::Vertex,
            vec!["ALBEDO".to_string(), "FOG".to_string(), "SKINNED".to_string()],
        )]
    );
}

#[test]
fn service_is_handed_the_stored_shader_and_its_answer_is_stored() {
    let mut compiler = PipelineCompiler::new();
    let mut store = shader_store();
    let mut service = RecordingCompiler { handed: Vec::new() };
    let source =
        put_shader(&mut store, Shader::from_glsl(ShaderStage::Fragment, "void f() {}".to_string()));
    let compiled = compiler
        .compile_shader(&mut service, &mut store, source, &defs(&["LONGER", "A", "MID"]))
        .unwrap();
    assert_eq!(
        service.handed,
        vec![(
            "void f() {}".to_string(),
            ShaderStage::Fragment,
            vec!["A".to_string(), "LONGER".to_string(), "MID".to_string()],
        )]
    );
    let stored = store.assets.get(&Handle::from_u128(compiled.id)).unwrap();
    match &stored.source {
        ShaderSource::Spirv(words) => assert_eq!(words, &vec![1, 6, 3]),
        ShaderSource::Glsl(_) => panic!("a compiled shader is a binary"),
    }
    assert_eq!(stored.stage, ShaderStage::Fragment);
}

#[test]
fn cached_pipeline_asks_neither_the_service_nor_the_reflector() {
    let mut compiler = PipelineCompiler::new();
    let mut shaders = shader_store();
    let mut pipelines = PipelineStore { assets: Assets::default() };
    let mut service = RecordingCompiler { handed: Vec::new() };
    let reflector = EchoReflector { asked: Cell::new(0) };
    let table = VertexBufferDescriptors::new();
    let vertex =
        put_shader(&mut shaders, Shader::from_glsl(ShaderStage::Vertex, "void v() {}".to_string()));
    let handle = pipelines.assets.add(PipelineDescriptor::new(ShaderStages { vertex, fragment: None }));
    let source = PipelineHandle { id: handle.id.0.as_u128() };
    let mut draw = bound(&[]);
    draw.pipeline_specialization.shader_specialization.insert("AB".to_string());
    let first = compiler
        .resolve_pipeline(
            &mut service,
            &reflector,
            &table,
            &SmallRegistry,
            &mut pipelines,
            &mut shaders,
            source,
            &draw,
        )
        .unwrap();
    assert_eq!(service.handed.len(), 1);
    assert_eq!(reflector.asked.get(), 1);
    let stored_pipelines = pipelines.assets.iter().count();
    let stored_shaders = shaders.assets.iter().count();
    let mut table_of_frame = PipelineAssignments::new();
    let outcomes = compiler.update_shader_assignments(
        &mut service,
        &reflector,
        &table,
        &mut table_of_frame,
        &SmallRegistry,
        &mut pipelines,
        &mut shaders,
        &vec![source, source],
        &draw,
    );
    assert_eq!(outcomes.len(), 2);
    assert!(outcomes.iter().all(|outcome| outcome.result.as_ref().ok() == Some(&first)));
    assert_eq!(service.handed.len(), 1);
    assert_eq!(reflector.asked.get(), 1);
    assert_eq!(pipelines.assets.iter().count(), stored_pipelines);
    assert_eq!(shaders.assets.iter().count(), stored_shaders);
    assert_eq!(compiler.iter_compiled_pipelines(source), Some(vec![first]));
    assert_eq!(table_of_frame.get(first).map(|list| list.len()), Some(2));
}

#[test]
fn fragment_binary_without_layout_fails_after_the_vertex_stage_reflected() {
    let reflector = EchoReflector { asked: Cell::new(0) };
    let mut store = shader_store();
    let vertex = put_shader(&mut store, Shader::from_spirv(ShaderStage::Vertex, vec![1]));
    let fragment = put_shader(&mut store, Shader::from_spirv(ShaderStage::Fragment, vec![]));
    let table = VertexBufferDescriptors::new();
    let draw = bound(&[]);
    let mut descriptor =
        PipelineDescriptor::new(ShaderStages { vertex, fragment: Some(fragment) });
    let result = PipelineCompiler::reflect_layout(
        &store,
        &table,
        &mut descriptor,
        &reflector,
        &SmallRegistry,
        &draw,
    );
    match result {
        Err(PipelineError::Reflection(handle)) => assert_eq!(handle, fragment),
        other => panic!("unexpected result {:?}", other),
    }
    assert_eq!(reflector.asked.get(), 2);
    assert!(matches!(descriptor.layout, PipelineLayoutType::Reflected(None)));
}
