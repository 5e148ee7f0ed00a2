use pipeline_compiler::layout::{
    find_attribute, find_bind_group, has_binding_index, merge_bind_group, merge_bind_groups,
    BindGroupDescriptor, BindType, BindingDescriptor, InputStepMode, PipelineLayout, ShaderLayout,
    VertexAttributeDescriptor, VertexBufferDescriptor, VertexBufferDescriptors, VertexFormat,
};

fn binding(name: &str, index: u32) -> BindingDescriptor {
    BindingDescriptor {
        name: name.to_string(),
        index,
        bind_type: BindType::Uniform { dynamic: false, size: 16 },
    }
}

fn sampler(name: &str, index: u32) -> BindingDescriptor {
    BindingDescriptor { name: name.to_string(), index, bind_type: BindType::Sampler }
}

fn group(index: u32, bindings: Vec<BindingDescriptor>) -> BindGroupDescriptor {
    BindGroupDescriptor { index, bindings }
}

fn attribute(name: &str, offset: u64, format: VertexFormat, location: u32) -> VertexAttributeDescriptor {
    VertexAttributeDescriptor { name: name.to_string(), offset, format, shader_location: location }
}

fn buffer(name: &str, stride: u64, attributes: Vec<VertexAttributeDescriptor>) -> VertexBufferDescriptor {
    VertexBufferDescriptor {
        name: name.to_string(),
        stride,
        step_mode: InputStepMode::Vertex,
        attributes,
    }
}

fn stage(groups: Vec<BindGroupDescriptor>, buffers: Vec<VertexBufferDescriptor>) -> ShaderLayout {
    ShaderLayout {
        bind_groups: groups,
        vertex_buffer_descriptors: buffers,
        entry_point: "main".to_string(),
    }
}

fn shape(layout: &PipelineLayout) -> Vec<(u32, Vec<(u32, String)>)> {
    layout
        .bind_groups
        .iter()
        .map(|group| {
            (
                group.index,
                group.bindings.iter().map(|binding| (binding.index, binding.name.clone())).collect(),
            )
        })
        .collect()
}

#[test]
fn merged_layout_is_the_union_of_the_stages() {
    let vertex = stage(
        vec![group(0, vec![binding("Camera", 0)]), group(1, vec![binding("Object", 0)])],
        vec![buffer("Vertex", 0, vec![])],
    );
    let fragment = stage(
        vec![
            group(1, vec![binding("Object", 0), sampler("Albedo_sampler", 2)]),
            group(2, vec![binding("Lights", 0)]),
        ],
        vec![buffer("Ignored", 0, vec![])],
    );
    let layout = PipelineLayout::from_shader_layouts(&vec![vertex, fragment]);
    assert_eq!(
        shape(&layout),
        vec![
            (0, vec![(0, "Camera".to_string())]),
            (1, vec![(0, "Object".to_string()), (2, "Albedo_sampler".to_string())]),
            (2, vec![(0, "Lights".to_string())]),
        ]
    );
    // The vertex buffers are those of the first stage.
    assert_eq!(layout.vertex_buffer_descriptors.len(), 1);
    assert_eq!(layout.vertex_buffer_descriptors[0].name, "Vertex");
}

#[test]
fn binding_present_in_both_stages_is_held_once() {
    let vertex = stage(vec![group(0, vec![binding("Camera", 0)])], vec![]);
    let fragment = stage(vec![group(0, vec![binding("Camera", 0)])], vec![]);
    let layout = PipelineLayout::from_shader_layouts(&vec![vertex, fragment]);
    assert_eq!(shape(&layout), vec![(0, vec![(0, "Camera".to_string())])]);
}

#[test]
fn earlier_stage_wins_where_binding_indices_collide() {
    let vertex = stage(vec![group(0, vec![binding("FromVertex", 3)])], vec![]);
    let fragment = stage(vec![group(0, vec![sampler("FromFragment", 3)])], vec![]);
    let layout = PipelineLayout::from_shader_layouts(&vec![vertex, fragment]);
    assert_eq!(shape(&layout), vec![(0, vec![(3, "FromVertex".to_string())])]);
    assert_eq!(
        layout.bind_groups[0].bindings[0].bind_type,
        BindType::Uniform { dynamic: false, size: 16 }
    );
}

#[test]
fn single_stage_merges_to_itself() {
    let vertex = stage(
        vec![group(4, vec![binding("A", 1), binding("B", 0)])],
        vec![buffer("Vertex", 12, vec![attribute("P", 0, VertexFormat::Float3, 0)])],
    );
    let layout = PipelineLayout::from_shader_layouts(&vec![vertex]);
    assert_eq!(shape(&layout), vec![(4, vec![(1, "A".to_string()), (0, "B".to_string())])]);
    assert_eq!(layout.vertex_buffer_descriptors[0].stride, 12);
    assert_eq!(layout.vertex_buffer_descriptors[0].attributes[0].name, "P");
}

#[test]
fn no_stage_gives_an_empty_layout() {
    let layout = PipelineLayout::from_shader_layouts(&vec![]);
    assert!(layout.bind_groups.is_empty());
    assert!(layout.vertex_buffer_descriptors.is_empty());
}

#[test]
fn repeated_binding_index_within_one_stage_is_held_once() {
    let vertex = stage(vec![group(0, vec![binding("First", 0), binding("Second", 0)])], vec![]);
    let layout = PipelineLayout::from_shader_layouts(&vec![vertex]);
    assert_eq!(shape(&layout), vec![(0, vec![(0, "First".to_string())])]);
}

#[test]
fn merge_bind_group_appends_or_joins() {
    let mut groups = vec![group(0, vec![binding("A", 0)])];
    merge_bind_group(&mut groups, &group(1, vec![binding("B", 0)]));
    merge_bind_group(&mut groups, &group(0, vec![binding("C", 1), binding("A2", 0)]));
    assert_eq!(groups.len(), 2);
    assert_eq!(groups[0].index, 0);
    assert_eq!(groups[0].bindings.len(), 2);
    assert_eq!(groups[0].bindings[1].name, "C");
    assert_eq!(groups[1].index, 1);
    let mut more = Vec::new();
    merge_bind_groups(&mut more, &groups);
    assert_eq!(more.len(), 2);
    assert_eq!(more[0].bindings.len(), 2);
}

#[test]
fn searches_find_the_first_match() {
    let groups = vec![group(3, vec![]), group(5, vec![binding("X", 2)]), group(3, vec![])];
    assert_eq!(find_bind_group(&groups, 3), Some(0));
    assert_eq!(find_bind_group(&groups, 5), Some(1));
    assert_eq!(find_bind_group(&groups, 4), None);
    assert!(has_binding_index(&groups[1].bindings, 2));
    assert!(!has_binding_index(&groups[1].bindings, 0));
    assert!(!has_binding_index(&groups[0].bindings, 2));
    let attributes = vec![
        attribute("N", 0, VertexFormat::Float3, 0),
        attribute("P", 12, VertexFormat::Float3, 1),
        attribute("N", 24, VertexFormat::Float2, 2),
    ];
    assert_eq!(find_attribute(&attributes, &"N".to_string()), Some(0));
    assert_eq!(find_attribute(&attributes, &"P".to_string()), Some(1));
    assert_eq!(find_attribute(&attributes, &"Q".to_string()), None);
}

#[test]
fn sync_takes_stride_offsets_and_formats_from_the_table() {
    let mut table = VertexBufferDescriptors::new();
    table.set(buffer(
        "Vertex",
        32,
        vec![
            attribute("Vertex_Position", 0, VertexFormat::Float3, 9),
            attribute("Vertex_Normal", 12, VertexFormat::Float3, 9),
            attribute("Vertex_Uv", 24, VertexFormat::Float2, 9),
        ],
    ));
    let mut layout = PipelineLayout {
        bind_groups: vec![group(0, vec![binding("Camera", 0)])],
        vertex_buffer_descriptors: vec![
            buffer(
                "Vertex",
                0,
                vec![
                    attribute("Vertex_Uv", 0, VertexFormat::Float4, 2),
                    attribute("Vertex_Position", 0, VertexFormat::Float4, 0),
                    attribute("Vertex_Color", 5, VertexFormat::Uint, 3),
                ],
            ),
            buffer("Instance", 7, vec![attribute("I_Model", 3, VertexFormat::Float4, 4)]),
        ],
    };
    layout.sync_vertex_buffer_descriptors(&table);
    let vertex = &layout.vertex_buffer_descriptors[0];
    assert_eq!(vertex.name, "Vertex");
    assert_eq!(vertex.stride, 32);
    assert_eq!(vertex.attributes[0].offset, 24);
    assert_eq!(vertex.attributes[0].format, VertexFormat::Float2);
    assert_eq!(vertex.attributes[0].shader_location, 2);
    assert_eq!(vertex.attributes[1].offset, 0);
    assert_eq!(vertex.attributes[1].format, VertexFormat::Float3);
    assert_eq!(vertex.attributes[1].shader_location, 0);
    // An attribute that the table does not name stays as reflected.
    assert_eq!(vertex.attributes[2].offset, 5);
    assert_eq!(vertex.attributes[2].format, VertexFormat::Uint);
    // A vertex buffer that the table does not name stays as reflected.
    let instance = &layout.vertex_buffer_descriptors[1];
    assert_eq!(instance.stride, 7);
    assert_eq!(instance.attributes[0].offset, 3);
    // The bind groups are not touched.
    assert_eq!(layout.bind_groups.len(), 1);
    assert_eq!(layout.bind_groups[0].bindings[0].name, "Camera");
}

#[test]
fn table_set_replaces_the_descriptor_of_the_same_name() {
    let mut table = VertexBufferDescriptors::new();
    assert!(table.get(&"Vertex".to_string()).is_none());
    assert_eq!(table.position(&"Vertex".to_string()), None);
    table.set(buffer("Vertex", 12, vec![]));
    table.set(buffer("Instance", 64, vec![]));
    table.set(buffer("Vertex", 24, vec![]));
    assert_eq!(table.descriptors.len(), 2);
    assert_eq!(table.position(&"Vertex".to_string()), Some(0));
    assert_eq!(table.position(&"Instance".to_string()), Some(1));
    assert_eq!(table.get(&"Vertex".to_string()).unwrap().stride, 24);
    assert_eq!(table.get(&"Instance".to_string()).unwrap().stride, 64);
}

#[test]
fn layout_clone_copies_everything() {
    let layout = PipelineLayout {
        bind_groups: vec![group(2, vec![binding("Camera", 1), sampler("S", 4)])],
        vertex_buffer_descriptors: vec![buffer(
            "Vertex",
            16,
            vec![attribute("P", 4, VertexFormat::Int, 6)],
        )],
    };
    let copy = layout.clone();
    assert_eq!(shape(&copy), shape(&layout));
    assert_eq!(copy.bind_groups[0].bindings[1].bind_type, BindType::Sampler);
    assert_eq!(copy.vertex_buffer_descriptors[0].name, "Vertex");
    assert_eq!(copy.vertex_buffer_descriptors[0].stride, 16);
    assert_eq!(copy.vertex_buffer_descriptors[0].attributes[0].offset, 4);
    assert_eq!(copy.vertex_buffer_descriptors[0].attributes[0].format, VertexFormat::Int);
    assert_eq!(copy.vertex_buffer_descriptors[0].attributes[0].shader_location, 6);
}
