//! Binding layouts: what reflection reports for one shader stage, and the layout of a
//! whole pipeline that is merged from them.

use vstd::prelude::*;
use crate::search::{first_match, lemma_first_match_is, lemma_first_match_none};

verus! {

/// The mathematical values of the items of a sequence, in order.
pub open spec fn views<T: View>(items: Seq<T>) -> Seq<T::V> {
    items.map_values(|item: T| item@)
}

/// How a binding is bound. A uniform binding is dynamic when the buffer bound to it is
/// addressed with an offset that changes from draw to draw.
#[derive(Clone, Copy, Debug, PartialEq, Eq, Hash, Structural)]
pub enum BindType {
    Uniform { dynamic: bool, size: u64 },
    Sampler,
    SampledTexture { multisampled: bool },
}

/// One binding of a bind group.
#[derive(Debug)]
pub struct BindingDescriptor {
    pub name: String,
    pub index: u32,
    pub bind_type: BindType,
}

/// Mathematical value of a [`BindingDescriptor`].
pub struct BindingDescriptorView {
    pub name: Seq<char>,
    pub index: u32,
    pub bind_type: BindType,
}

impl View for BindingDescriptor {
    type V = BindingDescriptorView;

    open spec fn view(&self) -> BindingDescriptorView {
        BindingDescriptorView { name: self.name@, index: self.index, bind_type: self.bind_type }
    }
}

impl Clone for BindingDescriptor {
    fn clone(&self) -> (copy: BindingDescriptor)
        ensures
            copy@ == self@,
    {
        BindingDescriptor {
            name: self.name.clone(),
            index: self.index,
            bind_type: self.bind_type,
        }
    }
}

/// A group of bindings that are bound together.
#[derive(Debug)]
pub struct BindGroupDescriptor {
    pub index: u32,
    pub bindings: Vec<BindingDescriptor>,
}

/// Mathematical value of a [`BindGroupDescriptor`].
pub struct BindGroupDescriptorView {
    pub index: u32,
    pub bindings: Seq<BindingDescriptorView>,
}

impl View for BindGroupDescriptor {
    type V = BindGroupDescriptorView;

    open spec fn view(&self) -> BindGroupDescriptorView {
        BindGroupDescriptorView { index: self.index, bindings: views(self.bindings@) }
    }
}

/// A copy of each binding, in order.
pub fn clone_bindings(bindings: &Vec<BindingDescriptor>) -> (copy: Vec<BindingDescriptor>)
    ensures
        views(copy@) == views(bindings@),
{
    let mut copy: Vec<BindingDescriptor> = Vec::new();
    let mut i: usize = 0;
    while i < bindings.len()
        invariant
            i <= bindings.len(),
            copy.len() == i,
            forall|k: int| 0 <= k < i ==> copy[k]@ == bindings[k]@,
        decreases bindings.len() - i,
    {
        copy.push(bindings[i].clone());
        i += 1;
    }
    assert(views(copy@) =~= views(bindings@));
    copy
}

impl Clone for BindGroupDescriptor {
    fn clone(&self) -> (copy: BindGroupDescriptor)
        ensures
            copy@ == self@,
    {
        BindGroupDescriptor { index: self.index, bindings: clone_bindings(&self.bindings) }
    }
}

/// A copy of each bind group, in order.
pub fn clone_bind_groups(groups: &Vec<BindGroupDescriptor>) -> (copy: Vec<BindGroupDescriptor>)
    ensures
        views(copy@) == views(groups@),
{
    let mut copy: Vec<BindGroupDescriptor> = Vec::new();
    let mut i: usize = 0;
    while i < groups.len()
        invariant
            i <= groups.len(),
            copy.len() == i,
            forall|k: int| 0 <= k < i ==> copy[k]@ == groups[k]@,
        decreases groups.len() - i,
    {
        copy.push(groups[i].clone());
        i += 1;
    }
    assert(views(copy@) =~= views(groups@));
    copy
}

/// The format of one vertex attribute.
#[derive(Clone, Copy, Debug, PartialEq, Eq, Hash, Structural)]
pub enum VertexFormat {
    Float,
    Float2,
    Float3,
    Float4,
    Int,
    Uint,
}

/// Whether a vertex buffer advances per vertex or per instance.
#[derive(Clone, Copy, Debug, PartialEq, Eq, Hash, Structural)]
pub enum InputStepMode {
    Vertex,
    Instance,
}

/// One attribute of a vertex buffer.
#[derive(Debug)]
pub struct VertexAttributeDescriptor {
    pub name: String,
    pub offset: u64,
    pub format: VertexFormat,
    pub shader_location: u32,
}

/// Mathematical value of a [`VertexAttributeDescriptor`].
pub struct VertexAttributeDescriptorView {
    pub name: Seq<char>,
    pub offset: u64,
    pub format: VertexFormat,
    pub shader_location: u32,
}

impl View for VertexAttributeDescriptor {
    type V = VertexAttributeDescriptorView;

    open spec fn view(&self) -> VertexAttributeDescriptorView {
        VertexAttributeDescriptorView {
            name: self.name@,
            offset: self.offset,
            format: self.format,
            shader_location: self.shader_location,
        }
    }
}

impl Clone for VertexAttributeDescriptor {
    fn clone(&self) -> (copy: VertexAttributeDescriptor)
        ensures
            copy@ == self@,
    {
        VertexAttributeDescriptor {
            name: self.name.clone(),
            offset: self.offset,
            format: self.format,
            shader_location: self.shader_location,
        }
    }
}

/// The layout of one vertex buffer.
#[derive(Debug)]
pub struct VertexBufferDescriptor {
    pub name: String,
    pub stride: u64,
    pub step_mode: InputStepMode,
    pub attributes: Vec<VertexAttributeDescriptor>,
}

/// Mathematical value of a [`VertexBufferDescriptor`].
pub struct VertexBufferDescriptorView {
    pub name: Seq<char>,
    pub stride: u64,
    pub step_mode: InputStepMode,
    pub attributes: Seq<VertexAttributeDescriptorView>,
}

impl View for VertexBufferDescriptor {
    type V = VertexBufferDescriptorView;

    open spec fn view(&self) -> VertexBufferDescriptorView {
        VertexBufferDescriptorView {
            name: self.name@,
            stride: self.stride,
            step_mode: self.step_mode,
            attributes: views(self.attributes@),
        }
    }
}

impl Clone for VertexBufferDescriptor {
    fn clone(&self) -> (copy: VertexBufferDescriptor)
        ensures
            copy@ == self@,
    {
        let mut attributes: Vec<VertexAttributeDescriptor> = Vec::new();
        let mut i: usize = 0;
        while i < self.attributes.len()
            invariant
                i <= self.attributes.len(),
                attributes.len() == i,
                forall|k: int| 0 <= k < i ==> attributes[k]@ == self.attributes[k]@,
            decreases self.attributes.len() - i,
        {
            attributes.push(self.attributes[i].clone());
            i += 1;
        }
        assert(views(attributes@) =~= views(self.attributes@));
        VertexBufferDescriptor {
            name: self.name.clone(),
            stride: self.stride,
            step_mode: self.step_mode,
            attributes,
        }
    }
}

/// A copy of each vertex buffer descriptor, in order.
pub fn clone_vertex_buffer_descriptors(descriptors: &Vec<VertexBufferDescriptor>) -> (copy: Vec<
    VertexBufferDescriptor,
>)
    ensures
        views(copy@) == views(descriptors@),
{
    let mut copy: Vec<VertexBufferDescriptor> = Vec::new();
    let mut i: usize = 0;
    while i < descriptors.len()
        invariant
            i <= descriptors.len(),
            copy.len() == i,
            forall|k: int| 0 <= k < i ==> copy[k]@ == descriptors[k]@,
        decreases descriptors.len() - i,
    {
        copy.push(descriptors[i].clone());
        i += 1;
    }
    assert(views(copy@) =~= views(descriptors@));
    copy
}

/// What reflection reports for one compiled shader stage.
#[derive(Debug)]
pub struct ShaderLayout {
    pub bind_groups: Vec<BindGroupDescriptor>,
    pub vertex_buffer_descriptors: Vec<VertexBufferDescriptor>,
    pub entry_point: String,
}

/// Mathematical value of a [`ShaderLayout`].
pub struct ShaderLayoutView {
    pub bind_groups: Seq<BindGroupDescriptorView>,
    pub vertex_buffer_descriptors: Seq<VertexBufferDescriptorView>,
    pub entry_point: Seq<char>,
}

impl View for ShaderLayout {
    type V = ShaderLayoutView;

    open spec fn view(&self) -> ShaderLayoutView {
        ShaderLayoutView {
            bind_groups: views(self.bind_groups@),
            vertex_buffer_descriptors: views(self.vertex_buffer_descriptors@),
            entry_point: self.entry_point@,
        }
    }
}

/// The binding layout of a whole pipeline.
#[derive(Debug)]
pub struct PipelineLayout {
    pub bind_groups: Vec<BindGroupDescriptor>,
    pub vertex_buffer_descriptors: Vec<VertexBufferDescriptor>,
}

/// Mathematical value of a [`PipelineLayout`].
pub struct PipelineLayoutView {
    pub bind_groups: Seq<BindGroupDescriptorView>,
    pub vertex_buffer_descriptors: Seq<VertexBufferDescriptorView>,
}

impl View for PipelineLayout {
    type V = PipelineLayoutView;

    open spec fn view(&self) -> PipelineLayoutView {
        PipelineLayoutView {
            bind_groups: views(self.bind_groups@),
            vertex_buffer_descriptors: views(self.vertex_buffer_descriptors@),
        }
    }
}

impl Clone for PipelineLayout {
    fn clone(&self) -> (copy: PipelineLayout)
        ensures
            copy@ == self@,
    {
        PipelineLayout {
            bind_groups: clone_bind_groups(&self.bind_groups),
            vertex_buffer_descriptors: clone_vertex_buffer_descriptors(
                &self.vertex_buffer_descriptors,
            ),
        }
    }
}

/// Whether some binding of `bindings` has the binding index `index`.
pub open spec fn has_binding(bindings: Seq<BindingDescriptorView>, index: u32) -> bool {
    exists|k: int| 0 <= k < bindings.len() && (#[trigger] bindings[k]).index == index
}

/// `bindings`, followed by each binding of `extra` whose binding index has not occurred
/// before it: the union of the two by binding index, in which the earlier binding stands
/// for both.
pub open spec fn union_bindings(
    bindings: Seq<BindingDescriptorView>,
    extra: Seq<BindingDescriptorView>,
) -> Seq<BindingDescriptorView>
    decreases extra.len(),
{
    if extra.len() == 0 {
        bindings
    } else {
        let merged = union_bindings(bindings, extra.drop_last());
        if has_binding(merged, extra.last().index) {
            merged
        } else {
            merged.push(extra.last())
        }
    }
}

/// The bind groups with the group index `index`.
pub open spec fn group_with_index(index: u32) -> spec_fn(BindGroupDescriptorView) -> bool {
    |group: BindGroupDescriptorView| group.index == index
}

/// The position of the first bind group of `groups` with the group index `index`.
pub open spec fn group_at(groups: Seq<BindGroupDescriptorView>, index: u32) -> Option<int> {
    first_match(groups, group_with_index(index))
}

/// `groups` with `group` merged in: its bindings join the group of the same index, or
/// it becomes a new last group.
pub open spec fn union_group(
    groups: Seq<BindGroupDescriptorView>,
    group: BindGroupDescriptorView,
) -> Seq<BindGroupDescriptorView> {
    match group_at(groups, group.index) {
        Some(k) => groups.update(
            k,
            BindGroupDescriptorView {
                index: group.index,
                bindings: union_bindings(groups[k].bindings, group.bindings),
            },
        ),
        None => groups.push(
            BindGroupDescriptorView {
                index: group.index,
                bindings: union_bindings(Seq::empty(), group.bindings),
            },
        ),
    }
}

/// `groups` with each group of `extra` merged in, in order.
pub open spec fn union_groups(
    groups: Seq<BindGroupDescriptorView>,
    extra: Seq<BindGroupDescriptorView>,
) -> Seq<BindGroupDescriptorView>
    decreases extra.len(),
{
    if extra.len() == 0 {
        groups
    } else {
        union_group(union_groups(groups, extra.drop_last()), extra.last())
    }
}

/// The bind groups of all the stage layouts merged into one list, stage by stage.
pub open spec fn merged_bind_groups(layouts: Seq<ShaderLayoutView>) -> Seq<
    BindGroupDescriptorView,
>
    decreases layouts.len(),
{
    if layouts.len() == 0 {
        Seq::empty()
    } else {
        union_groups(merged_bind_groups(layouts.drop_last()), layouts.last().bind_groups)
    }
}

/// The pipeline layout merged from the stage layouts: the union of their bind groups,
/// and the vertex buffers of the first stage.
pub open spec fn merged_layout(layouts: Seq<ShaderLayoutView>) -> PipelineLayoutView {
    PipelineLayoutView {
        bind_groups: merged_bind_groups(layouts),
        vertex_buffer_descriptors: if layouts.len() > 0 {
            layouts[0].vertex_buffer_descriptors
        } else {
            Seq::empty()
        },
    }
}

/// Whether some binding of `bindings` has the binding index `index`.
pub fn has_binding_index(bindings: &Vec<BindingDescriptor>, index: u32) -> (found: bool)
    ensures
        found == has_binding(views(bindings@), index),
{
    let mut i: usize = 0;
    while i < bindings.len()
        invariant
            i <= bindings.len(),
            forall|k: int| 0 <= k < i ==> (#[trigger] views(bindings@)[k]).index != index,
        decreases bindings.len() - i,
    {
        if bindings[i].index == index {
            assert(views(bindings@)[i as int].index == index);
            return true;
        }
        i += 1;
    }
    false
}

/// The position of the first bind group with the group index `index`.
pub fn find_bind_group(groups: &Vec<BindGroupDescriptor>, index: u32) -> (found: Option<usize>)
    ensures
        match found {
            Some(k) => group_at(views(groups@), index) == Some(k as int) && k < groups.len(),
            None => group_at(views(groups@), index) is None,
        },
{
    let mut i: usize = 0;
    while i < groups.len()
        invariant
            i <= groups.len(),
            forall|k: int| 0 <= k < i ==> !group_with_index(index)(#[trigger] views(groups@)[k]),
        decreases groups.len() - i,
    {
        if groups[i].index == index {
            proof {
                assert(group_with_index(index)(views(groups@)[i as int]));
                lemma_first_match_is(views(groups@), group_with_index(index), i as int);
            }
            return Some(i);
        }
        i += 1;
    }
    proof {
        lemma_first_match_none(views(groups@), group_with_index(index));
    }
    None
}

impl BindGroupDescriptor {
    /// Adds a copy of each binding of `extra` whose binding index the group does not
    /// hold yet.
    pub fn merge_bindings(&mut self, extra: &Vec<BindingDescriptor>)
        ensures
            final(self).index == old(self).index,
            final(self)@.bindings == union_bindings(old(self)@.bindings, views(extra@)),
    {
        let mut i: usize = 0;
        while i < extra.len()
            invariant
                i <= extra.len(),
                self.index == old(self).index,
                self@.bindings == union_bindings(
                    old(self)@.bindings,
                    views(extra@).take(i as int),
                ),
            decreases extra.len() - i,
        {
            let ghost before = self@.bindings;
            let ghost prefix = views(extra@).take(i as int + 1);
            assert(prefix.drop_last() =~= views(extra@).take(i as int));
            assert(prefix.last() == extra[i as int]@);
            if !has_binding_index(&self.bindings, extra[i].index) {
                self.bindings.push(extra[i].clone());
                assert(self@.bindings =~= before.push(extra[i as int]@));
            }
            i += 1;
        }
        assert(views(extra@).take(extra.len() as int) =~= views(extra@));
    }
}

/// Merges `group` into `groups`: its bindings join the first group of the same index,
/// or a copy of it, with each binding index once, becomes a new last group.
pub fn merge_bind_group(groups: &mut Vec<BindGroupDescriptor>, group: &BindGroupDescriptor)
    ensures
        views(final(groups)@) == union_group(views(old(groups)@), group@),
{
    match find_bind_group(groups, group.index) {
        Some(k) => {
            groups[k].merge_bindings(&group.bindings);
            assert(views(groups@) =~= union_group(views(old(groups)@), group@));
        },
        None => {
            let mut fresh = BindGroupDescriptor { index: group.index, bindings: Vec::new() };
            assert(fresh@.bindings =~= Seq::<BindingDescriptorView>::empty());
            fresh.merge_bindings(&group.bindings);
            groups.push(fresh);
            assert(views(groups@) =~= union_group(views(old(groups)@), group@));
        },
    }
}

/// Merges each group of `extra` into `groups`, in order.
pub fn merge_bind_groups(groups: &mut Vec<BindGroupDescriptor>, extra: &Vec<BindGroupDescriptor>)
    ensures
        views(final(groups)@) == union_groups(views(old(groups)@), views(extra@)),
{
    let mut i: usize = 0;
    while i < extra.len()
        invariant
            i <= extra.len(),
            views(groups@) == union_groups(views(old(groups)@), views(extra@).take(i as int)),
        decreases extra.len() - i,
    {
        let ghost prefix = views(extra@).take(i as int + 1);
        assert(prefix.drop_last() =~= views(extra@).take(i as int));
        assert(prefix.last() == extra[i as int]@);
        merge_bind_group(groups, &extra[i]);
        i += 1;
    }
    assert(views(extra@).take(extra.len() as int) =~= views(extra@));
}

impl PipelineLayout {
    /// Merges the layouts of a pipeline's stages into the layout of the pipeline: the
    /// union of their bind groups, with a binding that several stages name held once,
    /// and the vertex buffers of the first stage.
    pub fn from_shader_layouts(shader_layouts: &Vec<ShaderLayout>) -> (layout: PipelineLayout)
        ensures
            layout@ == merged_layout(views(shader_layouts@)),
    {
        let mut bind_groups: Vec<BindGroupDescriptor> = Vec::new();
        let mut i: usize = 0;
        assert(views(bind_groups@) =~= Seq::<BindGroupDescriptorView>::empty());
        while i < shader_layouts.len()
            invariant
                i <= shader_layouts.len(),
                views(bind_groups@) == merged_bind_groups(views(shader_layouts@).take(i as int)),
            decreases shader_layouts.len() - i,
        {
            let ghost prefix = views(shader_layouts@).take(i as int + 1);
            assert(prefix.drop_last() =~= views(shader_layouts@).take(i as int));
            assert(prefix.last() == shader_layouts[i as int]@);
            merge_bind_groups(&mut bind_groups, &shader_layouts[i].bind_groups);
            i += 1;
        }
        assert(views(shader_layouts@).take(shader_layouts.len() as int) =~= views(
            shader_layouts@,
        ));
        let vertex_buffer_descriptors = if shader_layouts.len() > 0 {
            clone_vertex_buffer_descriptors(&shader_layouts[0].vertex_buffer_descriptors)
        } else {
            Vec::new()
        };
        assert(shader_layouts.len() == 0 ==> views(vertex_buffer_descriptors@) =~= Seq::<
            VertexBufferDescriptorView,
        >::empty());
        PipelineLayout { bind_groups, vertex_buffer_descriptors }
    }
}


/// The vertex attributes with the name `name`.
pub open spec fn attribute_named(name: Seq<char>) -> spec_fn(
    VertexAttributeDescriptorView,
) -> bool {
    |attribute: VertexAttributeDescriptorView| attribute.name == name
}

/// The vertex buffer descriptors with the name `name`.
pub open spec fn descriptor_named(name: Seq<char>) -> spec_fn(VertexBufferDescriptorView) -> bool {
    |descriptor: VertexBufferDescriptorView| descriptor.name == name
}

/// `attribute` with the offset and the format of the first attribute of `source` that
/// has its name; unchanged where `source` has none.
pub open spec fn synced_attribute(
    attribute: VertexAttributeDescriptorView,
    source: Seq<VertexAttributeDescriptorView>,
) -> VertexAttributeDescriptorView {
    match first_match(source, attribute_named(attribute.name)) {
        Some(k) => VertexAttributeDescriptorView {
            name: attribute.name,
            offset: source[k].offset,
            format: source[k].format,
            shader_location: attribute.shader_location,
        },
        None => attribute,
    }
}

/// `descriptor` with the stride of `source` and each attribute synchronized with the
/// attributes of `source`.
pub open spec fn synced_descriptor(
    descriptor: VertexBufferDescriptorView,
    source: VertexBufferDescriptorView,
) -> VertexBufferDescriptorView {
    VertexBufferDescriptorView {
        name: descriptor.name,
        stride: source.stride,
        step_mode: descriptor.step_mode,
        attributes: descriptor.attributes.map_values(
            |attribute: VertexAttributeDescriptorView|
                synced_attribute(attribute, source.attributes),
        ),
    }
}

/// `descriptor` synchronized with the first descriptor of `table` that has its name;
/// unchanged where `table` has none.
pub open spec fn synced_with_table(
    descriptor: VertexBufferDescriptorView,
    table: Seq<VertexBufferDescriptorView>,
) -> VertexBufferDescriptorView {
    match first_match(table, descriptor_named(descriptor.name)) {
        Some(k) => synced_descriptor(descriptor, table[k]),
        None => descriptor,
    }
}

/// Each descriptor synchronized with the table.
pub open spec fn synced_descriptors(
    descriptors: Seq<VertexBufferDescriptorView>,
    table: Seq<VertexBufferDescriptorView>,
) -> Seq<VertexBufferDescriptorView> {
    descriptors.map_values(
        |descriptor: VertexBufferDescriptorView| synced_with_table(descriptor, table),
    )
}

/// The position of the first attribute with the name `name`.
pub fn find_attribute(attributes: &Vec<VertexAttributeDescriptor>, name: &String) -> (found:
    Option<usize>)
    ensures
        match found {
            Some(k) => first_match(views(attributes@), attribute_named(name@)) == Some(k as int)
                && k < attributes.len(),
            None => first_match(views(attributes@), attribute_named(name@)) is None,
        },
{
    let mut i: usize = 0;
    while i < attributes.len()
        invariant
            i <= attributes.len(),
            forall|k: int|
                0 <= k < i ==> !attribute_named(name@)(#[trigger] views(attributes@)[k]),
        decreases attributes.len() - i,
    {
        if attributes[i].name == *name {
            proof {
                assert(attribute_named(name@)(views(attributes@)[i as int]));
                lemma_first_match_is(views(attributes@), attribute_named(name@), i as int);
            }
            return Some(i);
        }
        i += 1;
    }
    proof {
        lemma_first_match_none(views(attributes@), attribute_named(name@));
    }
    None
}

impl VertexBufferDescriptor {
    /// Takes the stride of `descriptor`, and for each attribute the offset and the
    /// format of the attribute of `descriptor` that has its name.
    pub fn sync_with_descriptor(&mut self, descriptor: &VertexBufferDescriptor)
        ensures
            final(self)@ == synced_descriptor(old(self)@, descriptor@),
    {
        let ghost source = descriptor@.attributes;
        let mut i: usize = 0;
        while i < self.attributes.len()
            invariant
                i <= self.attributes.len(),
                self.attributes.len() == old(self).attributes.len(),
                self.name == old(self).name,
                self.step_mode == old(self).step_mode,
                source == descriptor@.attributes,
                forall|k: int|
                    0 <= k < i ==> (#[trigger] self.attributes[k])@ == synced_attribute(
                        old(self).attributes[k]@,
                        source,
                    ),
                forall|k: int|
                    i <= k < self.attributes.len() ==> (#[trigger] self.attributes[k])@ == old(
                        self,
                    ).attributes[k]@,
            decreases self.attributes.len() - i,
        {
            match find_attribute(&descriptor.attributes, &self.attributes[i].name) {
                Some(k) => {
                    let offset = descriptor.attributes[k].offset;
                    let format = descriptor.attributes[k].format;
                    self.attributes[i].offset = offset;
                    self.attributes[i].format = format;
                },
                None => {},
            }
            i += 1;
        }
        self.stride = descriptor.stride;
        assert(self@.attributes =~= synced_descriptor(old(self)@, descriptor@).attributes);
    }
}

/// The table of vertex buffer layouts that the caller has decided on, by name.
#[derive(Debug)]
pub struct VertexBufferDescriptors {
    pub descriptors: Vec<VertexBufferDescriptor>,
}

impl View for VertexBufferDescriptors {
    type V = Seq<VertexBufferDescriptorView>;

    open spec fn view(&self) -> Seq<VertexBufferDescriptorView> {
        views(self.descriptors@)
    }
}

impl VertexBufferDescriptors {
    /// The empty table.
    pub fn new() -> (table: VertexBufferDescriptors)
        ensures
            table@ == Seq::<VertexBufferDescriptorView>::empty(),
    {
        let table = VertexBufferDescriptors { descriptors: Vec::new() };
        assert(table@ =~= Seq::<VertexBufferDescriptorView>::empty());
        table
    }

    /// The position of the first descriptor with the name `name`.
    pub fn position(&self, name: &String) -> (found: Option<usize>)
        ensures
            match found {
                Some(k) => first_match(self@, descriptor_named(name@)) == Some(k as int) && k
                    < self.descriptors.len(),
                None => first_match(self@, descriptor_named(name@)) is None,
            },
    {
        let mut i: usize = 0;
        while i < self.descriptors.len()
            invariant
                i <= self.descriptors.len(),
                forall|k: int| 0 <= k < i ==> !descriptor_named(name@)(#[trigger] self@[k]),
            decreases self.descriptors.len() - i,
        {
            if self.descriptors[i].name == *name {
                proof {
                    assert(descriptor_named(name@)(self@[i as int]));
                    lemma_first_match_is(self@, descriptor_named(name@), i as int);
                }
                return Some(i);
            }
            i += 1;
        }
        proof {
            lemma_first_match_none(self@, descriptor_named(name@));
        }
        None
    }

    /// The first descriptor with the name `name`.
    pub fn get(&self, name: &String) -> (found: Option<&VertexBufferDescriptor>)
        ensures
            match found {
                Some(descriptor) => first_match(self@, descriptor_named(name@)) matches Some(k)
                    && descriptor@ == self@[k],
                None => first_match(self@, descriptor_named(name@)) is None,
            },
    {
        match self.position(name) {
            Some(k) => Some(&self.descriptors[k]),
            None => None,
        }
    }

    /// Puts `descriptor` in the place of the first descriptor of its name, or at the
    /// end where the table has none of that name.
    pub fn set(&mut self, descriptor: VertexBufferDescriptor)
        ensures
            final(self)@ == match first_match(old(self)@, descriptor_named(descriptor.name@)) {
                Some(k) => old(self)@.update(k, descriptor@),
                None => old(self)@.push(descriptor@),
            },
    {
        match self.position(&descriptor.name) {
            Some(k) => {
                self.descriptors[k] = descriptor;
                assert(self@ =~= old(self)@.update(k as int, descriptor@));
            },
            None => {
                self.descriptors.push(descriptor);
                assert(self@ =~= old(self)@.push(descriptor@));
            },
        }
    }
}

impl PipelineLayout {
    /// Synchronizes each vertex buffer of the layout with the descriptor of its name in
    /// `table`: strides, attribute offsets and attribute formats are the table's. A
    /// vertex buffer that the table does not name stays as it is.
    pub fn sync_vertex_buffer_descriptors(&mut self, table: &VertexBufferDescriptors)
        ensures
            final(self)@.bind_groups == old(self)@.bind_groups,
            final(self)@.vertex_buffer_descriptors == synced_descriptors(
                old(self)@.vertex_buffer_descriptors,
                table@,
            ),
    {
        let mut i: usize = 0;
        while i < self.vertex_buffer_descriptors.len()
            invariant
                i <= self.vertex_buffer_descriptors.len(),
                self.vertex_buffer_descriptors.len() == old(self).vertex_buffer_descriptors.len(),
                self@.bind_groups == old(self)@.bind_groups,
                forall|k: int|
                    0 <= k < i ==> (#[trigger] self.vertex_buffer_descriptors[k])@
                        == synced_with_table(old(self).vertex_buffer_descriptors[k]@, table@),
                forall|k: int|
                    i <= k < self.vertex_buffer_descriptors.len() ==> (
                    #[trigger] self.vertex_buffer_descriptors[k])@ == old(
                        self,
                    ).vertex_buffer_descriptors[k]@,
            decreases self.vertex_buffer_descriptors.len() - i,
        {
            match table.position(&self.vertex_buffer_descriptors[i].name) {
                Some(k) => {
                    self.vertex_buffer_descriptors[i].sync_with_descriptor(&table.descriptors[k]);
                },
                None => {},
            }
            i += 1;
        }
        assert(self@.vertex_buffer_descriptors =~= synced_descriptors(
            old(self)@.vertex_buffer_descriptors,
            table@,
        ));
    }
}


} // verus!
