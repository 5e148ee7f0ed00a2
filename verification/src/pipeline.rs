//! Pipeline descriptors: what a pipeline is made of before and after specialization.

use vstd::prelude::*;
use crate::handle::ShaderHandle;
use crate::layout::{PipelineLayout, PipelineLayoutView};
use crate::specialization::PrimitiveTopology;

verus! {

/// The shaders of a pipeline, by stage.
#[derive(Clone, Copy, Debug, PartialEq, Eq, Hash, Structural)]
pub struct ShaderStages {
    pub vertex: ShaderHandle,
    pub fragment: Option<ShaderHandle>,
}

/// The width of the indices of an index buffer.
#[derive(Clone, Copy, Debug, PartialEq, Eq, Hash, Structural)]
pub enum IndexFormat {
    Uint16,
    Uint32,
}

/// Where the layout of a pipeline comes from: written by hand, or reflected from its
/// compiled shaders (and absent until they have been compiled).
#[derive(Debug)]
pub enum PipelineLayoutType {
    Manual(PipelineLayout),
    Reflected(Option<PipelineLayout>),
}

/// Mathematical value of a [`PipelineLayoutType`].
pub enum PipelineLayoutTypeView {
    Manual(PipelineLayoutView),
    Reflected(Option<PipelineLayoutView>),
}

impl View for PipelineLayoutType {
    type V = PipelineLayoutTypeView;

    open spec fn view(&self) -> PipelineLayoutTypeView {
        match *self {
            PipelineLayoutType::Manual(layout) => PipelineLayoutTypeView::Manual(layout@),
            PipelineLayoutType::Reflected(Some(layout)) => PipelineLayoutTypeView::Reflected(
                Some(layout@),
            ),
            PipelineLayoutType::Reflected(None) => PipelineLayoutTypeView::Reflected(None),
        }
    }
}

impl Clone for PipelineLayoutType {
    fn clone(&self) -> (copy: PipelineLayoutType)
        ensures
            copy@ == self@,
    {
        match self {
            PipelineLayoutType::Manual(layout) => PipelineLayoutType::Manual(layout.clone()),
            PipelineLayoutType::Reflected(Some(layout)) => PipelineLayoutType::Reflected(
                Some(layout.clone()),
            ),
            PipelineLayoutType::Reflected(None) => PipelineLayoutType::Reflected(None),
        }
    }
}

/// A pipeline: its shaders, its binding layout and its fixed-function state.
#[derive(Debug)]
pub struct PipelineDescriptor {
    pub name: Option<String>,
    pub layout: PipelineLayoutType,
    pub shader_stages: ShaderStages,
    pub primitive_topology: PrimitiveTopology,
    pub index_format: IndexFormat,
    pub sample_count: u32,
    pub sample_mask: u32,
    pub alpha_to_coverage_enabled: bool,
}

/// Mathematical value of a [`PipelineDescriptor`].
pub struct PipelineDescriptorView {
    pub name: Option<Seq<char>>,
    pub layout: PipelineLayoutTypeView,
    pub shader_stages: ShaderStages,
    pub primitive_topology: PrimitiveTopology,
    pub index_format: IndexFormat,
    pub sample_count: u32,
    pub sample_mask: u32,
    pub alpha_to_coverage_enabled: bool,
}

impl View for PipelineDescriptor {
    type V = PipelineDescriptorView;

    open spec fn view(&self) -> PipelineDescriptorView {
        PipelineDescriptorView {
            name: match self.name {
                Some(name) => Some(name@),
                None => None,
            },
            layout: self.layout@,
            shader_stages: self.shader_stages,
            primitive_topology: self.primitive_topology,
            index_format: self.index_format,
            sample_count: self.sample_count,
            sample_mask: self.sample_mask,
            alpha_to_coverage_enabled: self.alpha_to_coverage_enabled,
        }
    }
}

impl PipelineDescriptor {
    /// A pipeline of the given shaders whose layout is still to be reflected, with
    /// triangle lists, 32-bit indices, one sample and every sample enabled.
    pub fn new(shader_stages: ShaderStages) -> (descriptor: PipelineDescriptor)
        ensures
            descriptor@ == (PipelineDescriptorView {
                name: None,
                layout: PipelineLayoutTypeView::Reflected(None),
                shader_stages,
                primitive_topology: PrimitiveTopology::TriangleList,
                index_format: IndexFormat::Uint32,
                sample_count: 1,
                sample_mask: u32::MAX,
                alpha_to_coverage_enabled: false,
            }),
    {
        PipelineDescriptor {
            name: None,
            layout: PipelineLayoutType::Reflected(None),
            shader_stages,
            primitive_topology: PrimitiveTopology::TriangleList,
            index_format: IndexFormat::Uint32,
            sample_count: 1,
            sample_mask: u32::MAX,
            alpha_to_coverage_enabled: false,
        }
    }
}

impl Clone for PipelineDescriptor {
    fn clone(&self) -> (copy: PipelineDescriptor)
        ensures
            copy@ == self@,
    {
        PipelineDescriptor {
            name: match &self.name {
                Some(name) => Some(name.clone()),
                None => None,
            },
            layout: self.layout.clone(),
            shader_stages: self.shader_stages,
            primitive_topology: self.primitive_topology,
            index_format: self.index_format,
            sample_count: self.sample_count,
            sample_mask: self.sample_mask,
            alpha_to_coverage_enabled: self.alpha_to_coverage_enabled,
        }
    }
}

} // verus!
