//! Shaders, and the services that compile and reflect them.

use vstd::prelude::*;
use crate::layout::ShaderLayout;
use crate::specialization::texts;

verus! {

/// The pipeline stage that a shader runs in.
#[derive(Clone, Copy, Debug, PartialEq, Eq, Hash, Structural)]
pub enum ShaderStage {
    Vertex,
    Fragment,
    Compute,
}

/// What a shader is made of: a final binary, or source text that is still to be compiled.
#[derive(Debug)]
pub enum ShaderSource {
    Spirv(Vec<u32>),
    Glsl(String),
}

/// Mathematical value of a [`ShaderSource`].
pub enum ShaderSourceView {
    Spirv(Seq<u32>),
    Glsl(Seq<char>),
}

impl View for ShaderSource {
    type V = ShaderSourceView;

    open spec fn view(&self) -> ShaderSourceView {
        match *self {
            ShaderSource::Spirv(words) => ShaderSourceView::Spirv(words@),
            ShaderSource::Glsl(text) => ShaderSourceView::Glsl(text@),
        }
    }
}

/// A shader asset.
#[derive(Debug)]
pub struct Shader {
    pub source: ShaderSource,
    pub stage: ShaderStage,
}

/// Mathematical value of a [`Shader`].
pub struct ShaderView {
    pub source: ShaderSourceView,
    pub stage: ShaderStage,
}

impl View for Shader {
    type V = ShaderView;

    open spec fn view(&self) -> ShaderView {
        ShaderView { source: self.source@, stage: self.stage }
    }
}

impl ShaderView {
    /// A shader in final binary form cannot be compiled any further.
    pub open spec fn is_binary(self) -> bool {
        self.source is Spirv
    }
}

impl Shader {
    /// A shader of the given stage made of a final binary.
    pub fn from_spirv(stage: ShaderStage, words: Vec<u32>) -> (shader: Shader)
        ensures
            shader@ == (ShaderView { source: ShaderSourceView::Spirv(words@), stage }),
    {
        Shader { source: ShaderSource::Spirv(words), stage }
    }

    /// A shader of the given stage made of source text.
    pub fn from_glsl(stage: ShaderStage, text: String) -> (shader: Shader)
        ensures
            shader@ == (ShaderView { source: ShaderSourceView::Glsl(text@), stage }),
    {
        Shader { source: ShaderSource::Glsl(text), stage }
    }

    /// Whether the shader is already in final binary form.
    pub fn is_binary(&self) -> (binary: bool)
        ensures
            binary == self@.is_binary(),
    {
        match &self.source {
            ShaderSource::Spirv(_) => true,
            ShaderSource::Glsl(_) => false,
        }
    }
}

/// Why the compile service could not turn a shader's source into a binary.
#[derive(Debug)]
pub struct CompileError {
    pub message: String,
}

/// The shader compilation service. Nothing is assumed of what it answers. It is only
/// ever asked to compile a shader that is not a binary yet, with a list of defines that
/// names each define once.
pub trait ShaderCompiler {
    /// Compiles the source of `shader` with the given defines, in the given order.
    fn compile_with_defines(&mut self, shader: &Shader, shader_defs: &Vec<String>) -> Result<
        Vec<u32>,
        CompileError,
    >
        requires
            !shader@.is_binary(),
            texts(shader_defs@).no_duplicates(),
    ;
}

/// The layout reflector. Nothing is assumed of what it answers.
pub trait LayoutReflector {
    /// Reads the binding layout off a compiled binary, or gives nothing where the
    /// binary lacks the structure that a layout is read from.
    fn reflect_layout(&self, spirv: &Vec<u32>) -> Option<ShaderLayout>;
}

impl Shader {
    /// The binding layout that `reflector` reads off the shader: for a binary, what the
    /// reflector answers when it is handed the words of the binary. A shader that is not
    /// a binary has none, and the reflector is not asked.
    pub fn reflect_layout<R: LayoutReflector>(&self, reflector: &R) -> (layout: Option<
        ShaderLayout,
    >)
        ensures
            !self@.is_binary() ==> layout is None,
            match self.source {
                ShaderSource::Spirv(spirv) => call_ensures(
                    R::reflect_layout,
                    (reflector, &spirv),
                    layout,
                ),
                ShaderSource::Glsl(_) => layout is None,
            },
    {
        match &self.source {
            ShaderSource::Spirv(spirv) => reflector.reflect_layout(spirv),
            ShaderSource::Glsl(_) => None,
        }
    }
}

} // verus!
