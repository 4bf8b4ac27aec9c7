//! The fixed-function and programmable state of a graphics pipeline, as
//! the pipeline factory derives it from a pass's draw parameters.

use std::sync::Arc;
use vstd::prelude::*;

use crate::shader::Shader;

verus! {

/// How a pipeline blends its color output.
#[derive(Clone, Copy, Debug, PartialEq, Eq, Structural)]
pub enum BlendMode {
    Disabled,
}

/// How vertices are assembled into primitives.
#[derive(Clone, Copy, Debug, PartialEq, Eq, Structural)]
pub enum PrimitiveTopology {
    Point,
    Triangle,
    Line,
}

impl Default for PrimitiveTopology {
    fn default() -> (r: Self)
        ensures
            r == PrimitiveTopology::Triangle,
    {
        PrimitiveTopology::Triangle
    }
}

/// Faces that rasterization discards.
#[derive(Clone, Copy, Debug, PartialEq, Eq, Structural)]
pub enum CullMode {
    Disabled,
    Back,
    Front,
}

/// Winding order of a front-facing primitive.
#[derive(Clone, Copy, Debug, PartialEq, Eq, Structural)]
pub enum FrontFace {
    Clockwise,
    CounterClockwise,
}

/// How polygons are filled.
#[derive(Clone, Copy, Debug, PartialEq, Eq, Structural)]
pub enum PolygonMode {
    Fill,
    Line,
    Point,
}

/// State supplied per frame instead of being baked into the pipeline.
#[derive(Clone, Copy, Debug, PartialEq, Eq, Structural)]
pub enum DynamicState {
    Viewport,
    LineWidth,
    Scissor,
}

/// A programmable stage of the pipeline.
#[derive(Clone, Copy, Debug, PartialEq, Eq, Structural)]
pub enum ShaderStage {
    Vertex,
    Fragment,
}

/// Layout of the vertex input; no vertex buffers are bound at this level.
#[derive(Clone, Copy, Debug, PartialEq, Eq, Structural)]
pub struct VertexInputLayout {}

/// Why a pipeline could not be described.
#[derive(Clone, Copy, Debug, PartialEq, Eq, Structural)]
pub enum PipelineCreateError {
    NoShader,
}

/// The draw parameters a pass asks its pipeline for.
pub struct PipelineDesciptor {
    pub topology: PrimitiveTopology,
    pub msaa: bool,
    pub shader: Option<Arc<Shader>>,
    pub vertexInputLayout: VertexInputLayout,
}

/// One programmable stage: which stage, the module handle and its entry point.
pub struct StageCreateInfo {
    pub stage: ShaderStage,
    pub module: u64,
    pub entryPoint: String,
}

/// Rasterization state of a pipeline.
#[derive(Clone, Copy, Debug, PartialEq, Eq, Structural)]
pub struct RasterizationState {
    pub depthClamp: bool,
    pub rasterizerDiscard: bool,
    pub cullMode: CullMode,
    pub frontFace: FrontFace,
    pub polygonMode: PolygonMode,
    pub lineWidth: u32,
    pub depthBias: bool,
}

/// Multisampling state of a pipeline.
#[derive(Clone, Copy, Debug, PartialEq, Eq, Structural)]
pub struct MultisampleState {
    pub sampleShading: bool,
    pub samples: u32,
}

/// The single color-blend attachment of a pipeline.
#[derive(Clone, Copy, Debug, PartialEq, Eq, Structural)]
pub struct ColorBlendAttachment {
    pub blend: BlendMode,
    /// Whether all of red, green, blue and alpha are written.
    pub writeAll: bool,
}

/// Everything needed to create one graphics pipeline.
pub struct PipelineCreateInfo {
    pub stages: Vec<StageCreateInfo>,
    pub topology: PrimitiveTopology,
    pub primitiveRestart: bool,
    pub rasterization: RasterizationState,
    pub multisample: MultisampleState,
    pub colorBlend: ColorBlendAttachment,
    pub dynamicStates: Vec<DynamicState>,
    pub shader: Arc<Shader>,
}

/// Rasterization with no depth clamp, back-face culling, clockwise front
/// faces, filled polygons, lines one pixel wide and no depth bias.
pub open spec fn fixed_rasterization() -> RasterizationState {
    RasterizationState {
        depthClamp: false,
        rasterizerDiscard: false,
        cullMode: CullMode::Back,
        frontFace: FrontFace::Clockwise,
        polygonMode: PolygonMode::Fill,
        lineWidth: 1,
        depthBias: false,
    }
}

/// The state that `new` derives from a descriptor whose shader is `shader`.
pub open spec fn describes(info: PipelineCreateInfo, descriptor: PipelineDesciptor, shader: Arc<Shader>) -> bool {
    &&& info.shader == shader
    &&& info.stages@.len() == 2
    &&& info.stages@[0].stage == ShaderStage::Vertex
    &&& info.stages@[0].module == shader.vertex.module
    &&& info.stages@[0].entryPoint@ == shader.vertex.compileInfo.entryPoint@
    &&& info.stages@[1].stage == ShaderStage::Fragment
    &&& info.stages@[1].module == shader.fragment.module
    &&& info.stages@[1].entryPoint@ == shader.fragment.compileInfo.entryPoint@
    &&& info.topology == descriptor.topology
    &&& !info.primitiveRestart
    &&& info.rasterization == fixed_rasterization()
    &&& info.multisample == (MultisampleState { sampleShading: descriptor.msaa, samples: 1 })
    &&& info.colorBlend == (ColorBlendAttachment { blend: BlendMode::Disabled, writeAll: true })
    &&& info.dynamicStates@ == seq![DynamicState::Viewport, DynamicState::LineWidth, DynamicState::Scissor]
}

impl PipelineCreateInfo {
    /// Derives a pipeline's state from a pass's draw parameters: the
    /// shader's vertex and fragment stages, the requested topology, fixed
    /// rasterization, sample shading as the MSAA flag says with a single
    /// sample, one color attachment without blending that writes every
    /// channel, and viewport, line width and scissor left dynamic. Without a
    /// shader there is nothing to run: `NoShader`.
    pub fn new(descriptor: PipelineDesciptor) -> (r: Result<Self, PipelineCreateError>)
        ensures
            descriptor.shader is None <==> r == Err::<Self, PipelineCreateError>(PipelineCreateError::NoShader),
            r matches Ok(info) ==> describes(info, descriptor, descriptor.shader.unwrap()),
    {
        let shader = match &descriptor.shader {
            Some(s) => s.clone(),
            None => return Err(PipelineCreateError::NoShader),
        };
        let mut stages: Vec<StageCreateInfo> = Vec::new();
        stages.push(StageCreateInfo {
            stage: ShaderStage::Vertex,
            module: shader.vertex.module,
            entryPoint: shader.vertex.compileInfo.entryPoint.clone(),
        });
        stages.push(StageCreateInfo {
            stage: ShaderStage::Fragment,
            module: shader.fragment.module,
            entryPoint: shader.fragment.compileInfo.entryPoint.clone(),
        });
        let rasterization = RasterizationState {
            depthClamp: false,
            rasterizerDiscard: false,
            cullMode: CullMode::Back,
            frontFace: FrontFace::Clockwise,
            polygonMode: PolygonMode::Fill,
            lineWidth: 1,
            depthBias: false,
        };
        let dynamicStates = vec![DynamicState::Viewport, DynamicState::LineWidth, DynamicState::Scissor];
        Ok(PipelineCreateInfo {
            stages,
            topology: descriptor.topology,
            primitiveRestart: false,
            rasterization,
            multisample: MultisampleState { sampleShading: descriptor.msaa, samples: 1 },
            colorBlend: ColorBlendAttachment { blend: BlendMode::Disabled, writeAll: true },
            dynamicStates,
            shader,
        })
    }
}

} // verus!
