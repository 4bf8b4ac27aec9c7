use std::sync::Arc;

use nuru_graph::pipeline::{
    BlendMode, CullMode, DynamicState, FrontFace, PipelineCreateError, PipelineCreateInfo, PipelineDesciptor,
    PolygonMode, PrimitiveTopology, ShaderStage, VertexInputLayout,
};
use nuru_graph::shader::reflection::{InterfaceSymbol, ReflectionData, ReflectionError, StageSymbols, SymbolFormat};
use nuru_graph::shader::{Shader, ShaderCompileInfo, ShaderCreateError, ShaderData, ShaderInfo};

fn stage(module: u64, entry: &str) -> ShaderInfo {
    ShaderInfo {
        module,
        compileInfo: ShaderCompileInfo { entryPoint: entry.to_string(), data: ShaderData::Spirv(vec![]) },
        reflectionData: ReflectionData::from_symbols(vec![], vec![], vec![]).unwrap(),
    }
}

fn shader() -> Arc<Shader> {
    Arc::new(Shader { name: "test".to_string(), vertex: stage(7, "vs_main"), fragment: stage(9, "fs_main") })
}

#[test]
fn default_topology_is_triangle() {
    assert_eq!(PrimitiveTopology::default(), PrimitiveTopology::Triangle);
}

#[test]
fn missing_shader_is_fatal() {
    let r = PipelineCreateInfo::new(PipelineDesciptor {
        topology: PrimitiveTopology::Triangle,
        msaa: false,
        shader: None,
        vertexInputLayout: VertexInputLayout {},
    });
    assert!(matches!(r, Err(PipelineCreateError::NoShader)));
}

#[test]
fn pipeline_state_follows_descriptor() {
    let info = PipelineCreateInfo::new(PipelineDesciptor {
        topology: PrimitiveTopology::Line,
        msaa: true,
        shader: Some(shader()),
        vertexInputLayout: VertexInputLayout {},
    })
    .unwrap();
    assert_eq!(info.stages.len(), 2);
    assert_eq!(info.stages[0].stage, ShaderStage::Vertex);
    assert_eq!(info.stages[0].module, 7);
    assert_eq!(info.stages[0].entryPoint, "vs_main");
    assert_eq!(info.stages[1].stage, ShaderStage::Fragment);
    assert_eq!(info.stages[1].module, 9);
    assert_eq!(info.stages[1].entryPoint, "fs_main");
    assert_eq!(info.topology, PrimitiveTopology::Line);
    assert!(!info.primitiveRestart);
    assert!(info.multisample.sampleShading);
    assert_eq!(info.multisample.samples, 1);
    assert!(!info.rasterization.depthClamp);
    assert_eq!(info.rasterization.cullMode, CullMode::Back);
    assert_eq!(info.rasterization.frontFace, FrontFace::Clockwise);
    assert_eq!(info.rasterization.polygonMode, PolygonMode::Fill);
    assert_eq!(info.rasterization.lineWidth, 1);
    assert!(!info.rasterization.depthBias);
    assert_eq!(info.colorBlend.blend, BlendMode::Disabled);
    assert!(info.colorBlend.writeAll);
    assert_eq!(info.dynamicStates, vec![DynamicState::Viewport, DynamicState::LineWidth, DynamicState::Scissor]);
    assert_eq!(info.shader.name, "test");
}

#[test]
fn msaa_off_disables_sample_shading() {
    let info = PipelineCreateInfo::new(PipelineDesciptor {
        topology: PrimitiveTopology::default(),
        msaa: false,
        shader: Some(shader()),
        vertexInputLayout: VertexInputLayout {},
    })
    .unwrap();
    assert!(!info.multisample.sampleShading);
    assert_eq!(info.topology, PrimitiveTopology::Triangle);
}

#[test]
fn shader_assembles_both_stages() {
    let vs = StageSymbols {
        inputs: vec![],
        outputs: vec![InterfaceSymbol { name: "fragColor".to_string(), format: SymbolFormat::R32G32B32Sfloat, location: 0 }],
        bindings: vec![],
    };
    let fs = StageSymbols {
        inputs: vec![InterfaceSymbol { name: "fragColor".to_string(), format: SymbolFormat::R32G32B32Sfloat, location: 0 }],
        outputs: vec![InterfaceSymbol { name: "color".to_string(), format: SymbolFormat::R32G32B32A32Sfloat, location: 0 }],
        bindings: vec!["test".to_string()],
    };
    let info = |e: &str| ShaderCompileInfo { entryPoint: e.to_string(), data: ShaderData::Spirv(vec![]) };
    let s = Shader::create("tri".to_string(), info("vs"), vs, 3, info("fs"), fs, 4).unwrap();
    assert_eq!(s.name, "tri");
    assert_eq!(s.vertex.module, 3);
    assert_eq!(s.fragment.module, 4);
    assert_eq!(s.vertex.reflectionData.outputs()[0].name, "fragColor");
    assert_eq!(s.fragment.reflectionData.outputs()[0].name, "color");
    assert!(s.fragment.reflectionData.contains_sampler(&"test".to_string()));
}

#[test]
fn shader_fails_on_the_vertex_stage_first() {
    let bad = |n: &str| StageSymbols {
        inputs: vec![InterfaceSymbol { name: n.to_string(), format: SymbolFormat::Undefined, location: 0 }],
        outputs: vec![],
        bindings: vec![],
    };
    let info = || ShaderCompileInfo { entryPoint: "main".to_string(), data: ShaderData::Spirv(vec![]) };
    let r = Shader::create("x".to_string(), info(), bad("v"), 1, info(), bad("f"), 2);
    assert!(matches!(r, Err(ShaderCreateError::Reflection(ReflectionError::UnrecognizedDataFormat(ref n))) if n == "v"));
}
