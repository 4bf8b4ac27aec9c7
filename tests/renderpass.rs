use std::sync::Arc;

use nuru_graph::pipeline::{PipelineCreateInfo, PipelineDesciptor, PrimitiveTopology, VertexInputLayout};
use nuru_graph::renderpass::{has_duplicate, DrawState, RenderpassBuilder, RenderpassValidationError};
use nuru_graph::shader::reflection::{InterfaceSymbol, ReflectionData, SymbolFormat};
use nuru_graph::shader::{Shader, ShaderCompileInfo, ShaderData, ShaderInfo};
use nuru_graph::texture::{ColorFormat, DepthStencilFormat};

fn stage(samplers: &[&str], outputs: &[&str]) -> ShaderInfo {
    let outs = outputs
        .iter()
        .map(|n| InterfaceSymbol { name: n.to_string(), format: SymbolFormat::R32G32B32A32Sfloat, location: 0 })
        .collect();
    ShaderInfo {
        module: 1,
        compileInfo: ShaderCompileInfo { entryPoint: "main".to_string(), data: ShaderData::Spirv(vec![]) },
        reflectionData: ReflectionData::from_symbols(vec![], outs, samplers.iter().map(|s| s.to_string()).collect())
            .unwrap(),
    }
}

fn pipeline(samplers: &[&str], outputs: &[&str]) -> PipelineCreateInfo {
    let shader = Arc::new(Shader { name: "lighting".to_string(), vertex: stage(&[], &[]), fragment: stage(samplers, outputs) });
    PipelineCreateInfo::new(PipelineDesciptor {
        topology: PrimitiveTopology::Triangle,
        msaa: false,
        shader: Some(shader),
        vertexInputLayout: VertexInputLayout {},
    })
    .unwrap()
}

#[test]
fn valid_pass_builds() {
    let mut b = RenderpassBuilder::new("lighting", pipeline(&["albedo", "depthTex"], &["color"]), DrawState { handle: 3 });
    b.colorInput("gbuffer", "albedo")
        .colorOutput("lit", "color", ColorFormat::RGBA8)
        .depthStencilInput("depth", "depthTex")
        .depthStencilOutput("depth2", "unused", DepthStencilFormat::Depth16);
    let pass = b.build().unwrap();
    assert_eq!(pass.name(), "lighting");
    assert_eq!(pass.drawState(), DrawState { handle: 3 });
    assert_eq!(pass.colorInputs().len(), 1);
    assert_eq!(pass.colorInputs()[0].uniformName, "albedo");
    assert_eq!(pass.colorOutputs()[0].name, "lit");
    assert_eq!(pass.colorOutputs()[0].format, ColorFormat::RGBA8);
    assert_eq!(pass.depthInput().as_ref().unwrap().name, "depth");
    assert_eq!(pass.depthOutput().as_ref().unwrap().format, DepthStencilFormat::Depth16);
}

#[test]
fn same_name_as_input_and_output_is_cyclic() {
    let mut b = RenderpassBuilder::new("blur", pipeline(&["src"], &["color"]), DrawState { handle: 0 });
    b.colorInput("image", "src").colorOutput("image", "color", ColorFormat::RGBA32F);
    match b.build() {
        Err(RenderpassValidationError::CyclicDependency(p)) => assert_eq!(p, "blur"),
        _ => panic!("expected CyclicDependency"),
    }
}

#[test]
fn depth_input_reused_as_color_output_is_cyclic() {
    let mut b = RenderpassBuilder::new("resolve", pipeline(&["d"], &["color"]), DrawState { handle: 0 });
    b.depthStencilInput("depth", "d").colorOutput("depth", "color", ColorFormat::RGBA8);
    assert!(matches!(b.build(), Err(RenderpassValidationError::CyclicDependency(ref p)) if p == "resolve"));
}

#[test]
fn missing_sampler_is_reported() {
    let mut b = RenderpassBuilder::new("post", pipeline(&["bar"], &["color"]), DrawState { handle: 0 });
    b.colorInput("scene", "foo").colorOutput("SCREEN_OUTPUT", "color", ColorFormat::RGBA8);
    match b.build() {
        Err(RenderpassValidationError::ShaderUniformNotFound(pass, sampler, logical, shader)) => {
            assert_eq!(pass, "post");
            assert_eq!(sampler, "foo");
            assert_eq!(logical, "scene");
            assert_eq!(shader, "lighting");
        },
        _ => panic!("expected ShaderUniformNotFound"),
    }
}

#[test]
fn missing_depth_sampler_is_reported() {
    let mut b = RenderpassBuilder::new("post", pipeline(&[], &["color"]), DrawState { handle: 0 });
    b.depthStencilInput("depth", "shadowMap");
    assert!(matches!(
        b.build(),
        Err(RenderpassValidationError::ShaderUniformNotFound(_, ref s, ref l, _)) if s == "shadowMap" && l == "depth"
    ));
}

#[test]
fn missing_shader_output_is_reported() {
    let mut b = RenderpassBuilder::new("post", pipeline(&[], &["color"]), DrawState { handle: 0 });
    b.colorOutput("SCREEN_OUTPUT", "fragOut", ColorFormat::RGBA8);
    match b.build() {
        Err(RenderpassValidationError::ShaderOutputNotFound(pass, symbol, logical, shader)) => {
            assert_eq!(pass, "post");
            assert_eq!(symbol, "fragOut");
            assert_eq!(logical, "SCREEN_OUTPUT");
            assert_eq!(shader, "lighting");
        },
        _ => panic!("expected ShaderOutputNotFound"),
    }
}

#[test]
fn symbol_check_runs_before_self_loop_check() {
    let mut b = RenderpassBuilder::new("p", pipeline(&[], &["color"]), DrawState { handle: 0 });
    b.colorInput("x", "missing").colorOutput("x", "color", ColorFormat::RGBA8);
    assert!(matches!(b.build(), Err(RenderpassValidationError::ShaderUniformNotFound(..))));
}

#[test]
fn redeclared_color_input_replaces_the_first() {
    let mut b = RenderpassBuilder::new("p", pipeline(&["a", "b"], &["color"]), DrawState { handle: 0 });
    b.colorInput("in", "a").colorInput("other", "a").colorInput("in", "b");
    let pass = b.build().unwrap();
    assert_eq!(pass.colorInputs().len(), 2);
    assert_eq!(pass.colorInputs()[0].name, "in");
    assert_eq!(pass.colorInputs()[0].uniformName, "b");
    assert_eq!(pass.colorInputs()[1].name, "other");
}

#[test]
fn redeclared_color_output_replaces_the_first() {
    let mut b = RenderpassBuilder::new("p", pipeline(&[], &["c0", "c1"]), DrawState { handle: 0 });
    b.colorOutput("out", "c0", ColorFormat::RGBA8).colorOutput("out", "c1", ColorFormat::RGBA32F);
    let pass = b.build().unwrap();
    assert_eq!(pass.colorOutputs().len(), 1);
    assert_eq!(pass.colorOutputs()[0].layoutName, "c1");
    assert_eq!(pass.colorOutputs()[0].format, ColorFormat::RGBA32F);
}

#[test]
fn depth_slots_hold_one_attachment() {
    let mut b = RenderpassBuilder::new("p", pipeline(&["s1", "s2"], &[]), DrawState { handle: 0 });
    b.depthStencilInput("d1", "s1").depthStencilInput("d2", "s2");
    b.depthStencilOutput("o1", "", DepthStencilFormat::Depth16).depthStencilOutput("o2", "", DepthStencilFormat::Depth24Stencil8);
    let pass = b.build().unwrap();
    assert_eq!(pass.depthInput().as_ref().unwrap().name, "d2");
    assert_eq!(pass.depthOutput().as_ref().unwrap().name, "o2");
    assert_eq!(pass.depthOutput().as_ref().unwrap().format, DepthStencilFormat::Depth24Stencil8);
}

#[test]
fn duplicate_detection() {
    assert!(has_duplicate(&vec!["a".to_string(), "b".to_string(), "a".to_string()]));
    assert!(!has_duplicate(&vec!["a".to_string(), "b".to_string()]));
    assert!(!has_duplicate(&vec![]));
}
