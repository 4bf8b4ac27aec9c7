use std::sync::Arc;

use nuru_graph::graph::compiler::{validate, GraphValidationError};
use nuru_graph::graph::{AspectMask, AttachmentFormat, AttachmentUsage, Graph, GraphBuilder, GraphResources};
use nuru_graph::pipeline::{PipelineCreateInfo, PipelineDesciptor, PrimitiveTopology, VertexInputLayout};
use nuru_graph::renderpass::{DrawState, Renderpass, RenderpassBuilder};
use nuru_graph::shader::reflection::{InterfaceSymbol, ReflectionData, SymbolFormat};
use nuru_graph::shader::{Shader, ShaderCompileInfo, ShaderData, ShaderInfo};
use nuru_graph::texture::{ColorFormat, DepthStencilFormat};

fn stage(samplers: &[&str], outputs: &[&str]) -> ShaderInfo {
    let outs = outputs
        .iter()
        .map(|n| InterfaceSymbol { name: n.to_string(), format: SymbolFormat::R32G32B32A32Sfloat, location: 0 })
        .collect();
    ShaderInfo {
        module: 1,
        compileInfo: ShaderCompileInfo { entryPoint: "main".to_string(), data: ShaderData::Spirv(vec![]) },
        reflectionData: ReflectionData::from_symbols(vec![], outs, samplers.iter().map(|s| s.to_string()).collect())
            .unwrap(),
    }
}

fn pipeline() -> PipelineCreateInfo {
    let shader = Arc::new(Shader {
        name: "shader".to_string(),
        vertex: stage(&[], &[]),
        fragment: stage(&["s0", "s1", "sd"], &["o0", "o1"]),
    });
    PipelineCreateInfo::new(PipelineDesciptor {
        topology: PrimitiveTopology::Triangle,
        msaa: false,
        shader: Some(shader),
        vertexInputLayout: VertexInputLayout {},
    })
    .unwrap()
}

/// A pass reading the color attachments `inputs` and writing `outputs`.
fn pass(name: &str, inputs: &[&str], outputs: &[&str]) -> Renderpass {
    let mut b = RenderpassBuilder::new(name, pipeline(), DrawState { handle: 0 });
    for (i, n) in inputs.iter().enumerate() {
        b.colorInput(n, if i == 0 { "s0" } else { "s1" });
    }
    for (i, n) in outputs.iter().enumerate() {
        b.colorOutput(n, if i == 0 { "o0" } else { "o1" }, ColorFormat::RGBA8);
    }
    b.build().unwrap()
}

fn handles(base: u64, n: usize) -> Vec<u64> {
    (0..n as u64).map(|i| base + i).collect()
}

fn resources_for(g: &Graph, width: u32, height: u32, base: u64) -> GraphResources {
    let plan = g.resizedPlan(width, height);
    let a = plan.attachments.len();
    GraphResources {
        images: handles(base, a),
        imageViews: handles(base + 100, a),
        samplers: handles(base + 200, a),
        framebuffers: handles(base + 300, plan.framebuffers.len()),
    }
}

#[test]
fn single_screen_pass_validates() {
    let order = validate(&vec![pass("final", &[], &["SCREEN_OUTPUT"])]).unwrap();
    assert_eq!(order, vec![0]);
}

#[test]
fn no_screen_output_is_rejected() {
    let r = validate(&vec![pass("a", &[], &["X"])]);
    assert!(matches!(r, Err(GraphValidationError::NoScreenOutput)));
}

#[test]
fn empty_graph_has_no_screen_output() {
    assert!(matches!(validate(&vec![]), Err(GraphValidationError::NoScreenOutput)));
}

#[test]
fn two_screen_outputs_are_duplicate_producers() {
    let r = validate(&vec![pass("a", &[], &["SCREEN_OUTPUT"]), pass("b", &[], &["SCREEN_OUTPUT"])]);
    match r {
        Err(GraphValidationError::DuplicateProducer(n)) => assert_eq!(n, "SCREEN_OUTPUT"),
        _ => panic!("expected DuplicateProducer"),
    }
}

#[test]
fn producer_runs_before_consumer() {
    let passes = vec![pass("A", &[], &["X"]), pass("B", &["X"], &["SCREEN_OUTPUT"])];
    assert_eq!(validate(&passes).unwrap(), vec![0, 1]);
}

#[test]
fn consumer_declared_first_still_runs_second() {
    let passes = vec![pass("B", &["X"], &["SCREEN_OUTPUT"]), pass("A", &[], &["X"])];
    assert_eq!(validate(&passes).unwrap(), vec![1, 0]);
}

#[test]
fn independent_passes_keep_declaration_order() {
    let passes = vec![
        pass("late", &["L", "E"], &["SCREEN_OUTPUT"]),
        pass("light", &[], &["L"]),
        pass("emissive", &[], &["E"]),
    ];
    assert_eq!(validate(&passes).unwrap(), vec![1, 2, 0]);
    assert_eq!(validate(&passes).unwrap(), vec![1, 2, 0]);
}

#[test]
fn two_producers_of_one_output_are_rejected() {
    let passes = vec![pass("a", &[], &["Y"]), pass("b", &[], &["Y"]), pass("c", &["Y"], &["SCREEN_OUTPUT"])];
    match validate(&passes) {
        Err(GraphValidationError::DuplicateProducer(n)) => assert_eq!(n, "Y"),
        _ => panic!("expected DuplicateProducer"),
    }
}

#[test]
fn first_duplicate_in_declaration_order_is_reported() {
    let passes = vec![
        pass("a", &[], &["Y", "Z"]),
        pass("b", &[], &["Z", "Y"]),
        pass("c", &["Y", "Z"], &["SCREEN_OUTPUT"]),
    ];
    match validate(&passes) {
        Err(GraphValidationError::DuplicateProducer(n)) => assert_eq!(n, "Y"),
        _ => panic!("expected DuplicateProducer"),
    }
}

#[test]
fn first_dangling_input_in_declaration_order_is_reported() {
    let passes = vec![pass("p", &["M", "N"], &["SCREEN_OUTPUT"]), pass("q", &["K"], &["L"])];
    match validate(&passes) {
        Err(GraphValidationError::DanglingInput(p, n)) => {
            assert_eq!(p, "p");
            assert_eq!(n, "M");
        },
        _ => panic!("expected DanglingInput"),
    }
}

#[test]
fn input_without_producer_is_dangling() {
    let passes = vec![pass("p", &["Z"], &["SCREEN_OUTPUT"])];
    match validate(&passes) {
        Err(GraphValidationError::DanglingInput(p, n)) => {
            assert_eq!(p, "p");
            assert_eq!(n, "Z");
        },
        _ => panic!("expected DanglingInput"),
    }
}

#[test]
fn depth_input_needs_a_depth_producer() {
    let mut b = RenderpassBuilder::new("shade", pipeline(), DrawState { handle: 0 });
    b.depthStencilInput("D", "sd").colorOutput("SCREEN_OUTPUT", "o0", ColorFormat::RGBA8);
    let consumer = b.build().unwrap();
    let passes = vec![pass("color_d", &[], &["D"]), consumer];
    assert!(matches!(validate(&passes), Err(GraphValidationError::DanglingInput(ref p, ref n)) if p == "shade" && n == "D"));

    let mut d = RenderpassBuilder::new("prepass", pipeline(), DrawState { handle: 0 });
    d.depthStencilOutput("D", "", DepthStencilFormat::Depth24Stencil8);
    let mut b = RenderpassBuilder::new("shade", pipeline(), DrawState { handle: 0 });
    b.depthStencilInput("D", "sd").colorOutput("SCREEN_OUTPUT", "o0", ColorFormat::RGBA8);
    let passes = vec![b.build().unwrap(), d.build().unwrap()];
    assert_eq!(validate(&passes).unwrap(), vec![1, 0]);
}

#[test]
fn cycle_is_reported_with_its_passes() {
    let passes = vec![
        pass("a", &["Q"], &["P"]),
        pass("b", &["P"], &["Q"]),
        pass("out", &["P"], &["SCREEN_OUTPUT"]),
    ];
    match validate(&passes) {
        Err(GraphValidationError::CyclicDependency(names)) => {
            assert_eq!(names.len(), 2);
            assert!(names.contains(&"a".to_string()));
            assert!(names.contains(&"b".to_string()));
        },
        _ => panic!("expected CyclicDependency"),
    }
}

#[test]
fn builder_compiles_plan() {
    let mut builder = GraphBuilder::new();
    let mut d = RenderpassBuilder::new("gbuffer", pipeline(), DrawState { handle: 0 });
    d.colorOutput("albedo", "o0", ColorFormat::RGBA32F).depthStencilOutput("depth", "", DepthStencilFormat::Depth16);
    builder.addRenderpass(pass("final", &["albedo"], &["SCREEN_OUTPUT"])).addRenderpass(d.build().unwrap());
    let g = builder.build(800, 600).unwrap();
    assert_eq!(g.executionOrder(), &vec![1, 0]);
    assert_eq!(g.generation(), 0);
    let plan = g.plan();
    assert_eq!((plan.width, plan.height), (800, 600));
    assert_eq!(plan.attachments.len(), 3);
    assert_eq!(plan.attachments[0].name, "albedo");
    assert_eq!(plan.attachments[0].format, AttachmentFormat::Color(ColorFormat::RGBA32F));
    assert_eq!(plan.attachments[0].usage, AttachmentUsage::ColorAttachmentSampled);
    assert_eq!(plan.attachments[0].aspect, AspectMask::Color);
    assert_eq!(plan.attachments[1].name, "depth");
    assert_eq!(plan.attachments[1].format, AttachmentFormat::DepthStencil(DepthStencilFormat::Depth16));
    assert_eq!(plan.attachments[1].usage, AttachmentUsage::DepthStencilAttachmentSampled);
    assert_eq!(plan.attachments[1].aspect, AspectMask::DepthStencil);
    assert_eq!(plan.attachments[2].name, "SCREEN_OUTPUT");
    assert_eq!(plan.attachments[2].width, 800);
    for a in &plan.attachments {
        assert_eq!((a.mipLevels, a.arrayLayers, a.samples), (1, 1, 1));
        assert_eq!((a.viewBaseMip, a.viewMipCount, a.viewBaseLayer, a.viewLayerCount), (0, 1, 0, 1));
    }
    assert!(plan.framebuffers.iter().all(|f| f.layers == 1));
    assert_eq!(plan.framebuffers.len(), 2);
    assert_eq!(plan.framebuffers[0].pass, 1);
    assert_eq!(plan.framebuffers[0].attachments, vec![0, 1]);
    assert_eq!(plan.framebuffers[1].pass, 0);
    assert_eq!(plan.framebuffers[1].attachments, vec![2]);
    assert!(g.resources().images.is_empty());
}

#[test]
fn failed_validation_gives_no_graph() {
    let r = Graph::compile(vec![pass("a", &["nothing"], &["SCREEN_OUTPUT"])], 10, 10);
    assert!(matches!(r, Err(GraphValidationError::DanglingInput(..))));
}

#[test]
fn recreate_changes_only_dimensions() {
    let passes = vec![pass("A", &[], &["X"]), pass("B", &["X"], &["SCREEN_OUTPUT"])];
    let mut g = Graph::compile(passes, 640, 480).unwrap();
    let first = resources_for(&g, 640, 480, 1000);
    let released = g.recreate(640, 480, first.clone()).unwrap();
    assert!(released.images.is_empty() && released.framebuffers.is_empty());
    assert_eq!(g.generation(), 1);
    let before = g.plan().clone();

    let second = resources_for(&g, 1920, 1080, 5000);
    let released = g.recreate(1920, 1080, second.clone()).unwrap();
    assert_eq!(released.images, first.images);
    assert_eq!(released.imageViews, first.imageViews);
    assert_eq!(released.samplers, first.samplers);
    assert_eq!(released.framebuffers, first.framebuffers);
    assert_eq!(g.resources().images, second.images);
    assert_eq!(g.executionOrder(), &vec![0, 1]);
    assert_eq!(g.generation(), 2);

    let after = g.plan();
    assert_eq!((after.width, after.height), (1920, 1080));
    assert_eq!(after.attachments.len(), before.attachments.len());
    for (a, b) in before.attachments.iter().zip(after.attachments.iter()) {
        assert_eq!(a.name, b.name);
        assert_eq!(a.format, b.format);
        assert_eq!((b.width, b.height), (1920, 1080));
    }
    for (a, b) in before.framebuffers.iter().zip(after.framebuffers.iter()) {
        assert_eq!(a.pass, b.pass);
        assert_eq!(a.attachments, b.attachments);
        assert_eq!((b.width, b.height), (1920, 1080));
    }
}

#[test]
fn recreate_rejects_a_set_of_the_wrong_size() {
    let mut g = Graph::compile(vec![pass("only", &[], &["SCREEN_OUTPUT"])], 64, 64).unwrap();
    let wrong = GraphResources { images: vec![1, 2], imageViews: vec![3, 4], samplers: vec![5, 6], framebuffers: vec![7] };
    let back = g.recreate(128, 128, wrong.clone()).unwrap_err();
    assert_eq!(back.images, wrong.images);
    assert_eq!(g.generation(), 0);
    assert_eq!(g.plan().width, 64);
}

#[test]
fn recreate_rejects_objects_the_graph_already_owns() {
    let mut g = Graph::compile(vec![pass("only", &[], &["SCREEN_OUTPUT"])], 64, 64).unwrap();
    let first = resources_for(&g, 64, 64, 10);
    g.recreate(64, 64, first.clone()).unwrap();
    let reused = resources_for(&g, 32, 32, 10);
    assert!(g.recreate(32, 32, reused).is_err());
    assert_eq!(g.resources().images, first.images);
    assert_eq!(g.plan().width, 64);
}
