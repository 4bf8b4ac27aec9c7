use nuru_graph::shader::reflection::{
    InterfaceSymbol, ReflectionData, ReflectionError, ShaderDataType, StageSymbols, SymbolFormat,
};

fn symbol(name: &str, format: SymbolFormat, location: u32) -> InterfaceSymbol {
    InterfaceSymbol { name: name.to_string(), format, location }
}

#[test]
fn recognised_formats_map_to_semantic_types() {
    assert_eq!(ShaderDataType::from_format(SymbolFormat::R32Sint), Some(ShaderDataType::Int));
    assert_eq!(ShaderDataType::from_format(SymbolFormat::R32Uint), Some(ShaderDataType::UInt));
    assert_eq!(ShaderDataType::from_format(SymbolFormat::R32Sfloat), Some(ShaderDataType::Float));
    assert_eq!(ShaderDataType::from_format(SymbolFormat::R32G32Sfloat), Some(ShaderDataType::Vec2f));
    assert_eq!(ShaderDataType::from_format(SymbolFormat::R32G32B32Sfloat), Some(ShaderDataType::Vec3f));
    assert_eq!(ShaderDataType::from_format(SymbolFormat::R32G32B32A32Sfloat), Some(ShaderDataType::Vec4f));
}

#[test]
fn other_formats_have_no_semantic_type() {
    assert_eq!(ShaderDataType::from_format(SymbolFormat::Undefined), None);
    assert_eq!(ShaderDataType::from_format(SymbolFormat::R32G32B32Uint), None);
    assert_eq!(ShaderDataType::from_format(SymbolFormat::R32G32Sint), None);
}

#[test]
fn symbol_table_keeps_inputs_outputs_and_samplers_apart() {
    let data = ReflectionData::from_symbols(
        vec![symbol("fragColor", SymbolFormat::R32G32B32Sfloat, 0)],
        vec![symbol("color", SymbolFormat::R32G32B32A32Sfloat, 0), symbol("id", SymbolFormat::R32Uint, 1)],
        vec!["test".to_string()],
    )
    .unwrap();
    assert_eq!(data.inputs().len(), 1);
    assert_eq!(data.inputs()[0].name, "fragColor");
    assert_eq!(data.inputs()[0].dataType, ShaderDataType::Vec3f);
    assert_eq!(data.outputs().len(), 2);
    assert_eq!(data.outputs()[1].name, "id");
    assert_eq!(data.outputs()[1].dataType, ShaderDataType::UInt);
    assert_eq!(data.outputs()[1].location, 1);
    assert!(data.output(&"color".to_string()).is_some());
    assert!(data.output(&"fragColor".to_string()).is_none());
    assert!(data.input(&"fragColor".to_string()).is_some());
    assert!(data.input(&"color".to_string()).is_none());
    assert!(data.contains_sampler(&"test".to_string()));
    assert!(!data.contains_sampler(&"other".to_string()));
    assert_eq!(data.samplers(), &vec!["test".to_string()]);
}

#[test]
fn unrecognised_input_format_is_an_error() {
    let r = ReflectionData::from_symbols(
        vec![symbol("a", SymbolFormat::R32Sfloat, 0), symbol("weird", SymbolFormat::R32G32B32Uint, 1)],
        vec![],
        vec![],
    );
    match r {
        Err(ReflectionError::UnrecognizedDataFormat(name)) => assert_eq!(name, "weird"),
        _ => panic!("expected UnrecognizedDataFormat"),
    }
}

#[test]
fn unrecognised_output_format_is_an_error() {
    let r = ReflectionData::from_symbols(vec![], vec![symbol("out", SymbolFormat::Undefined, 0)], vec![]);
    assert!(matches!(r, Err(ReflectionError::UnrecognizedDataFormat(ref n)) if n == "out"));
}

#[test]
fn empty_symbol_table() {
    let data = ReflectionData::from_symbols(vec![], vec![], vec![]).unwrap();
    assert!(data.inputs().is_empty());
    assert!(data.outputs().is_empty());
    assert!(data.samplers().is_empty());
}

#[test]
fn later_variable_of_a_name_wins() {
    let data = ReflectionData::from_symbols(
        vec![
            symbol("a", SymbolFormat::R32Sfloat, 0),
            symbol("b", SymbolFormat::R32Uint, 1),
            symbol("a", SymbolFormat::R32G32Sfloat, 2),
        ],
        vec![],
        vec![],
    )
    .unwrap();
    assert_eq!(data.inputs().len(), 2);
    let a = data.input(&"a".to_string()).unwrap();
    assert_eq!(a.dataType, ShaderDataType::Vec2f);
    assert_eq!(a.location, 2);
    assert_eq!(data.input(&"b".to_string()).unwrap().location, 1);
}

#[test]
fn binding_names_are_kept_once() {
    let data = ReflectionData::from_symbols(
        vec![],
        vec![],
        vec!["tex".to_string(), "shadow".to_string(), "tex".to_string()],
    )
    .unwrap();
    assert_eq!(data.samplers(), &vec!["tex".to_string(), "shadow".to_string()]);
    assert!(data.contains_sampler(&"shadow".to_string()));
}

#[test]
fn stage_listing_becomes_a_symbol_table() {
    let stage = StageSymbols {
        inputs: vec![symbol("fragColor", SymbolFormat::R32G32B32Sfloat, 0)],
        outputs: vec![symbol("color", SymbolFormat::R32G32B32A32Sfloat, 0)],
        bindings: vec!["test".to_string()],
    };
    let data = stage.reflect().unwrap();
    assert_eq!(data.inputs()[0].dataType, ShaderDataType::Vec3f);
    assert_eq!(data.outputs()[0].name, "color");
    assert!(data.contains_sampler(&"test".to_string()));
}

#[test]
fn stage_listing_with_unknown_format_fails() {
    let stage = StageSymbols {
        inputs: vec![],
        outputs: vec![symbol("color", SymbolFormat::R32G32B32A32Uint, 0)],
        bindings: vec![],
    };
    assert!(matches!(stage.reflect(), Err(ReflectionError::UnrecognizedDataFormat(ref n)) if n == "color"));
}
