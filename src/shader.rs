//! Shader programs: two compiled stages with their symbol tables.

use std::sync::Arc;
use vstd::prelude::*;

pub mod reflection;

use crate::shader::reflection::{stage_recognised, table_of, ReflectionData, ReflectionError, StageSymbols};

verus! {

/// What a shader stage is given as: source text to compile, or a binary
/// that is already compiled.
pub enum ShaderData {
    Source(String),
    Spirv(Vec<u8>),
}

/// How to obtain one stage of a shader.
pub struct ShaderCompileInfo {
    pub entryPoint: String,
    pub data: ShaderData,
}

/// Why a shader could not be created.
#[derive(Clone, Debug)]
pub enum ShaderCreateError {
    /// A source file whose kind could not be told from its name.
    UnrecognizedExtension(String),
    /// Compilation failed: the shader's name and the compiler's diagnostic.
    CompilationError(String, String),
    /// The compiled binary's symbol table could not be extracted.
    Reflection(ReflectionError),
}

/// One compiled stage: the handle of its GPU module, how it was obtained,
/// and its symbol table.
pub struct ShaderInfo {
    pub module: u64,
    pub compileInfo: ShaderCompileInfo,
    pub reflectionData: ReflectionData,
}

/// A vertex and a fragment stage under one name, shared read-only by every
/// pass built from it.
pub struct Shader {
    pub name: String,
    pub vertex: ShaderInfo,
    pub fragment: ShaderInfo,
}

impl Shader {
    /// Assembles a shader from its two compiled stages: the symbols each
    /// binary lists are turned into that stage's symbol table, vertex
    /// first, and the handles of the GPU modules made from the binaries are
    /// kept. The first stage that lists a variable without a semantic type
    /// fails the whole shader with that stage's error.
    pub fn create(
        name: String,
        vertexInfo: ShaderCompileInfo,
        vertexSymbols: StageSymbols,
        vertexModule: u64,
        fragmentInfo: ShaderCompileInfo,
        fragmentSymbols: StageSymbols,
        fragmentModule: u64,
    ) -> (r: Result<Arc<Shader>, ShaderCreateError>)
        ensures
            r is Ok <==> stage_recognised(vertexSymbols) && stage_recognised(fragmentSymbols),
            r matches Ok(s) ==> {
                &&& s.name == name
                &&& s.vertex.module == vertexModule
                &&& s.vertex.compileInfo == vertexInfo
                &&& table_of(s.vertex.reflectionData, vertexSymbols)
                &&& s.fragment.module == fragmentModule
                &&& s.fragment.compileInfo == fragmentInfo
                &&& table_of(s.fragment.reflectionData, fragmentSymbols)
            },
            r matches Err(e) ==> (e matches ShaderCreateError::Reflection(re) && re is UnrecognizedDataFormat),
    {
        let ghost vs = vertexSymbols;
        let ghost fs = fragmentSymbols;
        let vertexReflect = match vertexSymbols.reflect() {
            Ok(d) => d,
            Err(e) => return Err(ShaderCreateError::Reflection(e)),
        };
        let fragmentReflect = match fragmentSymbols.reflect() {
            Ok(d) => d,
            Err(e) => return Err(ShaderCreateError::Reflection(e)),
        };
        let vertex = ShaderInfo { module: vertexModule, compileInfo: vertexInfo, reflectionData: vertexReflect };
        let fragment = ShaderInfo {
            module: fragmentModule,
            compileInfo: fragmentInfo,
            reflectionData: fragmentReflect,
        };
        Ok(Arc::new(Shader { name, vertex, fragment }))
    }
}

} // verus!
