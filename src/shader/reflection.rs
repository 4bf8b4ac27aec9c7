//! Symbol tables of compiled shader binaries.

use vstd::prelude::*;

verus! {

/// Semantic type of a shader interface variable.
#[derive(Clone, Copy, Debug, PartialEq, Eq, Structural)]
pub enum ShaderDataType {
    Int,
    UInt,
    Float,
    Vec2f,
    Vec3f,
    Vec4f,
}

/// Binary data format of an interface variable, as the shader binary states it.
#[derive(Clone, Copy, Debug, PartialEq, Eq, Structural)]
pub enum SymbolFormat {
    Undefined,
    R32Uint,
    R32Sint,
    R32Sfloat,
    R32G32Uint,
    R32G32Sint,
    R32G32Sfloat,
    R32G32B32Uint,
    R32G32B32Sint,
    R32G32B32Sfloat,
    R32G32B32A32Uint,
    R32G32B32A32Sint,
    R32G32B32A32Sfloat,
}

/// The semantic type that a binary format stands for, if it is one the
/// engine recognises.
pub open spec fn data_type_of(f: SymbolFormat) -> Option<ShaderDataType> {
    match f {
        SymbolFormat::R32Sint => Some(ShaderDataType::Int),
        SymbolFormat::R32Uint => Some(ShaderDataType::UInt),
        SymbolFormat::R32Sfloat => Some(ShaderDataType::Float),
        SymbolFormat::R32G32Sfloat => Some(ShaderDataType::Vec2f),
        SymbolFormat::R32G32B32Sfloat => Some(ShaderDataType::Vec3f),
        SymbolFormat::R32G32B32A32Sfloat => Some(ShaderDataType::Vec4f),
        _ => None,
    }
}

impl ShaderDataType {
    /// The semantic type of a binary format; `None` for a format that has
    /// no semantic type here.
    pub fn from_format(f: SymbolFormat) -> (r: Option<ShaderDataType>)
        ensures
            r == data_type_of(f),
    {
        match f {
            SymbolFormat::R32Sint => Some(ShaderDataType::Int),
            SymbolFormat::R32Uint => Some(ShaderDataType::UInt),
            SymbolFormat::R32Sfloat => Some(ShaderDataType::Float),
            SymbolFormat::R32G32Sfloat => Some(ShaderDataType::Vec2f),
            SymbolFormat::R32G32B32Sfloat => Some(ShaderDataType::Vec3f),
            SymbolFormat::R32G32B32A32Sfloat => Some(ShaderDataType::Vec4f),
            _ => None,
        }
    }
}

/// An interface variable as the binary lists it, before its format is
/// interpreted.
#[derive(Clone, Debug)]
pub struct InterfaceSymbol {
    pub name: String,
    pub format: SymbolFormat,
    pub location: u32,
}

/// An interface variable of a shader with its semantic type.
#[derive(Clone, Debug)]
pub struct ShaderVariable {
    pub name: String,
    pub dataType: ShaderDataType,
    pub location: u32,
}

/// Why a shader's symbol table could not be extracted.
#[derive(Clone, Debug)]
pub enum ReflectionError {
    /// The named variable has a binary format with no semantic type.
    UnrecognizedDataFormat(String),
    /// The binary could not be read; the text says why.
    InvalidBinary(String),
}

/// The symbol table of one shader stage: its input and output variables
/// and the names of its resource bindings.
pub struct ReflectionData {
    inputs: Vec<ShaderVariable>,
    outputs: Vec<ShaderVariable>,
    samplers: Vec<String>,
}

/// A listed variable as plain values: name, binary format, location.
pub open spec fn symbol_view(s: InterfaceSymbol) -> (Seq<char>, SymbolFormat, u32) {
    (s.name@, s.format, s.location)
}

pub open spec fn symbol_views(s: Seq<InterfaceSymbol>) -> Seq<(Seq<char>, SymbolFormat, u32)> {
    s.map_values(|x: InterfaceSymbol| symbol_view(x))
}

/// What `symbol` becomes once its format is interpreted.
pub open spec fn variable_matches(v: ShaderVariable, symbol: (Seq<char>, SymbolFormat, u32)) -> bool {
    &&& v.name@ == symbol.0
    &&& Some(v.dataType) == data_type_of(symbol.1)
    &&& v.location == symbol.2
}

/// Every symbol of the list has a recognised format.
pub open spec fn all_recognised(symbols: Seq<(Seq<char>, SymbolFormat, u32)>) -> bool {
    forall|i: int| 0 <= i < symbols.len() ==> data_type_of(#[trigger] symbols[i].1).is_some()
}

/// No later symbol of the list has the name of symbol `i`.
pub open spec fn last_of(symbols: Seq<(Seq<char>, SymbolFormat, u32)>, i: int) -> bool {
    forall|j: int| i < j < symbols.len() ==> (#[trigger] symbols[j]).0 != symbols[i].0
}

/// Variable `k` is the interpretation of a symbol that is the last of its name.
pub open spec fn stands_for_last(vars: Seq<ShaderVariable>, symbols: Seq<(Seq<char>, SymbolFormat, u32)>, k: int) -> bool {
    exists|i: int| 0 <= i < symbols.len() && last_of(symbols, i) && #[trigger] variable_matches(vars[k], symbols[i])
}

/// Symbol `i` is interpreted by some variable.
pub open spec fn kept(vars: Seq<ShaderVariable>, symbols: Seq<(Seq<char>, SymbolFormat, u32)>, i: int) -> bool {
    exists|k: int| 0 <= k < vars.len() && #[trigger] variable_matches(vars[k], symbols[i])
}

/// No two variables of the list share a name.
pub open spec fn unique_variables(vars: Seq<ShaderVariable>) -> bool {
    forall|a: int, b: int| 0 <= a < vars.len() && 0 <= b < vars.len() && a != b ==> vars[a].name@ != vars[b].name@
}

/// `vars` maps each name of `symbols` to the interpretation of the last
/// symbol of that name, and holds nothing else.
pub open spec fn interprets(vars: Seq<ShaderVariable>, symbols: Seq<(Seq<char>, SymbolFormat, u32)>) -> bool {
    &&& unique_variables(vars)
    &&& forall|k: int| 0 <= k < vars.len() ==> stands_for_last(vars, symbols, k)
    &&& forall|i: int| 0 <= i < symbols.len() && last_of(symbols, i) ==> kept(vars, symbols, i)
}

/// Whether some variable of the list is called `name`.
pub open spec fn has_variable(vars: Seq<ShaderVariable>, name: Seq<char>) -> bool {
    exists|i: int| 0 <= i < vars.len() && (#[trigger] vars[i]).name@ == name
}

/// Whether some name of the list equals `name`.
pub open spec fn has_name(names: Seq<String>, name: Seq<char>) -> bool {
    exists|i: int| 0 <= i < names.len() && (#[trigger] names[i])@ == name
}

impl ReflectionData {
    pub closed spec fn spec_inputs(&self) -> Seq<ShaderVariable> {
        self.inputs@
    }

    pub closed spec fn spec_outputs(&self) -> Seq<ShaderVariable> {
        self.outputs@
    }

    pub closed spec fn spec_samplers(&self) -> Seq<String> {
        self.samplers@
    }

    /// Whether the stage has a resource binding called `name`.
    pub open spec fn has_sampler(&self, name: Seq<char>) -> bool {
        has_name(self.spec_samplers(), name)
    }

    /// Whether the stage has an output variable called `name`.
    pub open spec fn has_output(&self, name: Seq<char>) -> bool {
        has_variable(self.spec_outputs(), name)
    }

    pub fn inputs(&self) -> (r: &Vec<ShaderVariable>)
        ensures
            r@ == self.spec_inputs(),
    {
        &self.inputs
    }

    pub fn outputs(&self) -> (r: &Vec<ShaderVariable>)
        ensures
            r@ == self.spec_outputs(),
    {
        &self.outputs
    }

    pub fn samplers(&self) -> (r: &Vec<String>)
        ensures
            r@ == self.spec_samplers(),
    {
        &self.samplers
    }

    /// Builds a symbol table from the variables and binding names that a
    /// binary lists. Variables are keyed by name; when a name is listed
    /// twice the later variable wins. Binding names form a set: each is kept
    /// once. A variable whose format has no
    /// semantic type makes the whole table fail: no format is ever replaced
    /// by a default.
    pub fn from_symbols(inputs: Vec<InterfaceSymbol>, outputs: Vec<InterfaceSymbol>, samplers: Vec<String>)
        -> (r: Result<ReflectionData, ReflectionError>)
        ensures
            r is Ok <==> all_recognised(symbol_views(inputs@)) && all_recognised(symbol_views(outputs@)),
            r matches Ok(d) ==> {
                &&& interprets(d.spec_inputs(), symbol_views(inputs@))
                &&& interprets(d.spec_outputs(), symbol_views(outputs@))
                &&& unique_names(d.spec_samplers())
                &&& same_names(d.spec_samplers(), samplers@)
            },
            r matches Err(e) ==> e matches ReflectionError::UnrecognizedDataFormat(_),
    {
        let ins = interpret_symbols(&inputs)?;
        let outs = interpret_symbols(&outputs)?;
        let names = distinct_names(&samplers);
        Ok(ReflectionData { inputs: ins, outputs: outs, samplers: names })
    }

    /// Looks up an input variable by name.
    pub fn input(&self, name: &String) -> (r: Option<&ShaderVariable>)
        ensures
            r is Some <==> has_variable(self.spec_inputs(), name@),
            r matches Some(v) ==> v.name@ == name@,
    {
        find_variable(&self.inputs, name)
    }

    /// Looks up an output variable by name.
    pub fn output(&self, name: &String) -> (r: Option<&ShaderVariable>)
        ensures
            r is Some <==> self.has_output(name@),
            r matches Some(v) ==> v.name@ == name@,
    {
        find_variable(&self.outputs, name)
    }

    /// Whether the stage has a resource binding called `name`.
    pub fn contains_sampler(&self, name: &String) -> (r: bool)
        ensures
            r == self.has_sampler(name@),
    {
        contains_name(&self.samplers, name)
    }
}

fn variable_index(vars: &Vec<ShaderVariable>, name: &String) -> (r: Option<usize>)
    ensures
        r matches Some(k) ==> k < vars@.len() && vars@[k as int].name@ == name@,
        r is None ==> forall|k: int| 0 <= k < vars@.len() ==> (#[trigger] vars@[k]).name@ != name@,
{
    let mut i: usize = 0;
    while i < vars.len()
        invariant
            0 <= i <= vars@.len(),
            forall|k: int| 0 <= k < i ==> (#[trigger] vars@[k]).name@ != name@,
        decreases vars@.len() - i,
    {
        if vars[i].name == *name {
            return Some(i);
        }
        i = i + 1;
    }
    None
}

fn find_variable<'a>(vars: &'a Vec<ShaderVariable>, name: &String) -> (r: Option<&'a ShaderVariable>)
    ensures
        r is Some <==> has_variable(vars@, name@),
        r matches Some(v) ==> v.name@ == name@,
{
    match variable_index(vars, name) {
        Some(k) => Some(&vars[k]),
        None => None,
    }
}

proof fn lemma_interprets_replace(
    old: Seq<ShaderVariable>,
    t: Seq<(Seq<char>, SymbolFormat, u32)>,
    s: (Seq<char>, SymbolFormat, u32),
    v: ShaderVariable,
    k: int,
)
    requires
        interprets(old, t),
        variable_matches(v, s),
        0 <= k < old.len(),
        old[k].name@ == s.0,
    ensures
        interprets(old.update(k, v), t.push(s)),
{
    let new = old.update(k, v);
    let t2 = t.push(s);
    assert forall|a: int| 0 <= a < new.len() implies (#[trigger] new[a]).name@ == old[a].name@ by {}
    assert forall|k2: int| 0 <= k2 < new.len() implies stands_for_last(new, t2, k2) by {
        if k2 == k {
            assert(variable_matches(new[k2], t2[t.len() as int]));
        } else {
            assert(stands_for_last(old, t, k2));
            let i = choose|i: int| 0 <= i < t.len() && last_of(t, i) && #[trigger] variable_matches(old[k2], t[i]);
            assert(t2[i] == t[i]);
            assert forall|j: int| i < j < t2.len() implies (#[trigger] t2[j]).0 != t2[i].0 by {
                if j < t.len() {
                    assert(t2[j] == t[j]);
                }
            }
            assert(variable_matches(new[k2], t2[i]));
        }
    }
    assert forall|i: int| 0 <= i < t2.len() && last_of(t2, i) implies kept(new, t2, i) by {
        if i == t.len() {
            assert(variable_matches(new[k], t2[i]));
        } else {
            assert(t2[i] == t[i]);
            assert(t2[t.len() as int] == s);
            assert forall|j: int| i < j < t.len() implies (#[trigger] t[j]).0 != t[i].0 by {
                assert(t2[j] == t[j]);
            }
            assert(last_of(t, i));
            assert(kept(old, t, i));
            let k2 = choose|k2: int| 0 <= k2 < old.len() && #[trigger] variable_matches(old[k2], t[i]);
            assert(k2 != k);
            assert(variable_matches(new[k2], t2[i]));
        }
    }
}

proof fn lemma_interprets_append(
    old: Seq<ShaderVariable>,
    t: Seq<(Seq<char>, SymbolFormat, u32)>,
    s: (Seq<char>, SymbolFormat, u32),
    v: ShaderVariable,
)
    requires
        interprets(old, t),
        variable_matches(v, s),
        forall|k: int| 0 <= k < old.len() ==> (#[trigger] old[k]).name@ != s.0,
    ensures
        interprets(old.push(v), t.push(s)),
{
    let new = old.push(v);
    let t2 = t.push(s);
    assert forall|k2: int| 0 <= k2 < new.len() implies stands_for_last(new, t2, k2) by {
        if k2 == old.len() {
            assert(variable_matches(new[k2], t2[t.len() as int]));
        } else {
            assert(stands_for_last(old, t, k2));
            let i = choose|i: int| 0 <= i < t.len() && last_of(t, i) && #[trigger] variable_matches(old[k2], t[i]);
            assert(t2[i] == t[i]);
            assert(old[k2].name@ != s.0);
            assert forall|j: int| i < j < t2.len() implies (#[trigger] t2[j]).0 != t2[i].0 by {
                if j < t.len() {
                    assert(t2[j] == t[j]);
                }
            }
            assert(new[k2] == old[k2]);
            assert(variable_matches(new[k2], t2[i]));
        }
    }
    assert forall|i: int| 0 <= i < t2.len() && last_of(t2, i) implies kept(new, t2, i) by {
        if i == t.len() {
            assert(variable_matches(new[old.len() as int], t2[i]));
        } else {
            assert(t2[i] == t[i]);
            assert forall|j: int| i < j < t.len() implies (#[trigger] t[j]).0 != t[i].0 by {
                assert(t2[j] == t[j]);
            }
            assert(last_of(t, i));
            assert(kept(old, t, i));
            let k2 = choose|k2: int| 0 <= k2 < old.len() && #[trigger] variable_matches(old[k2], t[i]);
            assert(new[k2] == old[k2]);
            assert(variable_matches(new[k2], t2[i]));
        }
    }
}

fn interpret_symbols(symbols: &Vec<InterfaceSymbol>) -> (r: Result<Vec<ShaderVariable>, ReflectionError>)
    ensures
        r is Ok <==> all_recognised(symbol_views(symbols@)),
        r matches Ok(vars) ==> interprets(vars@, symbol_views(symbols@)),
        r matches Err(e) ==> e matches ReflectionError::UnrecognizedDataFormat(_),
{
    let ghost syms = symbol_views(symbols@);
    let mut vars: Vec<ShaderVariable> = Vec::new();
    let mut i: usize = 0;
    while i < symbols.len()
        invariant
            syms == symbol_views(symbols@),
            0 <= i <= symbols@.len(),
            interprets(vars@, syms.take(i as int)),
            all_recognised(syms.take(i as int)),
        decreases symbols@.len() - i,
    {
        let s = &symbols[i];
        assert(syms[i as int] == symbol_view(*s));
        assert(syms.take(i + 1) =~= syms.take(i as int).push(syms[i as int]));
        match ShaderDataType::from_format(s.format) {
            Some(t) => {
                let v = ShaderVariable { name: s.name.clone(), dataType: t, location: s.location };
                let ghost old_vars = vars@;
                match variable_index(&vars, &s.name) {
                    Some(k) => {
                        vars.set(k, v);
                        proof {
                            lemma_interprets_replace(old_vars, syms.take(i as int), syms[i as int], v, k as int);
                        }
                    },
                    None => {
                        vars.push(v);
                        proof {
                            lemma_interprets_append(old_vars, syms.take(i as int), syms[i as int], v);
                        }
                    },
                }
            },
            None => {
                assert(!all_recognised(syms)) by {
                    assert(data_type_of(syms[i as int].1).is_none());
                }
                return Err(ReflectionError::UnrecognizedDataFormat(s.name.clone()));
            },
        }
        i = i + 1;
    }
    assert(syms.take(symbols@.len() as int) =~= syms);
    Ok(vars)
}

fn contains_name(names: &Vec<String>, name: &String) -> (r: bool)
    ensures
        r == has_name(names@, name@),
{
    let mut i: usize = 0;
    while i < names.len()
        invariant
            0 <= i <= names@.len(),
            forall|k: int| 0 <= k < i ==> (#[trigger] names@[k])@ != name@,
        decreases names@.len() - i,
    {
        if names[i] == *name {
            return true;
        }
        i = i + 1;
    }
    false
}

/// No two names of the list are equal.
pub open spec fn unique_names(names: Seq<String>) -> bool {
    forall|a: int, b: int| 0 <= a < names.len() && 0 <= b < names.len() && a != b ==> names[a]@ != names[b]@
}

/// The two lists hold the same names.
pub open spec fn same_names(a: Seq<String>, b: Seq<String>) -> bool {
    forall|n: Seq<char>| #[trigger] has_name(a, n) == has_name(b, n)
}

/// The names of the list, each once, in order of first appearance.
fn distinct_names(names: &Vec<String>) -> (r: Vec<String>)
    ensures
        unique_names(r@),
        same_names(r@, names@),
{
    let mut out: Vec<String> = Vec::new();
    let mut i: usize = 0;
    while i < names.len()
        invariant
            0 <= i <= names@.len(),
            unique_names(out@),
            same_names(out@, names@.take(i as int)),
        decreases names@.len() - i,
    {
        let ghost prev = out@;
        let ghost t = names@.take(i as int);
        let ghost t2 = names@.take(i + 1);
        assert(t2 =~= t.push(names@[i as int]));
        if !contains_name(&out, &names[i]) {
            out.push(names[i].clone());
            assert forall|n: Seq<char>| #[trigger] has_name(out@, n) == has_name(t2, n) by {
                if has_name(out@, n) {
                    let k = choose|k: int| 0 <= k < out@.len() && (#[trigger] out@[k])@ == n;
                    if k < prev.len() {
                        assert(prev[k] == out@[k]);
                        assert(has_name(prev, n));
                        assert(has_name(prev, n) == has_name(t, n));
                        let j = choose|j: int| 0 <= j < t.len() && (#[trigger] t[j])@ == n;
                        assert(t2[j] == t[j]);
                    } else {
                        assert(t2[i as int] == names@[i as int]);
                    }
                }
                if has_name(t2, n) {
                    let j = choose|j: int| 0 <= j < t2.len() && (#[trigger] t2[j])@ == n;
                    if j < i {
                        assert(t[j] == t2[j]);
                        assert(has_name(t, n));
                        assert(has_name(prev, n) == has_name(t, n));
                        let k = choose|k: int| 0 <= k < prev.len() && (#[trigger] prev[k])@ == n;
                        assert(out@[k] == prev[k]);
                    } else {
                        assert(out@[prev.len() as int]@ == n);
                    }
                }
            }
        } else {
            assert forall|n: Seq<char>| #[trigger] has_name(out@, n) == has_name(t2, n) by {
                if has_name(t2, n) {
                    let j = choose|j: int| 0 <= j < t2.len() && (#[trigger] t2[j])@ == n;
                    if j < i {
                        assert(t[j] == t2[j]);
                        assert(has_name(t, n));
                    }
                    assert(has_name(prev, n) == has_name(t, n));
                }
                assert(has_name(prev, n) == has_name(t, n));
                if has_name(t, n) {
                    let j = choose|j: int| 0 <= j < t.len() && (#[trigger] t[j])@ == n;
                    assert(t2[j] == t[j]);
                }
            }
        }
        i = i + 1;
    }
    assert(names@.take(names@.len() as int) =~= names@);
    out
}

/// What a binary lists for one shader stage: its input and output
/// variables and the names of its resource bindings.
pub struct StageSymbols {
    pub inputs: Vec<InterfaceSymbol>,
    pub outputs: Vec<InterfaceSymbol>,
    pub bindings: Vec<String>,
}

/// Every variable the stage lists has a semantic type.
pub open spec fn stage_recognised(s: StageSymbols) -> bool {
    all_recognised(symbol_views(s.inputs@)) && all_recognised(symbol_views(s.outputs@))
}

/// `d` is the symbol table of the stage that lists `s`.
pub open spec fn table_of(d: ReflectionData, s: StageSymbols) -> bool {
    &&& interprets(d.spec_inputs(), symbol_views(s.inputs@))
    &&& interprets(d.spec_outputs(), symbol_views(s.outputs@))
    &&& unique_names(d.spec_samplers())
    &&& same_names(d.spec_samplers(), s.bindings@)
}

impl StageSymbols {
    /// The symbol table of the stage; see `ReflectionData::from_symbols`.
    pub fn reflect(self) -> (r: Result<ReflectionData, ReflectionError>)
        ensures
            r is Ok <==> stage_recognised(self),
            r matches Ok(d) ==> table_of(d, self),
            r matches Err(e) ==> e is UnrecognizedDataFormat,
    {
        ReflectionData::from_symbols(self.inputs, self.outputs, self.bindings)
    }
}

} // verus!
