//! Pass descriptors: the named attachments a pass reads and writes, checked
//! against its fragment shader when the pass is built.

use vstd::prelude::*;

use crate::pipeline::PipelineCreateInfo;
use crate::texture::{ColorFormat, DepthStencilFormat};

verus! {

/// Per-pass draw state, handed to the frame executor as an opaque handle
/// that the compiler never inspects.
#[derive(Clone, Copy, Debug, PartialEq, Eq, Structural)]
pub struct DrawState {
    pub handle: u64,
}

/// A sampled color attachment: its logical name and the shader sampler it binds to.
#[derive(Clone, Debug)]
pub struct ColorInput {
    pub name: String,
    pub uniformName: String,
}

/// A sampled depth/stencil attachment: its logical name and the shader sampler it binds to.
#[derive(Clone, Debug)]
pub struct DepthStencilInput {
    pub name: String,
    pub uniformName: String,
}

/// A color attachment the pass renders into: its logical name, the shader
/// output that writes it, and its pixel format.
#[derive(Clone, Debug)]
pub struct ColorOutput {
    pub name: String,
    pub layoutName: String,
    pub format: ColorFormat,
}

/// A depth/stencil attachment the pass renders into.
#[derive(Clone, Debug)]
pub struct DepthStencilOutput {
    pub name: String,
    pub format: DepthStencilFormat,
}

/// Why a single pass is rejected when it is built.
#[derive(Clone, Debug)]
pub enum RenderpassValidationError {
    /// The pass uses one logical name twice, as an input and an output.
    CyclicDependency(String),
    /// Pass name, sampler name, logical input name, shader name.
    ShaderUniformNotFound(String, String, String, String),
    /// Pass name, shader output name, logical output name, shader name.
    ShaderOutputNotFound(String, String, String, String),
}

pub open spec fn input_names(s: Seq<ColorInput>) -> Seq<Seq<char>> {
    s.map_values(|c: ColorInput| c.name@)
}

pub open spec fn output_names(s: Seq<ColorOutput>) -> Seq<Seq<char>> {
    s.map_values(|c: ColorOutput| c.name@)
}

/// No name occurs twice in the list.
pub open spec fn distinct_names(names: Seq<Seq<char>>) -> bool {
    forall|i: int, j: int| 0 <= i < names.len() && 0 <= j < names.len() && i != j ==> names[i] != names[j]
}

pub open spec fn depth_input_names(d: Option<DepthStencilInput>) -> Seq<Seq<char>> {
    match d {
        Some(x) => seq![x.name@],
        None => Seq::empty(),
    }
}

pub open spec fn depth_output_names(d: Option<DepthStencilOutput>) -> Seq<Seq<char>> {
    match d {
        Some(x) => seq![x.name@],
        None => Seq::empty(),
    }
}

/// `new` is `old` with the color input `name` bound to `uniform`: in its
/// place if `old` already declares `name`, appended otherwise.
pub open spec fn input_upserted(old: Seq<ColorInput>, new: Seq<ColorInput>, name: Seq<char>, uniform: Seq<char>) -> bool {
    if exists|i: int| 0 <= i < old.len() && (#[trigger] old[i]).name@ == name {
        exists|i: int|
            0 <= i < old.len() && (#[trigger] old[i]).name@ == name && new.len() == old.len() && new[i].name@ == name
                && new[i].uniformName@ == uniform && forall|k: int| 0 <= k < old.len() && k != i ==> new[k] == old[k]
    } else {
        &&& new.len() == old.len() + 1
        &&& new.take(old.len() as int) == old
        &&& new.last().name@ == name
        &&& new.last().uniformName@ == uniform
    }
}

/// `new` is `old` with the color output `name` written by shader output
/// `layout` in `format`: in its place if `old` already declares `name`,
/// appended otherwise.
pub open spec fn output_upserted(
    old: Seq<ColorOutput>,
    new: Seq<ColorOutput>,
    name: Seq<char>,
    layout: Seq<char>,
    format: ColorFormat,
) -> bool {
    if exists|i: int| 0 <= i < old.len() && (#[trigger] old[i]).name@ == name {
        exists|i: int|
            0 <= i < old.len() && (#[trigger] old[i]).name@ == name && new.len() == old.len() && new[i].name@ == name
                && new[i].layoutName@ == layout && new[i].format == format && forall|k: int|
                0 <= k < old.len() && k != i ==> new[k] == old[k]
    } else {
        &&& new.len() == old.len() + 1
        &&& new.take(old.len() as int) == old
        &&& new.last().name@ == name
        &&& new.last().layoutName@ == layout
        &&& new.last().format == format
    }
}

/// Accumulates the attachments of one pass before it is validated.
pub struct RenderpassBuilder {
    name: String,
    pipeline: PipelineCreateInfo,
    drawState: DrawState,
    colorInputs: Vec<ColorInput>,
    colorOutputs: Vec<ColorOutput>,
    depthInput: Option<DepthStencilInput>,
    depthOutput: Option<DepthStencilOutput>,
}

impl RenderpassBuilder {
    pub closed spec fn spec_name(&self) -> Seq<char> {
        self.name@
    }

    pub closed spec fn spec_pipeline(&self) -> PipelineCreateInfo {
        self.pipeline
    }

    pub closed spec fn spec_draw_state(&self) -> DrawState {
        self.drawState
    }

    pub closed spec fn spec_color_inputs(&self) -> Seq<ColorInput> {
        self.colorInputs@
    }

    pub closed spec fn spec_color_outputs(&self) -> Seq<ColorOutput> {
        self.colorOutputs@
    }

    pub closed spec fn spec_depth_input(&self) -> Option<DepthStencilInput> {
        self.depthInput
    }

    pub closed spec fn spec_depth_output(&self) -> Option<DepthStencilOutput> {
        self.depthOutput
    }

    /// Color inputs are keyed by their logical name, and so are color outputs.
    pub open spec fn wf(&self) -> bool {
        &&& distinct_names(input_names(self.spec_color_inputs()))
        &&& distinct_names(output_names(self.spec_color_outputs()))
    }

    /// Every logical name the pass declares: color inputs, color outputs,
    /// then the depth input and the depth output if there are any.
    pub open spec fn all_names(&self) -> Seq<Seq<char>> {
        input_names(self.spec_color_inputs()) + output_names(self.spec_color_outputs())
            + depth_input_names(self.spec_depth_input()) + depth_output_names(self.spec_depth_output())
    }

    /// The fragment stage binds every sampler that an input names, and has
    /// every output symbol that a color output names.
    pub open spec fn symbols_valid(&self) -> bool {
        let fragment = self.spec_pipeline().shader.fragment.reflectionData;
        &&& forall|i: int|
            0 <= i < self.spec_color_inputs().len() ==> fragment.has_sampler(
                (#[trigger] self.spec_color_inputs()[i]).uniformName@,
            )
        &&& forall|i: int|
            0 <= i < self.spec_color_outputs().len() ==> fragment.has_output(
                (#[trigger] self.spec_color_outputs()[i]).layoutName@,
            )
        &&& self.spec_depth_input() matches Some(d) ==> fragment.has_sampler(d.uniformName@)
    }

    /// `e` names a declared input whose sampler the fragment stage lacks, or
    /// a declared color output whose shader output it lacks, together with
    /// the pass's name and the shader's name.
    pub open spec fn reports_missing_symbol(&self, e: RenderpassValidationError) -> bool {
        let shader = self.spec_pipeline().shader;
        let fragment = shader.fragment.reflectionData;
        match e {
            RenderpassValidationError::ShaderUniformNotFound(pass, sampler, logical, shaderName) => {
                &&& pass@ == self.spec_name()
                &&& shaderName@ == shader.name@
                &&& !fragment.has_sampler(sampler@)
                &&& (exists|i: int|
                    0 <= i < self.spec_color_inputs().len() && (#[trigger] self.spec_color_inputs()[i]).name@ == logical@
                        && self.spec_color_inputs()[i].uniformName@ == sampler@) || (self.spec_depth_input() matches Some(
                    d,
                ) && d.name@ == logical@ && d.uniformName@ == sampler@)
            },
            RenderpassValidationError::ShaderOutputNotFound(pass, symbol, logical, shaderName) => {
                &&& pass@ == self.spec_name()
                &&& shaderName@ == shader.name@
                &&& !fragment.has_output(symbol@)
                &&& exists|i: int|
                    0 <= i < self.spec_color_outputs().len() && (#[trigger] self.spec_color_outputs()[i]).name@ == logical@
                        && self.spec_color_outputs()[i].layoutName@ == symbol@
            },
            RenderpassValidationError::CyclicDependency(_) => false,
        }
    }

    /// `e` is what `build` reports: a missing symbol while one is missing,
    /// and otherwise the pass's own name for a logical name used twice.
    pub open spec fn reports_failure(&self, e: RenderpassValidationError) -> bool {
        if !self.symbols_valid() {
            self.reports_missing_symbol(e)
        } else {
            e matches RenderpassValidationError::CyclicDependency(n) && n@ == self.spec_name()
        }
    }

    /// Starts a pass with no attachments.
    pub fn new(name: &str, pipeline: PipelineCreateInfo, drawState: DrawState) -> (r: Self)
        ensures
            r.wf(),
            r.spec_name() == name@,
            r.spec_pipeline() == pipeline,
            r.spec_draw_state() == drawState,
            r.spec_color_inputs().len() == 0,
            r.spec_color_outputs().len() == 0,
            r.spec_depth_input() is None,
            r.spec_depth_output() is None,
    {
        RenderpassBuilder {
            name: name.to_owned(),
            pipeline,
            drawState,
            colorInputs: Vec::new(),
            colorOutputs: Vec::new(),
            depthInput: None,
            depthOutput: None,
        }
    }

    /// Declares that the pass samples the color attachment `name` through the
    /// shader sampler `uniformName`; a second declaration of `name` replaces
    /// the first.
    pub fn colorInput(&mut self, name: &str, uniformName: &str) -> (r: &mut Self)
        requires
            old(self).wf(),
        ensures
            *final(self) == *final(r),
            r.wf(),
            input_upserted(old(self).spec_color_inputs(), r.spec_color_inputs(), name@, uniformName@),
            r.spec_name() == old(self).spec_name(),
            r.spec_pipeline() == old(self).spec_pipeline(),
            r.spec_draw_state() == old(self).spec_draw_state(),
            r.spec_color_outputs() == old(self).spec_color_outputs(),
            r.spec_depth_input() == old(self).spec_depth_input(),
            r.spec_depth_output() == old(self).spec_depth_output(),
    {
        let entry = ColorInput { name: name.to_owned(), uniformName: uniformName.to_owned() };
        let ghost before = self.colorInputs@;
        let mut i: usize = 0;
        while i < self.colorInputs.len()
            invariant
                0 <= i <= self.colorInputs@.len(),
                *self == *old(self),
                old(self).wf(),
                self.colorInputs@ == before,
                entry.name@ == name@,
                entry.uniformName@ == uniformName@,
                forall|k: int| 0 <= k < i ==> (#[trigger] before[k]).name@ != name@,
            decreases self.colorInputs@.len() - i,
        {
            if self.colorInputs[i].name == entry.name {
                self.colorInputs.set(i, entry);
                assert(input_names(self.colorInputs@) =~= input_names(before));
                return self;
            }
            i = i + 1;
        }
        self.colorInputs.push(entry);
        assert(input_names(self.colorInputs@) =~= input_names(before).push(name@));
        assert(self.colorInputs@.take(before.len() as int) =~= before);
        self
    }

    /// Declares that the pass renders the color attachment `name` in `format`
    /// through the shader output `layoutName`; a second declaration of `name`
    /// replaces the first.
    pub fn colorOutput(&mut self, name: &str, layoutName: &str, format: ColorFormat) -> (r: &mut Self)
        requires
            old(self).wf(),
        ensures
            *final(self) == *final(r),
            r.wf(),
            output_upserted(old(self).spec_color_outputs(), r.spec_color_outputs(), name@, layoutName@, format),
            r.spec_name() == old(self).spec_name(),
            r.spec_pipeline() == old(self).spec_pipeline(),
            r.spec_draw_state() == old(self).spec_draw_state(),
            r.spec_color_inputs() == old(self).spec_color_inputs(),
            r.spec_depth_input() == old(self).spec_depth_input(),
            r.spec_depth_output() == old(self).spec_depth_output(),
    {
        let entry = ColorOutput { name: name.to_owned(), layoutName: layoutName.to_owned(), format };
        let ghost before = self.colorOutputs@;
        let mut i: usize = 0;
        while i < self.colorOutputs.len()
            invariant
                0 <= i <= self.colorOutputs@.len(),
                *self == *old(self),
                old(self).wf(),
                self.colorOutputs@ == before,
                entry.name@ == name@,
                entry.layoutName@ == layoutName@,
                entry.format == format,
                forall|k: int| 0 <= k < i ==> (#[trigger] before[k]).name@ != name@,
            decreases self.colorOutputs@.len() - i,
        {
            if self.colorOutputs[i].name == entry.name {
                self.colorOutputs.set(i, entry);
                assert(output_names(self.colorOutputs@) =~= output_names(before));
                return self;
            }
            i = i + 1;
        }
        self.colorOutputs.push(entry);
        assert(output_names(self.colorOutputs@) =~= output_names(before).push(name@));
        assert(self.colorOutputs@.take(before.len() as int) =~= before);
        self
    }

    /// Declares the pass's single depth/stencil input, replacing any earlier one.
    pub fn depthStencilInput(&mut self, name: &str, layoutName: &str) -> (r: &mut Self)
        requires
            old(self).wf(),
        ensures
            *final(self) == *final(r),
            r.wf(),
            r.spec_depth_input() matches Some(d) && d.name@ == name@ && d.uniformName@ == layoutName@,
            r.spec_name() == old(self).spec_name(),
            r.spec_pipeline() == old(self).spec_pipeline(),
            r.spec_draw_state() == old(self).spec_draw_state(),
            r.spec_color_inputs() == old(self).spec_color_inputs(),
            r.spec_color_outputs() == old(self).spec_color_outputs(),
            r.spec_depth_output() == old(self).spec_depth_output(),
    {
        self.depthInput = Some(DepthStencilInput { name: name.to_owned(), uniformName: layoutName.to_owned() });
        self
    }

    /// Declares the pass's single depth/stencil output, replacing any earlier
    /// one. A depth attachment is written by the fixed-function depth test,
    /// not by a shader output, so `layoutName` is not checked against the
    /// shader.
    pub fn depthStencilOutput(&mut self, name: &str, layoutName: &str, format: DepthStencilFormat) -> (r: &mut Self)
        requires
            old(self).wf(),
        ensures
            *final(self) == *final(r),
            r.wf(),
            r.spec_depth_output() matches Some(d) && d.name@ == name@ && d.format == format,
            r.spec_name() == old(self).spec_name(),
            r.spec_pipeline() == old(self).spec_pipeline(),
            r.spec_draw_state() == old(self).spec_draw_state(),
            r.spec_color_inputs() == old(self).spec_color_inputs(),
            r.spec_color_outputs() == old(self).spec_color_outputs(),
            r.spec_depth_input() == old(self).spec_depth_input(),
    {
        self.depthOutput = Some(DepthStencilOutput { name: name.to_owned(), format });
        self
    }

    /// The first symbol check: every input's sampler and every color
    /// output's shader output exist in the fragment stage. Color inputs are
    /// checked first, then color outputs, then the depth input.
    fn checkUniformValidity(&self) -> (r: Result<(), RenderpassValidationError>)
        ensures
            r is Ok <==> self.symbols_valid(),
            r matches Err(e) ==> self.reports_missing_symbol(e),
    {
        let shader = &self.pipeline.shader;
        let fragment = &shader.fragment.reflectionData;
        let mut i: usize = 0;
        while i < self.colorInputs.len()
            invariant
                0 <= i <= self.colorInputs@.len(),
                shader == self.spec_pipeline().shader,
                fragment == self.spec_pipeline().shader.fragment.reflectionData,
                forall|k: int| 0 <= k < i ==> fragment.has_sampler((#[trigger] self.colorInputs@[k]).uniformName@),
            decreases self.colorInputs@.len() - i,
        {
            let input = &self.colorInputs[i];
            if !fragment.contains_sampler(&input.uniformName) {
                assert(self.spec_color_inputs()[i as int] == *input);
                assert(!self.symbols_valid());
                return Err(RenderpassValidationError::ShaderUniformNotFound(
                    self.name.clone(),
                    input.uniformName.clone(),
                    input.name.clone(),
                    shader.name.clone(),
                ));
            }
            i = i + 1;
        }
        let mut j: usize = 0;
        while j < self.colorOutputs.len()
            invariant
                0 <= j <= self.colorOutputs@.len(),
                shader == self.spec_pipeline().shader,
                fragment == self.spec_pipeline().shader.fragment.reflectionData,
                forall|k: int| 0 <= k < self.colorInputs@.len() ==> fragment.has_sampler((#[trigger] self.colorInputs@[k]).uniformName@),
                forall|k: int| 0 <= k < j ==> fragment.has_output((#[trigger] self.colorOutputs@[k]).layoutName@),
            decreases self.colorOutputs@.len() - j,
        {
            let output = &self.colorOutputs[j];
            if fragment.output(&output.layoutName).is_none() {
                assert(self.spec_color_outputs()[j as int] == *output);
                assert(!self.symbols_valid());
                return Err(RenderpassValidationError::ShaderOutputNotFound(
                    self.name.clone(),
                    output.layoutName.clone(),
                    output.name.clone(),
                    shader.name.clone(),
                ));
            }
            j = j + 1;
        }
        if let Some(depth) = &self.depthInput {
            if !fragment.contains_sampler(&depth.uniformName) {
                return Err(RenderpassValidationError::ShaderUniformNotFound(
                    self.name.clone(),
                    depth.uniformName.clone(),
                    depth.name.clone(),
                    shader.name.clone(),
                ));
            }
        }
        Ok(())
    }

    /// The second check: no logical name is declared twice across the
    /// pass's inputs and outputs, so the pass never reads what it writes.
    fn checkCyclicDeps(&self) -> (r: Result<(), RenderpassValidationError>)
        ensures
            r is Ok <==> distinct_names(self.all_names()),
            r matches Err(e) ==> e matches RenderpassValidationError::CyclicDependency(n) && n@ == self.spec_name(),
    {
        let mut names: Vec<String> = Vec::new();
        let mut i: usize = 0;
        while i < self.colorInputs.len()
            invariant
                0 <= i <= self.colorInputs@.len(),
                string_views(names@) == input_names(self.colorInputs@.take(i as int)),
            decreases self.colorInputs@.len() - i,
        {
            let ghost prev = names@;
            names.push(self.colorInputs[i].name.clone());
            assert(self.colorInputs@.take(i + 1) =~= self.colorInputs@.take(i as int).push(self.colorInputs@[i as int]));
            assert(input_names(self.colorInputs@.take(i + 1)) =~= input_names(self.colorInputs@.take(i as int)).push(
                self.colorInputs@[i as int].name@,
            ));
            assert(string_views(names@) =~= string_views(prev).push(self.colorInputs@[i as int].name@));
            i = i + 1;
        }
        assert(self.colorInputs@.take(i as int) =~= self.colorInputs@);
        let mut j: usize = 0;
        while j < self.colorOutputs.len()
            invariant
                0 <= j <= self.colorOutputs@.len(),
                string_views(names@) == input_names(self.colorInputs@) + output_names(self.colorOutputs@.take(j as int)),
            decreases self.colorOutputs@.len() - j,
        {
            let ghost prev = names@;
            names.push(self.colorOutputs[j].name.clone());
            assert(self.colorOutputs@.take(j + 1) =~= self.colorOutputs@.take(j as int).push(self.colorOutputs@[j as int]));
            assert(output_names(self.colorOutputs@.take(j + 1)) =~= output_names(self.colorOutputs@.take(j as int)).push(
                self.colorOutputs@[j as int].name@,
            ));
            assert(string_views(names@) =~= string_views(prev).push(self.colorOutputs@[j as int].name@));
            assert(string_views(names@) =~= input_names(self.colorInputs@) + output_names(self.colorOutputs@.take(j + 1)));
            j = j + 1;
        }
        assert(self.colorOutputs@.take(j as int) =~= self.colorOutputs@);
        if let Some(d) = &self.depthInput {
            names.push(d.name.clone());
        }
        if let Some(d) = &self.depthOutput {
            names.push(d.name.clone());
        }
        assert(string_views(names@) =~= self.all_names());
        if has_duplicate(&names) {
            Err(RenderpassValidationError::CyclicDependency(self.name.clone()))
        } else {
            Ok(())
        }
    }

    /// Runs the symbol check, then the self-loop check, and stops at the
    /// first violation.
    fn validate(self) -> (r: Result<Self, RenderpassValidationError>)
        ensures
            r is Ok <==> self.symbols_valid() && distinct_names(self.all_names()),
            r matches Ok(b) ==> b == self,
            r matches Err(e) ==> self.reports_failure(e),
    {
        match self.checkUniformValidity() {
            Ok(()) => {},
            Err(e) => return Err(e),
        }
        match self.checkCyclicDeps() {
            Ok(()) => {},
            Err(e) => return Err(e),
        }
        Ok(self)
    }

    /// Validates the pass and freezes it. A missing shader symbol gives
    /// `ShaderUniformNotFound` or `ShaderOutputNotFound`; failing that, a
    /// logical name used twice gives `CyclicDependency` with the pass's name.
    pub fn build(self) -> (r: Result<Renderpass, RenderpassValidationError>)
        ensures
            r is Ok <==> self.symbols_valid() && distinct_names(self.all_names()),
            r matches Ok(p) ==> p.spec_data() == self && p.wf(),
            r matches Err(e) ==> self.reports_failure(e),
    {
        match self.validate() {
            Ok(data) => Ok(Renderpass { data }),
            Err(e) => Err(e),
        }
    }
}

/// The views of a list of strings.
pub open spec fn string_views(s: Seq<String>) -> Seq<Seq<char>> {
    s.map_values(|x: String| x@)
}

/// Whether some string occurs twice in the list.
pub fn has_duplicate(names: &Vec<String>) -> (r: bool)
    ensures
        r == !distinct_names(string_views(names@)),
{
    let mut i: usize = 0;
    while i < names.len()
        invariant
            0 <= i <= names@.len(),
            forall|a: int, b: int|
                0 <= a < i && 0 <= b < names@.len() && a != b ==> (#[trigger] names@[a])@ != (#[trigger] names@[b])@,
        decreases names@.len() - i,
    {
        let mut j: usize = 0;
        while j < names.len()
            invariant
                0 <= i < names@.len(),
                0 <= j <= names@.len(),
                forall|a: int, b: int|
                    0 <= a < i && 0 <= b < names@.len() && a != b ==> (#[trigger] names@[a])@ != (#[trigger] names@[b])@,
                forall|b: int| 0 <= b < j && b != i ==> names@[i as int]@ != (#[trigger] names@[b])@,
            decreases names@.len() - j,
        {
            if j != i && names[i] == names[j] {
                assert(string_views(names@)[i as int] == string_views(names@)[j as int]);
                return true;
            }
            j = j + 1;
        }
        i = i + 1;
    }
    assert forall|a: int, b: int|
        0 <= a < names@.len() && 0 <= b < names@.len() && a != b implies string_views(names@)[a] != string_views(names@)[b] by {
        assert(names@[a]@ != names@[b]@);
    }
    false
}

/// A pass that has passed both checks; it no longer changes.
pub struct Renderpass {
    data: RenderpassBuilder,
}

impl Renderpass {
    pub closed spec fn spec_data(&self) -> RenderpassBuilder {
        self.data
    }

    /// Every symbol the pass names exists in its fragment stage, and it
    /// declares no logical name twice.
    pub open spec fn wf(&self) -> bool {
        &&& self.spec_data().symbols_valid()
        &&& distinct_names(self.spec_data().all_names())
    }

    pub fn name(&self) -> (r: &String)
        ensures
            r@ == self.spec_data().spec_name(),
    {
        &self.data.name
    }

    pub fn pipeline(&self) -> (r: &PipelineCreateInfo)
        ensures
            *r == self.spec_data().spec_pipeline(),
    {
        &self.data.pipeline
    }

    pub fn drawState(&self) -> (r: DrawState)
        ensures
            r == self.spec_data().spec_draw_state(),
    {
        self.data.drawState
    }

    pub fn colorInputs(&self) -> (r: &Vec<ColorInput>)
        ensures
            r@ == self.spec_data().spec_color_inputs(),
    {
        &self.data.colorInputs
    }

    pub fn colorOutputs(&self) -> (r: &Vec<ColorOutput>)
        ensures
            r@ == self.spec_data().spec_color_outputs(),
    {
        &self.data.colorOutputs
    }

    pub fn depthInput(&self) -> (r: &Option<DepthStencilInput>)
        ensures
            *r == self.spec_data().spec_depth_input(),
    {
        &self.data.depthInput
    }

    pub fn depthOutput(&self) -> (r: &Option<DepthStencilOutput>)
        ensures
            *r == self.spec_data().spec_depth_output(),
    {
        &self.data.depthOutput
    }
}

/// Every name a pass reads: its color inputs, then its depth input.
pub open spec fn read_names(b: RenderpassBuilder) -> Seq<Seq<char>> {
    input_names(b.spec_color_inputs()) + depth_input_names(b.spec_depth_input())
}

/// Every name a pass writes: its color outputs, then its depth output.
pub open spec fn written_names_of(b: RenderpassBuilder) -> Seq<Seq<char>> {
    output_names(b.spec_color_outputs()) + depth_output_names(b.spec_depth_output())
}

/// A pass that reads a logical name it also writes cannot be built: once
/// its shader symbols are found, `build` fails with `CyclicDependency`
/// carrying the pass's own name, whatever other passes exist.
pub proof fn lemma_self_loop_rejected(b: RenderpassBuilder, n: Seq<char>)
    requires
        b.symbols_valid(),
        read_names(b).contains(n),
        written_names_of(b).contains(n),
    ensures
        !distinct_names(b.all_names()),
        forall|e: RenderpassValidationError|
            #[trigger] b.reports_failure(e) ==> (e matches RenderpassValidationError::CyclicDependency(m) && m@
                == b.spec_name()),
{
    let ci = input_names(b.spec_color_inputs());
    let co = output_names(b.spec_color_outputs());
    let di = depth_input_names(b.spec_depth_input());
    let dout = depth_output_names(b.spec_depth_output());
    let all = b.all_names();
    assert(all == ci + co + di + dout);
    let i = choose|i: int| 0 <= i < read_names(b).len() && read_names(b)[i] == n;
    let j = choose|j: int| 0 <= j < written_names_of(b).len() && written_names_of(b)[j] == n;
    let ia = if i < ci.len() {
        i
    } else {
        ci.len() + co.len() + (i - ci.len())
    };
    let ja = if j < co.len() {
        ci.len() + j
    } else {
        ci.len() + co.len() + di.len() + (j - co.len())
    };
    assert(all[ia] == n);
    assert(all[ja] == n);
    assert(ia != ja);
}

} // verus!
