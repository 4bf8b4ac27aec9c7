//! Frame graphs: passes collected for one frame topology, validated,
//! ordered, and backed by physical resources.
//!
//! Creating GPU objects is the work of a device outside this library. The
//! library computes a [`ResourcePlan`] (what to create, at which size),
//! the device creates it and hands back the handles as [`GraphResources`],
//! and the [`Graph`] takes ownership of them. On `recreate` the device first
//! creates the new set; the graph then swaps it in and hands the old set
//! back, to be released framebuffers first, then samplers, image views,
//! images and finally their memory.

use vstd::prelude::*;

pub mod compiler;

use crate::graph::compiler::{color_outs, validate, validation_outcome, GraphValidationError};
use crate::renderpass::Renderpass;
use crate::texture::{ColorFormat, DepthStencilFormat};

verus! {

/// Pixel format of a physical attachment.
#[derive(Clone, Copy, Debug, PartialEq, Eq, Structural)]
pub enum AttachmentFormat {
    Color(ColorFormat),
    DepthStencil(DepthStencilFormat),
}

/// How a physical attachment image is used: rendered to, then sampled.
#[derive(Clone, Copy, Debug, PartialEq, Eq, Structural)]
pub enum AttachmentUsage {
    ColorAttachmentSampled,
    DepthStencilAttachmentSampled,
}

/// The aspects an image view covers.
#[derive(Clone, Copy, Debug, PartialEq, Eq, Structural)]
pub enum AspectMask {
    Color,
    DepthStencil,
}

/// Texel filtering of a sampler.
#[derive(Clone, Copy, Debug, PartialEq, Eq, Structural)]
pub enum Filter {
    Linear,
    Nearest,
}

/// Addressing outside a texture's edges.
#[derive(Clone, Copy, Debug, PartialEq, Eq, Structural)]
pub enum AddressMode {
    ClampToEdge,
    Repeat,
}

/// The parameters of a sampler.
#[derive(Clone, Copy, Debug, PartialEq, Eq, Structural)]
pub struct SamplerDesc {
    pub filter: Filter,
    pub addressMode: AddressMode,
    pub mipLevels: u32,
    pub anisotropy: bool,
}

/// The sampler every attachment gets: linear filtering, clamped on every
/// axis, one mip level, no anisotropy.
pub open spec fn attachment_sampler() -> SamplerDesc {
    SamplerDesc { filter: Filter::Linear, addressMode: AddressMode::ClampToEdge, mipLevels: 1, anisotropy: false }
}

/// One physical attachment to create: a 2D image of this format, usage and
/// size with the given mip levels, array layers and samples; a view over
/// the given mip and layer range with this aspect; and a sampler.
#[derive(Clone, Debug)]
pub struct AttachmentPlan {
    pub name: String,
    pub format: AttachmentFormat,
    pub usage: AttachmentUsage,
    pub aspect: AspectMask,
    pub sampler: SamplerDesc,
    pub width: u32,
    pub height: u32,
    pub mipLevels: u32,
    pub arrayLayers: u32,
    pub samples: u32,
    pub viewBaseMip: u32,
    pub viewMipCount: u32,
    pub viewBaseLayer: u32,
    pub viewLayerCount: u32,
}

/// The framebuffer of one pass: the views of its outputs, color outputs
/// first and the depth output last, at the given size and layer count.
#[derive(Clone, Debug)]
pub struct FramebufferPlan {
    pub pass: usize,
    pub attachments: Vec<usize>,
    pub width: u32,
    pub height: u32,
    pub layers: u32,
}

/// Everything to create for one graph at one size.
#[derive(Clone, Debug)]
pub struct ResourcePlan {
    pub attachments: Vec<AttachmentPlan>,
    pub framebuffers: Vec<FramebufferPlan>,
    pub width: u32,
    pub height: u32,
}

/// The handles of the GPU objects created for a plan: one image, view and
/// sampler per attachment and one framebuffer per pass, in plan order.
#[derive(Clone, Debug)]
pub struct GraphResources {
    pub images: Vec<u64>,
    pub imageViews: Vec<u64>,
    pub samplers: Vec<u64>,
    pub framebuffers: Vec<u64>,
}

/// How many attachments pass `p` writes.
pub open spec fn out_count(p: Renderpass) -> int {
    color_outs(p).len() + if p.spec_data().spec_depth_output() is Some {
        1int
    } else {
        0int
    }
}

/// Index of the first attachment of the `k`-th pass of `order`.
pub open spec fn offset(ps: Seq<Renderpass>, order: Seq<usize>, k: int) -> int
    decreases k,
{
    if k <= 0 {
        0
    } else {
        offset(ps, order, k - 1) + out_count(ps[order[k - 1] as int])
    }
}

/// `a` is the physical attachment for output `j` of pass `p` at the given size.
pub open spec fn attachment_for(a: AttachmentPlan, p: Renderpass, j: int, width: u32, height: u32) -> bool {
    &&& a.width == width
    &&& a.height == height
    &&& a.sampler == attachment_sampler()
    &&& a.mipLevels == 1
    &&& a.arrayLayers == 1
    &&& a.samples == 1
    &&& a.viewBaseMip == 0
    &&& a.viewMipCount == 1
    &&& a.viewBaseLayer == 0
    &&& a.viewLayerCount == 1
    &&& if j < color_outs(p).len() {
        &&& a.name@ == color_outs(p)[j].name@
        &&& a.format == AttachmentFormat::Color(color_outs(p)[j].format)
        &&& a.usage == AttachmentUsage::ColorAttachmentSampled
        &&& a.aspect == AspectMask::Color
    } else {
        &&& p.spec_data().spec_depth_output() matches Some(d)
        &&& a.name@ == d.name@
        &&& a.format == AttachmentFormat::DepthStencil(d.format)
        &&& a.usage == AttachmentUsage::DepthStencilAttachmentSampled
        &&& a.aspect == AspectMask::DepthStencil
    }
}

/// `f` is the framebuffer of the `k`-th pass of `order`, over its own
/// attachments among `atts`.
pub open spec fn framebuffer_for(
    ps: Seq<Renderpass>,
    order: Seq<usize>,
    k: int,
    f: FramebufferPlan,
    atts: Seq<AttachmentPlan>,
    width: u32,
    height: u32,
) -> bool {
    &&& f.pass == order[k]
    &&& f.width == width
    &&& f.height == height
    &&& f.layers == 1
    &&& f.attachments@.len() == out_count(ps[order[k] as int])
    &&& forall|j: int|
        0 <= j < f.attachments@.len() ==> #[trigger] f.attachments@[j] == offset(ps, order, k) + j && attachment_for(
            atts[offset(ps, order, k) + j],
            ps[order[k] as int],
            j,
            width,
            height,
        )
}

/// `plan` creates, for the passes `ps` run in `order`, one attachment per
/// output, pass by pass, and one framebuffer per pass over exactly its own
/// attachments, all at `width` by `height`.
pub open spec fn plans(ps: Seq<Renderpass>, order: Seq<usize>, width: u32, height: u32, plan: ResourcePlan) -> bool {
    &&& plan.width == width
    &&& plan.height == height
    &&& plan.attachments@.len() == offset(ps, order, order.len() as int)
    &&& plan.framebuffers@.len() == order.len()
    &&& forall|k: int|
        0 <= k < order.len() ==> framebuffer_for(
            ps,
            order,
            k,
            #[trigger] plan.framebuffers@[k],
            plan.attachments@,
            width,
            height,
        )
}

proof fn lemma_offset_step(ps: Seq<Renderpass>, order: Seq<usize>, k: int)
    requires
        0 <= k,
    ensures
        offset(ps, order, k + 1) == offset(ps, order, k) + out_count(ps[order[k] as int]),
        offset(ps, order, k) >= 0,
    decreases k,
{
    if k > 0 {
        lemma_offset_step(ps, order, k - 1);
    }
}

proof fn lemma_offset_monotone(ps: Seq<Renderpass>, order: Seq<usize>, a: int, b: int)
    requires
        0 <= a <= b,
    ensures
        offset(ps, order, a) <= offset(ps, order, b),
    decreases b - a,
{
    if a < b {
        lemma_offset_step(ps, order, b - 1);
        lemma_offset_monotone(ps, order, a, b - 1);
    }
}

fn sampler_desc() -> (r: SamplerDesc)
    ensures
        r == attachment_sampler(),
{
    SamplerDesc { filter: Filter::Linear, addressMode: AddressMode::ClampToEdge, mipLevels: 1, anisotropy: false }
}

/// Computes what to create for `passes` run in `order` at the given size.
pub fn plan_resources(passes: &Vec<Renderpass>, order: &Vec<usize>, width: u32, height: u32) -> (r: ResourcePlan)
    requires
        forall|k: int| 0 <= k < order@.len() ==> (#[trigger] order@[k]) < passes@.len(),
    ensures
        plans(passes@, order@, width, height, r),
{
    let ghost ps = passes@;
    let mut attachments: Vec<AttachmentPlan> = Vec::new();
    let mut framebuffers: Vec<FramebufferPlan> = Vec::new();
    let mut k: usize = 0;
    while k < order.len()
        invariant
            ps == passes@,
            0 <= k <= order@.len(),
            forall|k2: int| 0 <= k2 < order@.len() ==> (#[trigger] order@[k2]) < passes@.len(),
            attachments@.len() == offset(ps, order@, k as int),
            framebuffers@.len() == k,
            forall|k2: int|
                0 <= k2 < k ==> framebuffer_for(
                    ps,
                    order@,
                    k2,
                    #[trigger] framebuffers@[k2],
                    attachments@,
                    width,
                    height,
                ),
        decreases order@.len() - k,
    {
        let p = &passes[order[k]];
        let outs = p.colorOutputs();
        let start = attachments.len();
        let ghost before = attachments@;
        proof {
            lemma_offset_step(ps, order@, k as int);
        }
        let mut slots: Vec<usize> = Vec::new();
        let mut j: usize = 0;
        while j < outs.len()
            invariant
                ps == passes@,
                *p == ps[order@[k as int] as int],
                outs@ == color_outs(*p),
                0 <= j <= outs@.len(),
                start == before.len(),
                attachments@.len() == start + j,
                attachments@.take(start as int) == before,
                slots@.len() == j,
                forall|j2: int| 0 <= j2 < j ==> #[trigger] slots@[j2] == start + j2 && attachment_for(
                    attachments@[start + j2],
                    *p,
                    j2,
                    width,
                    height,
                ),
            decreases outs@.len() - j,
        {
            let o = &outs[j];
            let idx = attachments.len();
            attachments.push(AttachmentPlan {
                name: o.name.clone(),
                format: AttachmentFormat::Color(o.format),
                usage: AttachmentUsage::ColorAttachmentSampled,
                aspect: AspectMask::Color,
                sampler: sampler_desc(),
                width,
                height,
                mipLevels: 1,
                arrayLayers: 1,
                samples: 1,
                viewBaseMip: 0,
                viewMipCount: 1,
                viewBaseLayer: 0,
                viewLayerCount: 1,
            });
            slots.push(idx);
            proof {
                assert(attachments@.take(start as int) =~= before);
                assert(outs@[j as int] == color_outs(*p)[j as int]);
            }
            j = j + 1;
        }
        if let Some(d) = p.depthOutput() {
            let ghost mid = attachments@;
            let ghost old_slots = slots@;
            let idx = attachments.len();
            attachments.push(AttachmentPlan {
                name: d.name.clone(),
                format: AttachmentFormat::DepthStencil(d.format),
                usage: AttachmentUsage::DepthStencilAttachmentSampled,
                aspect: AspectMask::DepthStencil,
                sampler: sampler_desc(),
                width,
                height,
                mipLevels: 1,
                arrayLayers: 1,
                samples: 1,
                viewBaseMip: 0,
                viewMipCount: 1,
                viewBaseLayer: 0,
                viewLayerCount: 1,
            });
            slots.push(idx);
            proof {
                assert(attachments@.take(start as int) =~= before);
                let jd = outs@.len() as int;
                assert(attachment_for(attachments@[start + jd], *p, jd, width, height));
                assert forall|j2: int| 0 <= j2 < slots@.len() implies #[trigger] slots@[j2] == start + j2 && attachment_for(
                    attachments@[start + j2],
                    *p,
                    j2,
                    width,
                    height,
                ) by {
                    if j2 < jd {
                        assert(slots@[j2] == old_slots[j2]);
                        assert(attachments@[start + j2] == mid[start + j2]);
                    }
                }
            }
        }
        let ghost old_fbs = framebuffers@;
        framebuffers.push(FramebufferPlan { pass: order[k], attachments: slots, width, height, layers: 1 });
        proof {
            assert(framebuffers@.take(k as int) =~= old_fbs);
            assert forall|k2: int| 0 <= k2 <= k implies framebuffer_for(
                ps,
                order@,
                k2,
                #[trigger] framebuffers@[k2],
                attachments@,
                width,
                height,
            ) by {
                lemma_offset_step(ps, order@, k2);
                let f = framebuffers@[k2];
                if k2 < k {
                    lemma_offset_monotone(ps, order@, k2 + 1, k as int);
                    assert(f == old_fbs[k2]);
                    assert(framebuffer_for(ps, order@, k2, f, before, width, height));
                    assert forall|j2: int| 0 <= j2 < f.attachments@.len() implies #[trigger] attachments@[offset(ps, order@, k2) + j2]
                        == before[offset(ps, order@, k2) + j2] by {
                        assert(attachments@[offset(ps, order@, k2) + j2] == attachments@.take(start as int)[offset(
                            ps,
                            order@,
                            k2,
                        ) + j2]);
                    }
                }
            }
        }
        k = k + 1;
    }
    ResourcePlan { attachments, framebuffers, width, height }
}

/// `res` has one image, view and sampler per attachment of `plan` and one
/// framebuffer per framebuffer of `plan`.
pub open spec fn fits(plan: ResourcePlan, res: GraphResources) -> bool {
    &&& res.images@.len() == plan.attachments@.len()
    &&& res.imageViews@.len() == plan.attachments@.len()
    &&& res.samplers@.len() == plan.attachments@.len()
    &&& res.framebuffers@.len() == plan.framebuffers@.len()
}

/// No handle occurs in both lists.
pub open spec fn disjoint(a: Seq<u64>, b: Seq<u64>) -> bool {
    forall|i: int, j: int| 0 <= i < a.len() && 0 <= j < b.len() ==> a[i] != b[j]
}

/// The two sets of handles share no object.
pub open spec fn disjoint_resources(a: GraphResources, b: GraphResources) -> bool {
    &&& disjoint(a.images@, b.images@)
    &&& disjoint(a.imageViews@, b.imageViews@)
    &&& disjoint(a.samplers@, b.samplers@)
    &&& disjoint(a.framebuffers@, b.framebuffers@)
}

pub open spec fn no_resources(res: GraphResources) -> bool {
    &&& res.images@.len() == 0
    &&& res.imageViews@.len() == 0
    &&& res.samplers@.len() == 0
    &&& res.framebuffers@.len() == 0
}

fn disjoint_exec(a: &Vec<u64>, b: &Vec<u64>) -> (r: bool)
    ensures
        r == disjoint(a@, b@),
{
    let mut i: usize = 0;
    while i < a.len()
        invariant
            0 <= i <= a@.len(),
            forall|i2: int, j2: int| 0 <= i2 < i && 0 <= j2 < b@.len() ==> a@[i2] != b@[j2],
        decreases a@.len() - i,
    {
        let mut j: usize = 0;
        while j < b.len()
            invariant
                0 <= i < a@.len(),
                0 <= j <= b@.len(),
                forall|i2: int, j2: int| 0 <= i2 < i && 0 <= j2 < b@.len() ==> a@[i2] != b@[j2],
                forall|j2: int| 0 <= j2 < j ==> a@[i as int] != b@[j2],
            decreases b@.len() - j,
        {
            if a[i] == b[j] {
                return false;
            }
            j = j + 1;
        }
        i = i + 1;
    }
    true
}

/// An executable frame graph: its passes, the order they run in, what was
/// planned for them at the current size, and the handles of the GPU objects
/// it owns.
pub struct Graph {
    passes: Vec<Renderpass>,
    order: Vec<usize>,
    plan: ResourcePlan,
    resources: GraphResources,
    generation: u64,
}

impl Graph {
    pub closed spec fn spec_passes(&self) -> Seq<Renderpass> {
        self.passes@
    }

    pub closed spec fn spec_order(&self) -> Vec<usize> {
        self.order
    }

    pub closed spec fn spec_plan(&self) -> ResourcePlan {
        self.plan
    }

    pub closed spec fn spec_resources(&self) -> GraphResources {
        self.resources
    }

    pub closed spec fn spec_generation(&self) -> u64 {
        self.generation
    }

    /// The order is a valid execution order of the passes, the plan is the
    /// plan for that order at its own size, and the resources are either
    /// not created yet or fit the plan.
    pub open spec fn wf(&self) -> bool {
        &&& compiler::is_execution_order(self.spec_passes(), self.spec_order()@)
        &&& plans(self.spec_passes(), self.spec_order()@, self.spec_plan().width, self.spec_plan().height, self.spec_plan())
        &&& no_resources(self.spec_resources()) || fits(self.spec_plan(), self.spec_resources())
    }

    /// Validates and orders `passes` and plans their resources at the given
    /// size. No GPU object exists yet: the device creates the plan and
    /// hands the handles to `recreate` at the same size, which swaps them
    /// for the empty set. On any validation failure no graph is returned.
    pub fn compile(passes: Vec<Renderpass>, width: u32, height: u32) -> (r: Result<Graph, GraphValidationError>)
        ensures
            r matches Ok(g) ==> {
                &&& g.wf()
                &&& g.spec_passes() == passes@
                &&& validation_outcome(passes@, Ok(g.spec_order()))
                &&& g.spec_plan().width == width
                &&& g.spec_plan().height == height
                &&& no_resources(g.spec_resources())
                &&& g.spec_generation() == 0
            },
            r matches Err(e) ==> validation_outcome(passes@, Err(e)),
    {
        match validate(&passes) {
            Ok(order) => {
                let plan = plan_resources(&passes, &order, width, height);
                let resources = GraphResources {
                    images: Vec::new(),
                    imageViews: Vec::new(),
                    samplers: Vec::new(),
                    framebuffers: Vec::new(),
                };
                Ok(Graph { passes, order, plan, resources, generation: 0 })
            },
            Err(e) => Err(e),
        }
    }

    /// The plan for the same passes, order and attachment formats at a new size.
    pub fn resizedPlan(&self, width: u32, height: u32) -> (r: ResourcePlan)
        requires
            self.wf(),
        ensures
            plans(self.spec_passes(), self.spec_order()@, width, height, r),
    {
        plan_resources(&self.passes, &self.order, width, height)
    }

    /// Swaps in a set of GPU objects created for this graph at a new size,
    /// and hands back the set it owned so that the caller releases it,
    /// exactly once. The set is taken only if it fits the plan at that size
    /// and shares no object with the set the graph owns; otherwise it is
    /// handed back and the graph is unchanged. Passes, order and attachment
    /// formats never change; only the size does.
    pub fn recreate(&mut self, width: u32, height: u32, resources: GraphResources) -> (r: Result<
        GraphResources,
        GraphResources,
    >)
        requires
            old(self).wf(),
        ensures
            final(self).wf(),
            r is Ok <==> fits(final(self).spec_plan(), resources) && disjoint_resources(old(self).spec_resources(), resources),
            r matches Ok(released) ==> {
                &&& released == old(self).spec_resources()
                &&& final(self).spec_resources() == resources
                &&& final(self).spec_passes() == old(self).spec_passes()
                &&& final(self).spec_order() == old(self).spec_order()
                &&& plans(final(self).spec_passes(), final(self).spec_order()@, width, height, final(self).spec_plan())
                &&& final(self).spec_generation() == (if old(self).spec_generation() == u64::MAX {
                    0
                } else {
                    (old(self).spec_generation() + 1) as u64
                })
            },
            r matches Err(back) ==> back == resources && *final(self) == *old(self),
    {
        let plan = plan_resources(&self.passes, &self.order, width, height);
        let fitting = resources.images.len() == plan.attachments.len() && resources.imageViews.len()
            == plan.attachments.len() && resources.samplers.len() == plan.attachments.len()
            && resources.framebuffers.len() == plan.framebuffers.len();
        if !fitting {
            proof {
                lemma_plan_shape(self.passes@, self.order@, width, height, plan, self.plan.width, self.plan.height, self.plan);
            }
            return Err(resources);
        }
        let separate = disjoint_exec(&self.resources.images, &resources.images) && disjoint_exec(
            &self.resources.imageViews,
            &resources.imageViews,
        ) && disjoint_exec(&self.resources.samplers, &resources.samplers) && disjoint_exec(
            &self.resources.framebuffers,
            &resources.framebuffers,
        );
        if !separate {
            proof {
                lemma_plan_shape(self.passes@, self.order@, width, height, plan, self.plan.width, self.plan.height, self.plan);
            }
            return Err(resources);
        }
        let mut released = resources;
        core::mem::swap(&mut self.resources, &mut released);
        self.plan = plan;
        self.generation = if self.generation == u64::MAX {
            0
        } else {
            self.generation + 1
        };
        Ok(released)
    }
}

/// Two plans for the same passes in the same order have the same shape:
/// as many attachments and framebuffers, each framebuffer over the same
/// attachments.
proof fn lemma_plan_shape(
    ps: Seq<Renderpass>,
    order: Seq<usize>,
    w1: u32,
    h1: u32,
    p1: ResourcePlan,
    w2: u32,
    h2: u32,
    p2: ResourcePlan,
)
    requires
        plans(ps, order, w1, h1, p1),
        plans(ps, order, w2, h2, p2),
    ensures
        p1.attachments@.len() == p2.attachments@.len(),
        p1.framebuffers@.len() == p2.framebuffers@.len(),
{
}

impl Graph {
    pub fn passes(&self) -> (r: &Vec<Renderpass>)
        ensures
            r@ == self.spec_passes(),
    {
        &self.passes
    }

    /// Indices into `passes` in execution order.
    pub fn executionOrder(&self) -> (r: &Vec<usize>)
        ensures
            *r == self.spec_order(),
    {
        &self.order
    }

    pub fn plan(&self) -> (r: &ResourcePlan)
        ensures
            *r == self.spec_plan(),
    {
        &self.plan
    }

    pub fn resources(&self) -> (r: &GraphResources)
        ensures
            *r == self.spec_resources(),
    {
        &self.resources
    }

    /// How many times a resource set has been swapped in, modulo 2^64.
    pub fn generation(&self) -> (r: u64)
        ensures
            r == self.spec_generation(),
    {
        self.generation
    }
}

/// Collects the validated passes of one frame topology.
pub struct GraphBuilder {
    passes: Vec<Renderpass>,
}

impl GraphBuilder {
    pub closed spec fn spec_passes(&self) -> Seq<Renderpass> {
        self.passes@
    }

    pub fn new() -> (r: Self)
        ensures
            r.spec_passes().len() == 0,
    {
        GraphBuilder { passes: Vec::new() }
    }

    /// Adds a pass after those already added.
    pub fn addRenderpass(&mut self, renderpass: Renderpass) -> (r: &mut Self)
        ensures
            *final(self) == *final(r),
            r.spec_passes() == old(self).spec_passes().push(renderpass),
    {
        self.passes.push(renderpass);
        self
    }

    /// Compiles the collected passes at the given size; see `Graph::compile`.
    pub fn build(self, width: u32, height: u32) -> (r: Result<Graph, GraphValidationError>)
        ensures
            r matches Ok(g) ==> {
                &&& g.wf()
                &&& g.spec_passes() == self.spec_passes()
                &&& validation_outcome(self.spec_passes(), Ok(g.spec_order()))
                &&& g.spec_plan().width == width
                &&& g.spec_plan().height == height
                &&& no_resources(g.spec_resources())
            },
            r matches Err(e) ==> validation_outcome(self.spec_passes(), Err(e)),
    {
        Graph::compile(self.passes, width, height)
    }
}

spec fn slot(ps: Seq<Renderpass>, order: Seq<usize>, k: int, j: int) -> int {
    offset(ps, order, k) + j
}

/// Every attachment index of a plan belongs to some output of some pass.
proof fn lemma_attachment_owner(ps: Seq<Renderpass>, order: Seq<usize>, m: int, i: int)
    requires
        0 <= m <= order.len(),
        0 <= i < offset(ps, order, m),
    ensures
        exists|k: int, j: int|
            0 <= k < m && 0 <= j < out_count(ps[order[k] as int]) && #[trigger] slot(ps, order, k, j) == i,
    decreases m,
{
    if m > 0 {
        lemma_offset_step(ps, order, m - 1);
        if i < offset(ps, order, m - 1) {
            lemma_attachment_owner(ps, order, m - 1, i);
            let (k, j) = choose|k: int, j: int|
                0 <= k < m - 1 && 0 <= j < out_count(ps[order[k] as int]) && #[trigger] slot(ps, order, k, j) == i;
        } else {
            assert(slot(ps, order, m - 1, i - offset(ps, order, m - 1)) == i);
        }
    }
}

/// Resizing keeps the layout: two plans for the same passes in the same
/// order differ only in their sizes. They have the same framebuffers, over
/// the same attachments, and the same attachments, with the same names,
/// formats, usages, aspects and samplers.
pub proof fn lemma_resize_keeps_layout(
    ps: Seq<Renderpass>,
    order: Seq<usize>,
    w1: u32,
    h1: u32,
    p1: ResourcePlan,
    w2: u32,
    h2: u32,
    p2: ResourcePlan,
)
    requires
        plans(ps, order, w1, h1, p1),
        plans(ps, order, w2, h2, p2),
    ensures
        p1.attachments@.len() == p2.attachments@.len(),
        p1.framebuffers@.len() == p2.framebuffers@.len(),
        forall|k: int|
            0 <= k < p1.framebuffers@.len() ==> (#[trigger] p1.framebuffers@[k]).pass == p2.framebuffers@[k].pass
                && p1.framebuffers@[k].attachments@ == p2.framebuffers@[k].attachments@
                && p2.framebuffers@[k].width == w2 && p2.framebuffers@[k].height == h2,
        forall|i: int|
            0 <= i < p1.attachments@.len() ==> {
                let a = #[trigger] p1.attachments@[i];
                let b = p2.attachments@[i];
                &&& a.name@ == b.name@
                &&& a.format == b.format
                &&& a.usage == b.usage
                &&& a.aspect == b.aspect
                &&& a.sampler == b.sampler
                &&& b.width == w2
                &&& b.height == h2
            },
{
    assert forall|k: int| 0 <= k < p1.framebuffers@.len() implies (#[trigger] p1.framebuffers@[k]).pass
        == p2.framebuffers@[k].pass && p1.framebuffers@[k].attachments@ == p2.framebuffers@[k].attachments@
        && p2.framebuffers@[k].width == w2 && p2.framebuffers@[k].height == h2 by {
        assert(framebuffer_for(ps, order, k, p1.framebuffers@[k], p1.attachments@, w1, h1));
        assert(framebuffer_for(ps, order, k, p2.framebuffers@[k], p2.attachments@, w2, h2));
        assert(p1.framebuffers@[k].attachments@ =~= p2.framebuffers@[k].attachments@);
    }
    assert forall|i: int| 0 <= i < p1.attachments@.len() implies {
        let a = #[trigger] p1.attachments@[i];
        let b = p2.attachments@[i];
        &&& a.name@ == b.name@
        &&& a.format == b.format
        &&& a.usage == b.usage
        &&& a.aspect == b.aspect
        &&& a.sampler == b.sampler
        &&& b.width == w2
        &&& b.height == h2
    } by {
        lemma_attachment_owner(ps, order, order.len() as int, i);
        let (k, j) = choose|k: int, j: int|
            0 <= k < order.len() && 0 <= j < out_count(ps[order[k] as int]) && #[trigger] slot(ps, order, k, j) == i;
        let f1 = p1.framebuffers@[k];
        let f2 = p2.framebuffers@[k];
        assert(framebuffer_for(ps, order, k, f1, p1.attachments@, w1, h1));
        assert(framebuffer_for(ps, order, k, f2, p2.attachments@, w2, h2));
        assert(f1.attachments@[j] == i);
        assert(f2.attachments@[j] == i);
    }
}

} // verus!
