//! Choices made while bringing up a device and its swapchain: which queue
//! families to use, whether a device is suitable, and how the swapchain is
//! configured. The device is queried elsewhere; these functions decide from
//! what it reported.

use vstd::prelude::*;

verus! {

/// Identifying properties of a physical device.
pub struct GPUProperties {
    name: String,
}

impl GPUProperties {
    pub fn new(name: String) -> (r: Self)
        ensures
            r.spec_name() == name@,
    {
        GPUProperties { name }
    }

    pub closed spec fn spec_name(&self) -> Seq<char> {
        self.name@
    }

    /// The device's name.
    pub fn name(&self) -> (r: &str)
        ensures
            r@ == self.spec_name(),
    {
        self.name.as_str()
    }
}

/// Index of the first queue family that has the wanted capability, given
/// one flag per family.
pub fn firstMatchingQueue(supports: &Vec<bool>) -> (r: Option<usize>)
    ensures
        r is None <==> forall|i: int| 0 <= i < supports@.len() ==> !supports@[i],
        r matches Some(i) ==> i < supports@.len() && supports@[i as int] && forall|j: int| 0 <= j < i ==> !supports@[j],
{
    let mut i: usize = 0;
    while i < supports.len()
        invariant
            0 <= i <= supports@.len(),
            forall|j: int| 0 <= j < i ==> !supports@[j],
        decreases supports@.len() - i,
    {
        if supports[i] {
            return Some(i);
        }
        i = i + 1;
    }
    None
}

/// Every required extension is among those the device offers.
pub open spec fn all_offered(required: Seq<String>, available: Seq<String>) -> bool {
    forall|i: int|
        0 <= i < required.len() ==> exists|j: int| 0 <= j < available.len() && available[j]@ == (#[trigger] required[i])@
}

/// Whether the device offers every required extension.
pub fn extensionsSupported(required: &Vec<String>, available: &Vec<String>) -> (r: bool)
    ensures
        r == all_offered(required@, available@),
{
    let mut i: usize = 0;
    while i < required.len()
        invariant
            0 <= i <= required@.len(),
            all_offered(required@.take(i as int), available@),
        decreases required@.len() - i,
    {
        let mut found = false;
        let mut j: usize = 0;
        while j < available.len()
            invariant
                0 <= i < required@.len(),
                0 <= j <= available@.len(),
                !found ==> forall|j2: int| 0 <= j2 < j ==> available@[j2]@ != required@[i as int]@,
                found ==> exists|j2: int| 0 <= j2 < available@.len() && available@[j2]@ == required@[i as int]@,
            decreases available@.len() - j,
        {
            if available[j] == required[i] {
                found = true;
            }
            j = j + 1;
        }
        if !found {
            assert(!all_offered(required@, available@)) by {
                if all_offered(required@, available@) {
                    let r = required@[i as int];
                    let j2 = choose|j2: int| 0 <= j2 < available@.len() && available@[j2]@ == r@;
                    assert(available@[j2]@ != required@[i as int]@);
                }
            }
            return false;
        }
        assert(all_offered(required@.take(i + 1), available@)) by {
            assert forall|k: int| 0 <= k < i + 1 implies exists|j2: int|
                0 <= j2 < available@.len() && available@[j2]@ == (#[trigger] required@.take(i + 1)[k])@ by {
                if k < i {
                    assert(required@.take(i + 1)[k] == required@.take(i as int)[k]);
                }
            }
        }
        i = i + 1;
    }
    assert(required@.take(required@.len() as int) =~= required@);
    true
}

/// A device is suitable when it has a graphics queue family, a family that
/// can present to the surface, and every required extension.
pub fn isDeviceSuitable(graphicsQueue: Option<usize>, presentQueue: Option<usize>, extensionsSupport: bool) -> (r: bool)
    ensures
        r == (graphicsQueue is Some && presentQueue is Some && extensionsSupport),
{
    graphicsQueue.is_some() && presentQueue.is_some() && extensionsSupport
}

/// The distinct queue families to create queues on: the graphics family,
/// then the present family if it is another one.
pub fn uniqueQueueFamilies(graphics: usize, present: usize) -> (r: Vec<usize>)
    ensures
        graphics == present ==> r@ == seq![graphics],
        graphics != present ==> r@ == seq![graphics, present],
{
    let mut families: Vec<usize> = Vec::new();
    families.push(graphics);
    if present != graphics {
        families.push(present);
    }
    families
}

/// How a swapchain presents images.
#[derive(Clone, Copy, Debug, PartialEq, Eq, Structural)]
pub enum PresentMode {
    Immediate,
    Mailbox,
    Fifo,
    FifoRelaxed,
}

/// Mailbox when the surface offers it, otherwise FIFO, which every
/// surface supports.
pub fn choosePresentMode(modes: &Vec<PresentMode>) -> (r: PresentMode)
    ensures
        r == (if modes@.contains(PresentMode::Mailbox) {
            PresentMode::Mailbox
        } else {
            PresentMode::Fifo
        }),
{
    let mut i: usize = 0;
    while i < modes.len()
        invariant
            0 <= i <= modes@.len(),
            forall|j: int| 0 <= j < i ==> modes@[j] != PresentMode::Mailbox,
        decreases modes@.len() - i,
    {
        if modes[i] == PresentMode::Mailbox {
            return PresentMode::Mailbox;
        }
        i = i + 1;
    }
    PresentMode::Fifo
}

/// A surface format as the surface reports it: a pixel format and a color
/// space, in the numbering of the graphics API.
#[derive(Clone, Copy, Debug, PartialEq, Eq, Structural)]
pub struct SurfaceFormat {
    pub format: i32,
    pub colorSpace: i32,
}

/// The 8-bit BGRA sRGB pixel format.
pub const FORMAT_B8G8R8A8_SRGB: i32 = 50;

/// The non-linear sRGB color space.
pub const COLOR_SPACE_SRGB_NONLINEAR: i32 = 0;

pub open spec fn is_preferred_format(f: SurfaceFormat) -> bool {
    f.format == FORMAT_B8G8R8A8_SRGB && f.colorSpace == COLOR_SPACE_SRGB_NONLINEAR
}

/// The surface's 8-bit BGRA sRGB format in the non-linear sRGB color
/// space; `None` when the surface does not offer it.
pub fn chooseSurfaceFormat(formats: &Vec<SurfaceFormat>) -> (r: Option<SurfaceFormat>)
    ensures
        r is None <==> forall|i: int| 0 <= i < formats@.len() ==> !is_preferred_format(#[trigger] formats@[i]),
        r matches Some(f) ==> is_preferred_format(f) && formats@.contains(f),
{
    let mut i: usize = 0;
    while i < formats.len()
        invariant
            0 <= i <= formats@.len(),
            forall|j: int| 0 <= j < i ==> !is_preferred_format(#[trigger] formats@[j]),
        decreases formats@.len() - i,
    {
        let f = formats[i];
        if f.format == FORMAT_B8G8R8A8_SRGB && f.colorSpace == COLOR_SPACE_SRGB_NONLINEAR {
            assert(formats@[i as int] == f);
            return Some(f);
        }
        i = i + 1;
    }
    None
}

/// A size in pixels.
#[derive(Clone, Copy, Debug, PartialEq, Eq, Structural)]
pub struct Extent {
    pub width: u32,
    pub height: u32,
}

/// `x` limited to `lo..=hi`; the lower bound wins when the bounds cross.
pub open spec fn clamped(x: u32, lo: u32, hi: u32) -> u32 {
    if x > hi {
        if hi < lo {
            lo
        } else {
            hi
        }
    } else if x < lo {
        lo
    } else {
        x
    }
}

fn clamp_u32(x: u32, lo: u32, hi: u32) -> (r: u32)
    ensures
        r == clamped(x, lo, hi),
{
    if x > hi {
        if hi < lo {
            lo
        } else {
            hi
        }
    } else if x < lo {
        lo
    } else {
        x
    }
}

/// The swapchain's size: the surface's current size when it fixes one,
/// otherwise the window's size limited to what the surface allows. A
/// current width of `u32::MAX` means that the surface fixes none.
pub fn chooseSwapExtent(current: Extent, minExtent: Extent, maxExtent: Extent, window: Extent) -> (r: Extent)
    ensures
        current.width != u32::MAX ==> r == current,
        current.width == u32::MAX ==> r == (Extent {
            width: clamped(window.width, minExtent.width, maxExtent.width),
            height: clamped(window.height, minExtent.height, maxExtent.height),
        }),
{
    if current.width != u32::MAX {
        current
    } else {
        Extent {
            width: clamp_u32(window.width, minExtent.width, maxExtent.width),
            height: clamp_u32(window.height, minExtent.height, maxExtent.height),
        }
    }
}

/// One image more than the surface's minimum, so that the application
/// never waits on the presentation engine, capped by the surface's maximum
/// when it has one (a maximum of 0 means none).
pub fn swapchainImageCount(minCount: u32, maxCount: u32) -> (r: u32)
    ensures
        minCount < u32::MAX && (maxCount == 0 || minCount + 1 <= maxCount) ==> r == minCount + 1,
        minCount < u32::MAX && maxCount > 0 && minCount + 1 > maxCount ==> r == maxCount,
        minCount == u32::MAX ==> r == (if maxCount > 0 { maxCount } else { minCount }),
{
    let desired = if minCount < u32::MAX {
        minCount + 1
    } else {
        minCount
    };
    if maxCount > 0 && desired > maxCount {
        maxCount
    } else {
        desired
    }
}

} // verus!
