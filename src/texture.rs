//! Pixel formats of the attachments a pass can render into.

use vstd::prelude::*;

verus! {

/// Format of a color attachment.
#[derive(Clone, Copy, Debug, PartialEq, Eq, Structural)]
pub enum ColorFormat {
    RGBA8,
    RGBA32F,
}

/// Format of a depth/stencil attachment.
#[derive(Clone, Copy, Debug, PartialEq, Eq, Structural)]
pub enum DepthStencilFormat {
    Depth16,
    Depth24Stencil8,
}

} // verus!
