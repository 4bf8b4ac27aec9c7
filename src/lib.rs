//! Render-graph compiler: named passes with logical attachments are
//! validated, ordered and turned into a plan of physical resources.
#![allow(non_snake_case)]

pub mod device;
pub mod graph;
pub mod pipeline;
pub mod renderpass;
pub mod shader;
pub mod texture;
