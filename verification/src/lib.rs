use vstd::prelude::*;

pub mod acceleration;
pub mod bindless;
pub mod descriptors;
pub mod device;
pub mod error;
pub mod frame;
pub mod graph;
pub mod names;
pub mod passes;
pub mod pyramid;
pub mod resource;
pub mod sbt;
pub mod swapchain;
pub mod vertex;
pub mod vulkan;

verus! {

} // verus!
