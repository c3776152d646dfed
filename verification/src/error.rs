//! The renderer's error type.
use vstd::prelude::*;

verus! {

/// `ash::LoadingError`, the error of loading the Vulkan library; carried
/// through, never looked into.
#[verifier::external_type_specification]
#[verifier::external_body]
pub struct ExLoadingError(ash::LoadingError);

/// `ash::vk::Result`, a Vulkan result code; carried through, never looked
/// into.
#[verifier::external_type_specification]
#[verifier::external_body]
pub struct ExVkResult(ash::vk::Result);

/// Why setting up or running the renderer failed.
#[derive(Debug)]
pub enum RendererError {
    /// The Vulkan library could not be loaded.
    VulkanInit(ash::LoadingError),
    /// A Vulkan call failed with this code.
    Vulkan(ash::vk::Result),
    /// No physical device can run the renderer.
    NoSuitableDevice,
    /// The window surface could not be created.
    SurfaceCreation,
    /// A shader could not be compiled.
    ShaderCompilation(String),
    /// A resource could not be loaded.
    ResourceLoading(String),
}

} // verus!
