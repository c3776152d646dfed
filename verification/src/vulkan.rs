//! The Vulkan values that the renderer's decisions read and produce: image
//! layouts, formats and the bits of the flag sets, as the Vulkan specification
//! numbers them.
use vstd::prelude::*;

verus! {

// Image layouts (VkImageLayout).
pub const LAYOUT_UNDEFINED: i32 = 0;
pub const LAYOUT_GENERAL: i32 = 1;
pub const LAYOUT_COLOR_ATTACHMENT_OPTIMAL: i32 = 2;
pub const LAYOUT_SHADER_READ_ONLY_OPTIMAL: i32 = 5;
pub const LAYOUT_TRANSFER_SRC_OPTIMAL: i32 = 6;
pub const LAYOUT_TRANSFER_DST_OPTIMAL: i32 = 7;
pub const LAYOUT_DEPTH_ATTACHMENT_OPTIMAL: i32 = 1000241000;

// Formats (VkFormat).
pub const FORMAT_UNDEFINED: i32 = 0;
pub const FORMAT_R8G8B8A8_UNORM: i32 = 37;
pub const FORMAT_R8G8B8A8_SRGB: i32 = 43;
pub const FORMAT_A2B10G10R10_UNORM_PACK32: i32 = 64;
pub const FORMAT_R16G16_UNORM: i32 = 77;
pub const FORMAT_R16G16_SFLOAT: i32 = 83;
pub const FORMAT_R16G16B16A16_SFLOAT: i32 = 97;
pub const FORMAT_R32G32B32_SFLOAT: i32 = 106;
pub const FORMAT_D16_UNORM: i32 = 124;
pub const FORMAT_D32_SFLOAT: i32 = 126;
pub const FORMAT_D24_UNORM_S8_UINT: i32 = 129;
pub const FORMAT_D32_SFLOAT_S8_UINT: i32 = 130;

// Access flags (VkAccessFlagBits).
pub const ACCESS_NONE: u32 = 0;
pub const ACCESS_INDIRECT_COMMAND_READ: u32 = 0x1;
pub const ACCESS_SHADER_READ: u32 = 0x20;
pub const ACCESS_SHADER_WRITE: u32 = 0x40;
pub const ACCESS_COLOR_ATTACHMENT_WRITE: u32 = 0x100;
pub const ACCESS_DEPTH_STENCIL_ATTACHMENT_WRITE: u32 = 0x400;
pub const ACCESS_TRANSFER_READ: u32 = 0x800;
pub const ACCESS_TRANSFER_WRITE: u32 = 0x1000;
pub const ACCESS_MEMORY_READ: u32 = 0x8000;
pub const ACCESS_MEMORY_WRITE: u32 = 0x10000;
pub const ACCESS_ACCELERATION_STRUCTURE_READ: u32 = 0x200000;
pub const ACCESS_ACCELERATION_STRUCTURE_WRITE: u32 = 0x400000;

// Pipeline stages (VkPipelineStageFlagBits).
pub const STAGE_TOP_OF_PIPE: u32 = 0x1;
pub const STAGE_DRAW_INDIRECT: u32 = 0x2;
pub const STAGE_FRAGMENT_SHADER: u32 = 0x80;
pub const STAGE_EARLY_FRAGMENT_TESTS: u32 = 0x100;
pub const STAGE_LATE_FRAGMENT_TESTS: u32 = 0x200;
pub const STAGE_COLOR_ATTACHMENT_OUTPUT: u32 = 0x400;
pub const STAGE_COMPUTE_SHADER: u32 = 0x800;
pub const STAGE_TRANSFER: u32 = 0x1000;
pub const STAGE_ALL_COMMANDS: u32 = 0x10000;
pub const STAGE_RAY_TRACING_SHADER: u32 = 0x200000;
pub const STAGE_ACCELERATION_STRUCTURE_BUILD: u32 = 0x2000000;

// Image aspects (VkImageAspectFlagBits).
pub const ASPECT_COLOR: u32 = 0x1;
pub const ASPECT_DEPTH: u32 = 0x2;

// Image usage (VkImageUsageFlagBits).
pub const IMAGE_USAGE_TRANSFER_SRC: u32 = 0x1;
pub const IMAGE_USAGE_TRANSFER_DST: u32 = 0x2;
pub const IMAGE_USAGE_SAMPLED: u32 = 0x4;
pub const IMAGE_USAGE_STORAGE: u32 = 0x8;
pub const IMAGE_USAGE_COLOR_ATTACHMENT: u32 = 0x10;
pub const IMAGE_USAGE_DEPTH_STENCIL_ATTACHMENT: u32 = 0x20;
pub const IMAGE_USAGE_INPUT_ATTACHMENT: u32 = 0x80;

// Buffer usage (VkBufferUsageFlagBits).
pub const BUFFER_USAGE_SHADER_DEVICE_ADDRESS: u32 = 0x20000;

// Geometry instance flags (VkGeometryInstanceFlagsKHR).
pub const GEOMETRY_INSTANCE_TRIANGLE_FACING_CULL_DISABLE: u32 = 0x1;

// Memory properties (VkMemoryPropertyFlagBits).
pub const MEMORY_DEVICE_LOCAL: u32 = 0x1;
pub const MEMORY_HOST_VISIBLE: u32 = 0x2;
pub const MEMORY_HOST_COHERENT: u32 = 0x4;

// Descriptor types (VkDescriptorType).
pub const DESCRIPTOR_COMBINED_IMAGE_SAMPLER: i32 = 1;
pub const DESCRIPTOR_STORAGE_IMAGE: i32 = 3;
pub const DESCRIPTOR_UNIFORM_BUFFER: i32 = 6;
pub const DESCRIPTOR_STORAGE_BUFFER: i32 = 7;
pub const DESCRIPTOR_INPUT_ATTACHMENT: i32 = 10;
pub const DESCRIPTOR_ACCELERATION_STRUCTURE: i32 = 1000150000;

// Sample counts (VkSampleCountFlagBits).
pub const SAMPLE_COUNT_1: u32 = 0x1;
pub const SAMPLE_COUNT_2: u32 = 0x2;
pub const SAMPLE_COUNT_4: u32 = 0x4;
pub const SAMPLE_COUNT_8: u32 = 0x8;
pub const SAMPLE_COUNT_16: u32 = 0x10;
pub const SAMPLE_COUNT_32: u32 = 0x20;
pub const SAMPLE_COUNT_64: u32 = 0x40;

// Queue capabilities (VkQueueFlagBits).
pub const QUEUE_GRAPHICS: u32 = 0x1;
pub const QUEUE_COMPUTE: u32 = 0x2;

// Format features (VkFormatFeatureFlagBits).
pub const FORMAT_FEATURE_DEPTH_STENCIL_ATTACHMENT: u32 = 0x200;

// Physical device types (VkPhysicalDeviceType).
pub const DEVICE_TYPE_INTEGRATED_GPU: i32 = 1;
pub const DEVICE_TYPE_DISCRETE_GPU: i32 = 2;

/// `flags` holds every bit of `bits`.
pub open spec fn has_flags(flags: u32, bits: u32) -> bool {
    flags & bits == bits
}

/// Whether `flags` holds every bit of `bits`.
pub fn contains_flags(flags: u32, bits: u32) -> (r: bool)
    ensures
        r == has_flags(flags, bits),
{
    flags & bits == bits
}

/// The format is one of the depth formats.
pub open spec fn is_depth_format(format: i32) -> bool {
    format == FORMAT_D32_SFLOAT || format == FORMAT_D32_SFLOAT_S8_UINT || format
        == FORMAT_D24_UNORM_S8_UINT || format == FORMAT_D16_UNORM
}

/// The depth formats are exactly the 32-bit float depth format, with or
/// without stencil, the 24-bit depth format with stencil and the 16-bit depth
/// format; color formats such as 8-bit RGBA are not depth formats.
pub proof fn lemma_depth_formats(format: i32)
    ensures
        is_depth_format(format) <==> (format == FORMAT_D32_SFLOAT || format == FORMAT_D32_SFLOAT_S8_UINT
            || format == FORMAT_D24_UNORM_S8_UINT || format == FORMAT_D16_UNORM),
        !is_depth_format(FORMAT_R8G8B8A8_UNORM),
        !is_depth_format(FORMAT_R16G16B16A16_SFLOAT),
{
}

/// The aspect of an image of this format that barriers and views address:
/// depth for the depth formats, color for the others.
pub fn aspect_mask_for_format(format: i32) -> (r: u32)
    ensures
        r == if is_depth_format(format) {
            ASPECT_DEPTH
        } else {
            ASPECT_COLOR
        },
        format == FORMAT_D32_SFLOAT ==> r == ASPECT_DEPTH,
        format == FORMAT_D32_SFLOAT_S8_UINT ==> r == ASPECT_DEPTH,
        format == FORMAT_D24_UNORM_S8_UINT ==> r == ASPECT_DEPTH,
        format == FORMAT_D16_UNORM ==> r == ASPECT_DEPTH,
        format != FORMAT_D32_SFLOAT && format != FORMAT_D32_SFLOAT_S8_UINT && format != FORMAT_D24_UNORM_S8_UINT
            && format != FORMAT_D16_UNORM ==> r == ASPECT_COLOR,
{
    if format == FORMAT_D32_SFLOAT || format == FORMAT_D32_SFLOAT_S8_UINT || format
        == FORMAT_D24_UNORM_S8_UINT || format == FORMAT_D16_UNORM {
        ASPECT_DEPTH
    } else {
        ASPECT_COLOR
    }
}

} // verus!
