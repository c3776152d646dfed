//! The swapchain's format, extent and image count, chosen from what the
//! surface offers.
use vstd::prelude::*;

use crate::vulkan;

verus! {

/// A format and color space the surface can present.
#[derive(Clone, Copy, Debug, PartialEq, Eq, Structural)]
pub struct SurfaceFormat {
    /// The raw `VkFormat`.
    pub format: i32,
    /// The raw `VkColorSpaceKHR`.
    pub color_space: i32,
}

/// A format with more than eight bits per color channel, preferred for
/// presenting.
pub open spec fn is_high_bit_depth(format: i32) -> bool {
    format == vulkan::FORMAT_A2B10G10R10_UNORM_PACK32 || format == vulkan::FORMAT_R16G16B16A16_SFLOAT
}

/// `r` is the surface format chosen from `formats`: the first high bit depth
/// one, or the first one when there is none.
pub open spec fn is_format_choice(formats: Seq<SurfaceFormat>, r: SurfaceFormat) -> bool {
    if exists|i: int| 0 <= i < formats.len() && is_high_bit_depth((#[trigger] formats[i]).format) {
        exists|i: int|
            0 <= i < formats.len() && r == formats[i] && is_high_bit_depth(r.format) && forall|j: int|
                0 <= j < i ==> !is_high_bit_depth((#[trigger] formats[j]).format)
    } else {
        r == formats[0]
    }
}

/// The surface format to present in: the first high bit depth format the
/// surface offers, else its first format.
pub fn choose_surface_format(formats: &Vec<SurfaceFormat>) -> (r: SurfaceFormat)
    requires
        formats.len() >= 1,
    ensures
        is_format_choice(formats@, r),
{
    let mut i: usize = 0;
    while i < formats.len()
        invariant
            i <= formats.len(),
            forall|j: int| 0 <= j < i ==> !is_high_bit_depth((#[trigger] formats@[j]).format),
        decreases formats.len() - i,
    {
        let f = formats[i];
        if f.format == vulkan::FORMAT_A2B10G10R10_UNORM_PACK32 || f.format
            == vulkan::FORMAT_R16G16B16A16_SFLOAT {
            return f;
        }
        i = i + 1;
    }
    formats[0]
}

/// The swapchain extent: the surface's current extent, or the window's size
/// when the surface leaves it to the swapchain (a current width of
/// `u32::MAX`).
pub fn choose_extent(current: (u32, u32), window_width: u32, window_height: u32) -> (r: (u32, u32))
    ensures
        r == if current.0 == u32::MAX {
            (window_width, window_height)
        } else {
            current
        },
{
    if current.0 == u32::MAX {
        (window_width, window_height)
    } else {
        current
    }
}

/// The number of swapchain images to ask for: one more than the surface's
/// minimum, capped by its maximum when it has one (a maximum of 0 means no
/// limit).
pub fn choose_image_count(min_image_count: u32, max_image_count: u32) -> (r: u32)
    requires
        min_image_count < u32::MAX,
    ensures
        r == if max_image_count > 0 && min_image_count + 1 > max_image_count {
            max_image_count as int
        } else {
            min_image_count + 1
        },
{
    let count = min_image_count + 1;
    if max_image_count > 0 && count > max_image_count {
        max_image_count
    } else {
        count
    }
}

/// What the swapchain is created with.
#[derive(Clone, Copy, Debug, PartialEq, Eq, Structural)]
pub struct SwapchainPlan {
    pub surface_format: SurfaceFormat,
    pub width: u32,
    pub height: u32,
    pub image_count: u32,
}

/// The swapchain to create for a surface that offers `formats`, has the
/// given current extent and image count limits, in a window of the given
/// size.
pub fn plan_swapchain(
    formats: &Vec<SurfaceFormat>,
    current_extent: (u32, u32),
    min_image_count: u32,
    max_image_count: u32,
    window_width: u32,
    window_height: u32,
) -> (r: SwapchainPlan)
    requires
        formats.len() >= 1,
        min_image_count < u32::MAX,
    ensures
        is_format_choice(formats@, r.surface_format),
        (r.width, r.height) == if current_extent.0 == u32::MAX {
            (window_width, window_height)
        } else {
            current_extent
        },
        r.image_count == if max_image_count > 0 && min_image_count + 1 > max_image_count {
            max_image_count as int
        } else {
            min_image_count + 1
        },
{
    let (width, height) = choose_extent(current_extent, window_width, window_height);
    SwapchainPlan {
        surface_format: choose_surface_format(formats),
        width,
        height,
        image_count: choose_image_count(min_image_count, max_image_count),
    }
}

} // verus!
