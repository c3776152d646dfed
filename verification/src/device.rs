//! Choosing the physical device: its score, its queue families, the device
//! extensions to enable, and the capabilities read from it.
use vstd::prelude::*;

use crate::error::RendererError;
use crate::names::str_eq;
use crate::vulkan;
use crate::vulkan::has_flags;

verus! {

/// What device selection reads of a physical device.
#[derive(Clone, Copy, Debug, PartialEq, Eq, Structural)]
pub struct DeviceProperties {
    /// The raw `VkPhysicalDeviceType`.
    pub device_type: i32,
    /// The largest 2D image side the device supports.
    pub max_image_dimension_2d: u32,
}

/// The part of a device's score that its type gives: discrete GPUs first,
/// then integrated ones, then any other kind.
pub open spec fn type_score(device_type: i32) -> int {
    if device_type == vulkan::DEVICE_TYPE_DISCRETE_GPU {
        1000
    } else if device_type == vulkan::DEVICE_TYPE_INTEGRATED_GPU {
        500
    } else {
        100
    }
}

/// A device's score: its type's part plus its largest 2D image side.
pub open spec fn device_score(p: DeviceProperties) -> int {
    type_score(p.device_type) + p.max_image_dimension_2d
}

/// The score of a physical device.
pub fn score_device(props: &DeviceProperties) -> (r: u32)
    requires
        device_score(*props) <= u32::MAX,
    ensures
        r == device_score(*props),
{
    let base: u32 = if props.device_type == vulkan::DEVICE_TYPE_DISCRETE_GPU {
        1000
    } else if props.device_type == vulkan::DEVICE_TYPE_INTEGRATED_GPU {
        500
    } else {
        100
    };
    base + props.max_image_dimension_2d
}

/// Device `i` is the one chosen among `devices`: it has a positive score, no
/// device scores more, and no later device scores as much.
pub open spec fn is_chosen_device(devices: Seq<DeviceProperties>, i: int) -> bool {
    &&& 0 <= i < devices.len()
    &&& device_score(devices[i]) > 0
    &&& forall|j: int| 0 <= j < devices.len() ==> device_score(#[trigger] devices[j]) <= device_score(devices[i])
    &&& forall|j: int| i < j < devices.len() ==> device_score(#[trigger] devices[j]) < device_score(devices[i])
}

/// The scores of all of `devices` fit in 32 bits.
pub open spec fn scores_fit(devices: Seq<DeviceProperties>) -> bool {
    forall|i: int| 0 <= i < devices.len() ==> device_score(#[trigger] devices[i]) <= u32::MAX
}

/// The physical device to use: the last of those with the highest score,
/// or none when there is no device.
pub fn select_physical_device(devices: &Vec<DeviceProperties>) -> (r: Option<usize>)
    requires
        scores_fit(devices@),
    ensures
        r is None <==> devices.len() == 0,
        r matches Some(i) ==> is_chosen_device(devices@, i as int),
{
    let mut best: Option<usize> = None;
    let mut best_score: u32 = 0;
    let mut i: usize = 0;
    while i < devices.len()
        invariant
            scores_fit(devices@),
            i <= devices.len(),
            best is None <==> i == 0,
            best matches Some(b) ==> {
                &&& b < i
                &&& best_score == device_score(devices@[b as int])
                &&& best_score > 0
                &&& forall|j: int| 0 <= j < i ==> device_score(#[trigger] devices@[j]) <= best_score
                &&& forall|j: int| b < j < i ==> device_score(#[trigger] devices@[j]) < best_score
            },
        decreases devices.len() - i,
    {
        let s = score_device(&devices[i]);
        if s > 0 && (best.is_none() || s >= best_score) {
            best = Some(i);
            best_score = s;
        }
        i = i + 1;
    }
    best
}

/// What queue selection reads of a queue family.
#[derive(Clone, Copy, Debug, PartialEq, Eq, Structural)]
pub struct QueueFamily {
    /// The raw `VkQueueFlags`.
    pub flags: u32,
    /// Whether the family can present to the window's surface.
    pub present: bool,
}

/// A family that draws and presents.
pub open spec fn is_graphics_family(f: QueueFamily) -> bool {
    has_flags(f.flags, vulkan::QUEUE_GRAPHICS) && f.present
}

/// A family that computes and does not draw.
pub open spec fn is_dedicated_compute(f: QueueFamily) -> bool {
    has_flags(f.flags, vulkan::QUEUE_COMPUTE) && !has_flags(f.flags, vulkan::QUEUE_GRAPHICS)
}

/// `r` is the queue family choice for `families`: the graphics family is the
/// first that draws and presents; the compute family is the last dedicated
/// compute family, or the graphics family when there is none; and there is
/// a choice exactly when some family draws and presents.
pub open spec fn is_queue_choice(families: Seq<QueueFamily>, r: Option<(u32, u32)>) -> bool {
    match r {
        None => forall|j: int| 0 <= j < families.len() ==> !is_graphics_family(#[trigger] families[j]),
        Some((g, c)) => {
            &&& g < families.len()
            &&& is_graphics_family(families[g as int])
            &&& forall|j: int| 0 <= j < g ==> !is_graphics_family(#[trigger] families[j])
            &&& if exists|j: int| 0 <= j < families.len() && is_dedicated_compute(#[trigger] families[j]) {
                &&& c < families.len()
                &&& is_dedicated_compute(families[c as int])
                &&& forall|j: int| c < j < families.len() ==> !is_dedicated_compute(#[trigger] families[j])
            } else {
                c == g
            }
        },
    }
}

/// The graphics and compute queue families to use, or `None` when no family
/// both draws and presents.
pub fn find_queue_families(families: &Vec<QueueFamily>) -> (r: Option<(u32, u32)>)
    requires
        families.len() <= u32::MAX,
    ensures
        is_queue_choice(families@, r),
{
    let mut graphics: Option<u32> = None;
    let mut compute: Option<u32> = None;
    let mut i: usize = 0;
    while i < families.len()
        invariant
            families.len() <= u32::MAX,
            i <= families.len(),
            graphics matches Some(g) ==> g < i && is_graphics_family(families@[g as int]) && forall|j: int|
                0 <= j < g ==> !is_graphics_family(#[trigger] families@[j]),
            graphics is None ==> forall|j: int| 0 <= j < i ==> !is_graphics_family(#[trigger] families@[j]),
            compute matches Some(c) ==> c < i && is_dedicated_compute(families@[c as int]) && forall|j: int|
                c < j < i ==> !is_dedicated_compute(#[trigger] families@[j]),
            compute is None ==> forall|j: int| 0 <= j < i ==> !is_dedicated_compute(#[trigger] families@[j]),
        decreases families.len() - i,
    {
        let f = families[i];
        let has_graphics = vulkan::contains_flags(f.flags, vulkan::QUEUE_GRAPHICS);
        let has_compute = vulkan::contains_flags(f.flags, vulkan::QUEUE_COMPUTE);
        if has_graphics && f.present && graphics.is_none() {
            graphics = Some(i as u32);
        }
        if has_compute && !has_graphics {
            compute = Some(i as u32);
        }
        i = i + 1;
    }
    match graphics {
        Some(g) => {
            match compute {
                Some(c) => Some((g, c)),
                None => Some((g, g)),
            }
        },
        None => None,
    }
}

/// The families to create queues on: the graphics family, and the compute
/// family when it is another one.
pub fn queue_families_to_create(graphics: u32, compute: u32) -> (r: Vec<u32>)
    ensures
        r@ == if graphics == compute {
            seq![graphics]
        } else {
            seq![graphics, compute]
        },
{
    let mut r: Vec<u32> = Vec::new();
    r.push(graphics);
    if graphics != compute {
        r.push(compute);
    }
    r
}

/// The device and queue families the renderer runs on.
#[derive(Clone, Copy, Debug, PartialEq, Eq, Structural)]
pub struct DeviceChoice {
    pub device: usize,
    pub graphics_family: u32,
    pub compute_family: u32,
}

/// The device to run on and its queue families, given each device's
/// properties and queue families. Only the best-scoring device is
/// considered: when it has no family that draws and presents, or when there
/// is no device at all, no device is suitable.
pub fn choose_device(devices: &Vec<DeviceProperties>, families: &Vec<Vec<QueueFamily>>) -> (r: Result<
    DeviceChoice,
    RendererError,
>)
    requires
        scores_fit(devices@),
        devices.len() == families.len(),
        forall|i: int| 0 <= i < families.len() ==> (#[trigger] families[i]).len() <= u32::MAX,
    ensures
        match r {
            Ok(c) => {
                &&& is_chosen_device(devices@, c.device as int)
                &&& is_queue_choice(families[c.device as int]@, Some((c.graphics_family, c.compute_family)))
            },
            Err(e) => {
                &&& e is NoSuitableDevice
                &&& (devices.len() == 0 || exists|i: int|
                    is_chosen_device(devices@, i) && is_queue_choice(#[trigger] families[i]@, None))
            },
        },
{
    match select_physical_device(devices) {
        None => Err(RendererError::NoSuitableDevice),
        Some(i) => {
            match find_queue_families(&families[i]) {
                Some((g, c)) => Ok(DeviceChoice { device: i, graphics_family: g, compute_family: c }),
                None => Err(RendererError::NoSuitableDevice),
            }
        },
    }
}

/// Only one device is ever chosen.
pub proof fn lemma_chosen_device_unique(devices: Seq<DeviceProperties>, i: int, k: int)
    requires
        is_chosen_device(devices, i),
        is_chosen_device(devices, k),
    ensures
        i == k,
{
    if i < k {
        assert(device_score(devices[k]) < device_score(devices[i]));
        assert(device_score(devices[i]) <= device_score(devices[k]));
    } else if k < i {
        assert(device_score(devices[i]) < device_score(devices[k]));
        assert(device_score(devices[k]) <= device_score(devices[i]));
    }
}

/// The name of the swapchain extension.
pub open spec fn swapchain_extension() -> Seq<char> {
    "VK_KHR_swapchain"@
}

/// The name of the acceleration structure extension.
pub open spec fn acceleration_structure_extension() -> Seq<char> {
    "VK_KHR_acceleration_structure"@
}

/// The name of the ray tracing pipeline extension.
pub open spec fn ray_tracing_pipeline_extension() -> Seq<char> {
    "VK_KHR_ray_tracing_pipeline"@
}

/// The name of the deferred host operations extension.
pub open spec fn deferred_host_operations_extension() -> Seq<char> {
    "VK_KHR_deferred_host_operations"@
}

/// `ash::khr::swapchain::NAME` as a `String`; ash declares it as the C
/// string `"VK_KHR_swapchain"`.
#[verifier::external_body]
fn swapchain_name() -> (r: String)
    ensures
        r@ == swapchain_extension(),
{
    ash::khr::swapchain::NAME.to_string_lossy().into_owned()
}

/// `ash::khr::acceleration_structure::NAME` as a `String`; ash declares it
/// as the C string `"VK_KHR_acceleration_structure"`.
#[verifier::external_body]
fn acceleration_structure_name() -> (r: String)
    ensures
        r@ == acceleration_structure_extension(),
{
    ash::khr::acceleration_structure::NAME.to_string_lossy().into_owned()
}

/// `ash::khr::ray_tracing_pipeline::NAME` as a `String`; ash declares it as
/// the C string `"VK_KHR_ray_tracing_pipeline"`.
#[verifier::external_body]
fn ray_tracing_pipeline_name() -> (r: String)
    ensures
        r@ == ray_tracing_pipeline_extension(),
{
    ash::khr::ray_tracing_pipeline::NAME.to_string_lossy().into_owned()
}

/// `ash::khr::deferred_host_operations::NAME` as a `String`; ash declares it
/// as the C string `"VK_KHR_deferred_host_operations"`.
#[verifier::external_body]
fn deferred_host_operations_name() -> (r: String)
    ensures
        r@ == deferred_host_operations_extension(),
{
    ash::khr::deferred_host_operations::NAME.to_string_lossy().into_owned()
}

/// Some name of `available` is `name`.
pub open spec fn offers(available: Seq<String>, name: Seq<char>) -> bool {
    exists|i: int| 0 <= i < available.len() && (#[trigger] available[i])@ == name
}

/// Whether `name` is among the `available` extension names.
pub fn extension_available(available: &Vec<String>, name: &String) -> (r: bool)
    ensures
        r == offers(available@, name@),
{
    let mut i: usize = 0;
    while i < available.len()
        invariant
            i <= available.len(),
            forall|j: int| 0 <= j < i ==> (#[trigger] available@[j])@ != name@,
        decreases available.len() - i,
    {
        if str_eq(&available[i], name) {
            return true;
        }
        i = i + 1;
    }
    false
}

/// Whether the device offers all three extensions ray tracing needs.
pub fn ray_tracing_supported(available: &Vec<String>) -> (r: bool)
    ensures
        r == (offers(available@, acceleration_structure_extension()) && offers(
            available@,
            ray_tracing_pipeline_extension(),
        ) && offers(available@, deferred_host_operations_extension())),
{
    let a = acceleration_structure_name();
    let b = ray_tracing_pipeline_name();
    let c = deferred_host_operations_name();
    extension_available(available, &a) && extension_available(available, &b) && extension_available(
        available,
        &c,
    )
}

/// The device extensions to enable: the swapchain, and the three ray
/// tracing extensions when ray tracing is supported.
pub fn device_extensions(ray_tracing: bool) -> (r: Vec<String>)
    ensures
        r.len() == if ray_tracing {
            4nat
        } else {
            1nat
        },
        r[0]@ == swapchain_extension(),
        ray_tracing ==> r[1]@ == acceleration_structure_extension() && r[2]@
            == ray_tracing_pipeline_extension() && r[3]@ == deferred_host_operations_extension(),
{
    let mut r: Vec<String> = Vec::new();
    r.push(swapchain_name());
    if ray_tracing {
        r.push(acceleration_structure_name());
        r.push(ray_tracing_pipeline_name());
        r.push(deferred_host_operations_name());
    }
    r
}

/// The largest sample count set in `counts`, from 64 down to 2, or 1.
pub open spec fn best_sample_count(counts: u32) -> u32 {
    if has_flags(counts, vulkan::SAMPLE_COUNT_64) {
        vulkan::SAMPLE_COUNT_64
    } else if has_flags(counts, vulkan::SAMPLE_COUNT_32) {
        vulkan::SAMPLE_COUNT_32
    } else if has_flags(counts, vulkan::SAMPLE_COUNT_16) {
        vulkan::SAMPLE_COUNT_16
    } else if has_flags(counts, vulkan::SAMPLE_COUNT_8) {
        vulkan::SAMPLE_COUNT_8
    } else if has_flags(counts, vulkan::SAMPLE_COUNT_4) {
        vulkan::SAMPLE_COUNT_4
    } else if has_flags(counts, vulkan::SAMPLE_COUNT_2) {
        vulkan::SAMPLE_COUNT_2
    } else {
        vulkan::SAMPLE_COUNT_1
    }
}

/// The best sample count is the largest count, of 2 to 64, that both masks
/// support, or 1 when they share none: it is supported by both (or is 1),
/// and no larger supported count is passed over.
pub proof fn lemma_best_sample_count(color_counts: u32, depth_counts: u32)
    ensures
        ({
            let r = best_sample_count(color_counts & depth_counts);
            &&& r == vulkan::SAMPLE_COUNT_1 || (color_counts & r == r && depth_counts & r == r)
            &&& r == vulkan::SAMPLE_COUNT_1 || r == vulkan::SAMPLE_COUNT_2 || r == vulkan::SAMPLE_COUNT_4 || r
                == vulkan::SAMPLE_COUNT_8 || r == vulkan::SAMPLE_COUNT_16 || r == vulkan::SAMPLE_COUNT_32 || r
                == vulkan::SAMPLE_COUNT_64
            &&& forall|c: u32|
                (c == vulkan::SAMPLE_COUNT_2 || c == vulkan::SAMPLE_COUNT_4 || c == vulkan::SAMPLE_COUNT_8 || c
                    == vulkan::SAMPLE_COUNT_16 || c == vulkan::SAMPLE_COUNT_32 || c == vulkan::SAMPLE_COUNT_64)
                    && #[trigger] (color_counts & c) == c && depth_counts & c == c ==> c <= r
        }),
{
    let counts = color_counts & depth_counts;
    let r = best_sample_count(counts);
    assert(forall|b: u32| counts & b == b <==> (color_counts & b == b && depth_counts & b == b)) by (bit_vector)
        requires
            counts == color_counts & depth_counts,
    ;
}

/// The MSAA sample count to use: the largest that both color and depth
/// framebuffers support.
pub fn max_usable_sample_count(color_counts: u32, depth_counts: u32) -> (r: u32)
    ensures
        r == best_sample_count(color_counts & depth_counts),
        r == vulkan::SAMPLE_COUNT_1 || (color_counts & r == r && depth_counts & r == r),
        r == vulkan::SAMPLE_COUNT_1 || r == vulkan::SAMPLE_COUNT_2 || r == vulkan::SAMPLE_COUNT_4 || r
            == vulkan::SAMPLE_COUNT_8 || r == vulkan::SAMPLE_COUNT_16 || r == vulkan::SAMPLE_COUNT_32 || r
            == vulkan::SAMPLE_COUNT_64,
        forall|c: u32|
            (c == vulkan::SAMPLE_COUNT_2 || c == vulkan::SAMPLE_COUNT_4 || c == vulkan::SAMPLE_COUNT_8 || c
                == vulkan::SAMPLE_COUNT_16 || c == vulkan::SAMPLE_COUNT_32 || c == vulkan::SAMPLE_COUNT_64)
                && #[trigger] (color_counts & c) == c && depth_counts & c == c ==> c <= r,
{
    proof {
        lemma_best_sample_count(color_counts, depth_counts);
    }
    let counts = color_counts & depth_counts;
    if vulkan::contains_flags(counts, vulkan::SAMPLE_COUNT_64) {
        vulkan::SAMPLE_COUNT_64
    } else if vulkan::contains_flags(counts, vulkan::SAMPLE_COUNT_32) {
        vulkan::SAMPLE_COUNT_32
    } else if vulkan::contains_flags(counts, vulkan::SAMPLE_COUNT_16) {
        vulkan::SAMPLE_COUNT_16
    } else if vulkan::contains_flags(counts, vulkan::SAMPLE_COUNT_8) {
        vulkan::SAMPLE_COUNT_8
    } else if vulkan::contains_flags(counts, vulkan::SAMPLE_COUNT_4) {
        vulkan::SAMPLE_COUNT_4
    } else if vulkan::contains_flags(counts, vulkan::SAMPLE_COUNT_2) {
        vulkan::SAMPLE_COUNT_2
    } else {
        vulkan::SAMPLE_COUNT_1
    }
}

/// The depth format to use, given the optimal-tiling features of the three
/// candidates in order of preference (32-bit float, 32-bit float with
/// stencil, 24-bit with stencil): the first that can be a depth attachment,
/// or 16-bit depth when none can.
pub fn find_depth_format(d32_features: u32, d32_s8_features: u32, d24_s8_features: u32) -> (r: i32)
    ensures
        r == if has_flags(d32_features, vulkan::FORMAT_FEATURE_DEPTH_STENCIL_ATTACHMENT) {
            vulkan::FORMAT_D32_SFLOAT
        } else if has_flags(d32_s8_features, vulkan::FORMAT_FEATURE_DEPTH_STENCIL_ATTACHMENT) {
            vulkan::FORMAT_D32_SFLOAT_S8_UINT
        } else if has_flags(d24_s8_features, vulkan::FORMAT_FEATURE_DEPTH_STENCIL_ATTACHMENT) {
            vulkan::FORMAT_D24_UNORM_S8_UINT
        } else {
            vulkan::FORMAT_D16_UNORM
        },
{
    if vulkan::contains_flags(d32_features, vulkan::FORMAT_FEATURE_DEPTH_STENCIL_ATTACHMENT) {
        vulkan::FORMAT_D32_SFLOAT
    } else if vulkan::contains_flags(d32_s8_features, vulkan::FORMAT_FEATURE_DEPTH_STENCIL_ATTACHMENT) {
        vulkan::FORMAT_D32_SFLOAT_S8_UINT
    } else if vulkan::contains_flags(d24_s8_features, vulkan::FORMAT_FEATURE_DEPTH_STENCIL_ATTACHMENT) {
        vulkan::FORMAT_D24_UNORM_S8_UINT
    } else {
        vulkan::FORMAT_D16_UNORM
    }
}

/// Where an allocation lives.
#[derive(Clone, Copy, Debug, PartialEq, Eq, Structural)]
pub enum MemoryLocation {
    /// Host-visible memory the CPU writes and the GPU reads.
    CpuToGpu,
    /// Device-local memory.
    GpuOnly,
}

/// Where to allocate memory with the given property flags: host-visible
/// requests go to CPU-to-GPU memory, all others to GPU-only memory.
pub fn memory_location_for(properties: u32) -> (r: MemoryLocation)
    ensures
        r == if has_flags(properties, vulkan::MEMORY_HOST_VISIBLE) {
            MemoryLocation::CpuToGpu
        } else {
            MemoryLocation::GpuOnly
        },
{
    if vulkan::contains_flags(properties, vulkan::MEMORY_HOST_VISIBLE) {
        MemoryLocation::CpuToGpu
    } else {
        MemoryLocation::GpuOnly
    }
}

/// The stages and access masks of a one-off image layout transition.
#[derive(Clone, Copy, Debug, PartialEq, Eq, Structural)]
pub struct TransitionMasks {
    pub src_stage: u32,
    pub dst_stage: u32,
    pub src_access: u32,
    pub dst_access: u32,
}

/// The barrier masks of a one-off transition from `old_layout` to
/// `new_layout`: an upload target waits for nothing and blocks transfers; a
/// finished upload blocks fragment shading; anything else is ordered against
/// all commands. Only writes of a transfer need to be made visible, and only
/// transfer writes and shader reads wait.
pub fn layout_transition_masks(old_layout: i32, new_layout: i32) -> (r: TransitionMasks)
    ensures
        (r.src_stage, r.dst_stage) == if old_layout == vulkan::LAYOUT_UNDEFINED && new_layout
            == vulkan::LAYOUT_TRANSFER_DST_OPTIMAL {
            (vulkan::STAGE_TOP_OF_PIPE, vulkan::STAGE_TRANSFER)
        } else if old_layout == vulkan::LAYOUT_TRANSFER_DST_OPTIMAL && new_layout
            == vulkan::LAYOUT_SHADER_READ_ONLY_OPTIMAL {
            (vulkan::STAGE_TRANSFER, vulkan::STAGE_FRAGMENT_SHADER)
        } else {
            (vulkan::STAGE_ALL_COMMANDS, vulkan::STAGE_ALL_COMMANDS)
        },
        r.src_access == if old_layout == vulkan::LAYOUT_TRANSFER_DST_OPTIMAL {
            vulkan::ACCESS_TRANSFER_WRITE
        } else {
            vulkan::ACCESS_NONE
        },
        r.dst_access == if new_layout == vulkan::LAYOUT_TRANSFER_DST_OPTIMAL {
            vulkan::ACCESS_TRANSFER_WRITE
        } else if new_layout == vulkan::LAYOUT_SHADER_READ_ONLY_OPTIMAL {
            vulkan::ACCESS_SHADER_READ
        } else {
            vulkan::ACCESS_NONE
        },
{
    let (src_stage, dst_stage) = if old_layout == vulkan::LAYOUT_UNDEFINED && new_layout
        == vulkan::LAYOUT_TRANSFER_DST_OPTIMAL {
        (vulkan::STAGE_TOP_OF_PIPE, vulkan::STAGE_TRANSFER)
    } else if old_layout == vulkan::LAYOUT_TRANSFER_DST_OPTIMAL && new_layout
        == vulkan::LAYOUT_SHADER_READ_ONLY_OPTIMAL {
        (vulkan::STAGE_TRANSFER, vulkan::STAGE_FRAGMENT_SHADER)
    } else {
        (vulkan::STAGE_ALL_COMMANDS, vulkan::STAGE_ALL_COMMANDS)
    };
    let src_access = if old_layout == vulkan::LAYOUT_TRANSFER_DST_OPTIMAL {
        vulkan::ACCESS_TRANSFER_WRITE
    } else {
        vulkan::ACCESS_NONE
    };
    let dst_access = if new_layout == vulkan::LAYOUT_TRANSFER_DST_OPTIMAL {
        vulkan::ACCESS_TRANSFER_WRITE
    } else if new_layout == vulkan::LAYOUT_SHADER_READ_ONLY_OPTIMAL {
        vulkan::ACCESS_SHADER_READ
    } else {
        vulkan::ACCESS_NONE
    };
    TransitionMasks { src_stage, dst_stage, src_access, dst_access }
}

} // verus!
