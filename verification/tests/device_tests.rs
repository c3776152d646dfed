use ash::vk;
use spark_renderer::device::choose_device;
use spark_renderer::device::device_extensions;
use spark_renderer::device::extension_available;
use spark_renderer::device::find_depth_format;
use spark_renderer::device::find_queue_families;
use spark_renderer::device::layout_transition_masks;
use spark_renderer::device::max_usable_sample_count;
use spark_renderer::device::memory_location_for;
use spark_renderer::device::queue_families_to_create;
use spark_renderer::device::ray_tracing_supported;
use spark_renderer::device::score_device;
use spark_renderer::device::select_physical_device;
use spark_renderer::device::DeviceProperties;
use spark_renderer::device::MemoryLocation;
use spark_renderer::device::QueueFamily;
use spark_renderer::error::RendererError;
use spark_renderer::swapchain::choose_extent;
use spark_renderer::swapchain::choose_image_count;
use spark_renderer::swapchain::choose_surface_format;
use spark_renderer::swapchain::plan_swapchain;
use spark_renderer::swapchain::SurfaceFormat;
use spark_renderer::vulkan;

fn dev(device_type: i32, max: u32) -> DeviceProperties {
    DeviceProperties { device_type, max_image_dimension_2d: max }
}

#[test]
fn device_scores() {
    assert_eq!(score_device(&dev(vulkan::DEVICE_TYPE_DISCRETE_GPU, 16384)), 17384);
    assert_eq!(score_device(&dev(vulkan::DEVICE_TYPE_INTEGRATED_GPU, 8192)), 8692);
    assert_eq!(score_device(&dev(4, 4096)), 4196);
}

#[test]
fn best_device_wins_and_ties_go_to_the_last() {
    assert_eq!(select_physical_device(&vec![]), None);
    let devices = vec![
        dev(vulkan::DEVICE_TYPE_INTEGRATED_GPU, 16384),
        dev(vulkan::DEVICE_TYPE_DISCRETE_GPU, 8192),
        dev(vulkan::DEVICE_TYPE_DISCRETE_GPU, 4096),
    ];
    assert_eq!(select_physical_device(&devices), Some(0));
    let tie = vec![dev(vulkan::DEVICE_TYPE_DISCRETE_GPU, 100), dev(vulkan::DEVICE_TYPE_DISCRETE_GPU, 100)];
    assert_eq!(select_physical_device(&tie), Some(1));
}

fn fam(flags: u32, present: bool) -> QueueFamily {
    QueueFamily { flags, present }
}

#[test]
fn queue_families() {
    let g = vulkan::QUEUE_GRAPHICS;
    let c = vulkan::QUEUE_COMPUTE;
    assert_eq!(find_queue_families(&vec![fam(g | c, true)]), Some((0, 0)));
    assert_eq!(find_queue_families(&vec![fam(g | c, false), fam(g, true), fam(c, false), fam(c, true)]), Some((1, 3)));
    assert_eq!(find_queue_families(&vec![fam(c, true)]), None);
    assert_eq!(find_queue_families(&vec![]), None);
    assert_eq!(queue_families_to_create(1, 1), vec![1]);
    assert_eq!(queue_families_to_create(0, 2), vec![0, 2]);
}

#[test]
fn device_choice_and_its_error() {
    let g = vulkan::QUEUE_GRAPHICS;
    let devices = vec![dev(vulkan::DEVICE_TYPE_INTEGRATED_GPU, 100), dev(vulkan::DEVICE_TYPE_DISCRETE_GPU, 100)];
    let ok = choose_device(&devices, &vec![vec![fam(g, true)], vec![fam(0, false), fam(g, true)]]).unwrap();
    assert_eq!((ok.device, ok.graphics_family, ok.compute_family), (1, 1, 1));
    let no_present = choose_device(&devices, &vec![vec![fam(g, true)], vec![fam(g, false)]]);
    assert!(matches!(no_present, Err(RendererError::NoSuitableDevice)));
    assert!(matches!(choose_device(&vec![], &vec![]), Err(RendererError::NoSuitableDevice)));
}

#[test]
fn extension_names_come_from_ash() {
    let all = device_extensions(true);
    assert_eq!(all.len(), 4);
    assert_eq!(all[0], ash::khr::swapchain::NAME.to_str().unwrap());
    assert_eq!(all[1], "VK_KHR_acceleration_structure");
    assert_eq!(all[2], "VK_KHR_ray_tracing_pipeline");
    assert_eq!(all[3], "VK_KHR_deferred_host_operations");
    assert_eq!(device_extensions(false), vec!["VK_KHR_swapchain".to_string()]);
    assert!(ray_tracing_supported(&all));
    assert!(!ray_tracing_supported(&all[..3].to_vec()));
    assert!(extension_available(&all, &"VK_KHR_swapchain".to_string()));
    assert!(!extension_available(&all, &"VK_KHR_other".to_string()));
}

#[test]
fn sample_counts() {
    assert_eq!(max_usable_sample_count(0x7f, 0x7f), vulkan::SAMPLE_COUNT_64);
    assert_eq!(max_usable_sample_count(0x0f, 0x07), vulkan::SAMPLE_COUNT_4);
    assert_eq!(max_usable_sample_count(0x10, 0x01), vulkan::SAMPLE_COUNT_1);
}

#[test]
fn depth_formats() {
    let ds = vulkan::FORMAT_FEATURE_DEPTH_STENCIL_ATTACHMENT;
    assert_eq!(find_depth_format(ds, ds, ds), vulkan::FORMAT_D32_SFLOAT);
    assert_eq!(find_depth_format(0, ds, ds), vulkan::FORMAT_D32_SFLOAT_S8_UINT);
    assert_eq!(find_depth_format(0, 0, ds), vulkan::FORMAT_D24_UNORM_S8_UINT);
    assert_eq!(find_depth_format(0, 0, 0), vulkan::FORMAT_D16_UNORM);
}

#[test]
fn memory_locations() {
    assert_eq!(memory_location_for(vulkan::MEMORY_HOST_VISIBLE | vulkan::MEMORY_HOST_COHERENT), MemoryLocation::CpuToGpu);
    assert_eq!(memory_location_for(vulkan::MEMORY_DEVICE_LOCAL), MemoryLocation::GpuOnly);
}

#[test]
fn one_off_transition_masks() {
    let up = layout_transition_masks(vulkan::LAYOUT_UNDEFINED, vulkan::LAYOUT_TRANSFER_DST_OPTIMAL);
    assert_eq!((up.src_stage, up.dst_stage), (vulkan::STAGE_TOP_OF_PIPE, vulkan::STAGE_TRANSFER));
    assert_eq!((up.src_access, up.dst_access), (0, vulkan::ACCESS_TRANSFER_WRITE));
    let done = layout_transition_masks(vulkan::LAYOUT_TRANSFER_DST_OPTIMAL, vulkan::LAYOUT_SHADER_READ_ONLY_OPTIMAL);
    assert_eq!((done.src_stage, done.dst_stage), (vulkan::STAGE_TRANSFER, vulkan::STAGE_FRAGMENT_SHADER));
    assert_eq!((done.src_access, done.dst_access), (vulkan::ACCESS_TRANSFER_WRITE, vulkan::ACCESS_SHADER_READ));
    let other = layout_transition_masks(vulkan::LAYOUT_GENERAL, vulkan::LAYOUT_COLOR_ATTACHMENT_OPTIMAL);
    assert_eq!((other.src_stage, other.dst_stage), (vulkan::STAGE_ALL_COMMANDS, vulkan::STAGE_ALL_COMMANDS));
    assert_eq!((other.src_access, other.dst_access), (0, 0));
}

#[test]
fn surface_choices() {
    let srgb = SurfaceFormat { format: vulkan::FORMAT_R8G8B8A8_SRGB, color_space: 0 };
    let hdr10 = SurfaceFormat { format: vulkan::FORMAT_A2B10G10R10_UNORM_PACK32, color_space: 0 };
    let f16 = SurfaceFormat { format: vulkan::FORMAT_R16G16B16A16_SFLOAT, color_space: 1 };
    assert_eq!(choose_surface_format(&vec![srgb]), srgb);
    assert_eq!(choose_surface_format(&vec![srgb, f16, hdr10]), f16);
    assert_eq!(choose_extent((u32::MAX, u32::MAX), 800, 600), (800, 600));
    assert_eq!(choose_extent((1024, 768), 800, 600), (1024, 768));
    assert_eq!(choose_image_count(2, 0), 3);
    assert_eq!(choose_image_count(2, 3), 3);
    assert_eq!(choose_image_count(3, 3), 3);
    let plan = plan_swapchain(&vec![srgb, hdr10], (u32::MAX, 0), 1, 8, 640, 480);
    assert_eq!(plan.surface_format, hdr10);
    assert_eq!((plan.width, plan.height, plan.image_count), (640, 480, 2));
}

#[test]
fn constants_match_ash() {
    assert_eq!(vulkan::LAYOUT_DEPTH_ATTACHMENT_OPTIMAL, vk::ImageLayout::DEPTH_ATTACHMENT_OPTIMAL.as_raw());
    assert_eq!(vulkan::LAYOUT_SHADER_READ_ONLY_OPTIMAL, vk::ImageLayout::SHADER_READ_ONLY_OPTIMAL.as_raw());
    assert_eq!(vulkan::LAYOUT_TRANSFER_DST_OPTIMAL, vk::ImageLayout::TRANSFER_DST_OPTIMAL.as_raw());
    assert_eq!(vulkan::FORMAT_D32_SFLOAT, vk::Format::D32_SFLOAT.as_raw());
    assert_eq!(vulkan::FORMAT_D24_UNORM_S8_UINT, vk::Format::D24_UNORM_S8_UINT.as_raw());
    assert_eq!(vulkan::FORMAT_A2B10G10R10_UNORM_PACK32, vk::Format::A2B10G10R10_UNORM_PACK32.as_raw());
    assert_eq!(vulkan::FORMAT_R16G16_UNORM, vk::Format::R16G16_UNORM.as_raw());
    assert_eq!(vulkan::ACCESS_ACCELERATION_STRUCTURE_WRITE, vk::AccessFlags::ACCELERATION_STRUCTURE_WRITE_KHR.as_raw());
    assert_eq!(vulkan::STAGE_ACCELERATION_STRUCTURE_BUILD, vk::PipelineStageFlags::ACCELERATION_STRUCTURE_BUILD_KHR.as_raw());
    assert_eq!(vulkan::STAGE_RAY_TRACING_SHADER, vk::PipelineStageFlags::RAY_TRACING_SHADER_KHR.as_raw());
    assert_eq!(vulkan::DESCRIPTOR_ACCELERATION_STRUCTURE, vk::DescriptorType::ACCELERATION_STRUCTURE_KHR.as_raw());
    assert_eq!(vulkan::FORMAT_FEATURE_DEPTH_STENCIL_ATTACHMENT, vk::FormatFeatureFlags::DEPTH_STENCIL_ATTACHMENT.as_raw());
    assert_eq!(vulkan::DEVICE_TYPE_DISCRETE_GPU, vk::PhysicalDeviceType::DISCRETE_GPU.as_raw());
    assert_eq!(vulkan::BUFFER_USAGE_SHADER_DEVICE_ADDRESS, vk::BufferUsageFlags::SHADER_DEVICE_ADDRESS.as_raw());
    assert_eq!(
        vulkan::GEOMETRY_INSTANCE_TRIANGLE_FACING_CULL_DISABLE,
        vk::GeometryInstanceFlagsKHR::TRIANGLE_FACING_CULL_DISABLE.as_raw()
    );
    assert_eq!(vulkan::SAMPLE_COUNT_64, vk::SampleCountFlags::TYPE_64.as_raw());
}
