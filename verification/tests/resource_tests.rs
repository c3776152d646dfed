use spark_renderer::resource::plan_light_buffers;
use spark_renderer::descriptors::passes_to_update;
use spark_renderer::descriptors::version_is_stale;
use spark_renderer::resource::renderer_buffer_for;
use spark_renderer::resource::RendererBuffer;
use spark_renderer::bindless::BindlessManager;
use spark_renderer::descriptors::descriptors_need_update;
use spark_renderer::descriptors::plan_descriptor_writes;
use spark_renderer::descriptors::recorded_version;
use spark_renderer::descriptors::refresh_descriptor_versions;
use spark_renderer::descriptors::DescriptorWrite;
use spark_renderer::descriptors::ResourceBinding;
use spark_renderer::descriptors::ResourceVersion;
use spark_renderer::descriptors::WriteSource;
use spark_renderer::resource::build_draw_commands;
use spark_renderer::resource::check_upload;
use spark_renderer::resource::draw_data_sizes;
use spark_renderer::resource::grown_size;
use spark_renderer::resource::light_data_size;
use spark_renderer::resource::needs_new_buffer;
use spark_renderer::resource::next_power_of_two;
use spark_renderer::resource::plan_draw_buffers;
use spark_renderer::resource::triangle_count;
use spark_renderer::resource::ui_buffer_capacity;
use spark_renderer::resource::DrawIndexedIndirectCommand;
use spark_renderer::resource::InstanceBufferAction;
use spark_renderer::resource::InstanceBufferPool;
use spark_renderer::resource::LightGrid;
use spark_renderer::resource::MeshDrawRange;
use spark_renderer::resource::ResourceTracker;
use spark_renderer::resource::UploadError;
use spark_renderer::resource::LIGHT_DATA_SIZE;
use spark_renderer::resource::MAX_FRAMES_IN_FLIGHT;
use spark_renderer::resource::MIN_STAGING_BUFFER_SIZE;
use spark_renderer::vulkan;

#[test]
fn test_light_data_layout() {
    #[derive(Copy, Clone)]
    struct LD {
        pos: [f32; 4],
        dir: [f32; 4],
        col: [f32; 4],
        spot_angles: [f32; 4],
    }
    assert_eq!(std::mem::size_of::<LD>(), 64);
    assert_eq!(std::mem::size_of::<LD>() as u64, LIGHT_DATA_SIZE);
}

#[test]
fn light_buffer_holds_every_light() {
    assert_eq!(light_data_size(0), 0);
    assert_eq!(light_data_size(3), 192);
}

#[test]
fn draw_data_sizes_scale_with_count() {
    assert_eq!(draw_data_sizes(0), (0, 0));
    assert_eq!(draw_data_sizes(10), (200, 800));
}

#[test]
fn light_grid_is_two_words() {
    assert_eq!(std::mem::size_of::<LightGrid>(), 8);
    let g = LightGrid { offset: 5, count: 2 };
    assert_eq!(g, LightGrid { offset: 5, count: 2 });
}

#[test]
fn transition_records_barrier_once() {
    let mut t = ResourceTracker::new();
    let b = t.transition_image(7, vulkan::LAYOUT_COLOR_ATTACHMENT_OPTIMAL, 0, 1, 2, 3, vulkan::ASPECT_COLOR);
    let b = b.expect("first transition needs a barrier");
    assert_eq!(b.image, 7);
    assert_eq!(b.old_layout, vulkan::LAYOUT_UNDEFINED);
    assert_eq!(b.new_layout, vulkan::LAYOUT_COLOR_ATTACHMENT_OPTIMAL);
    assert!(t
        .transition_image(7, vulkan::LAYOUT_COLOR_ATTACHMENT_OPTIMAL, 0, 1, 2, 3, vulkan::ASPECT_COLOR)
        .is_none());
    let again = t
        .transition_image(7, vulkan::LAYOUT_SHADER_READ_ONLY_OPTIMAL, 0, 1, 2, 3, vulkan::ASPECT_COLOR)
        .unwrap();
    assert_eq!(again.old_layout, vulkan::LAYOUT_COLOR_ATTACHMENT_OPTIMAL);
    assert_eq!(t.image_layouts.get(&7), Some(&vulkan::LAYOUT_SHADER_READ_ONLY_OPTIMAL));
}

#[test]
fn buffers_are_replaced_only_when_too_small() {
    assert!(needs_new_buffer(None, 0));
    assert!(needs_new_buffer(Some(10), 11));
    assert!(!needs_new_buffer(Some(10), 10));
    assert_eq!(grown_size(5, MIN_STAGING_BUFFER_SIZE), 1048576);
    assert_eq!(grown_size(2_000_000, MIN_STAGING_BUFFER_SIZE), 2_000_000);
}

#[test]
fn draw_buffers_plan() {
    let p = plan_draw_buffers(None, Some(4096), false, 100, 4000);
    assert_eq!(p.commands, Some(1024));
    assert_eq!(p.objects, None);
    assert_eq!(p.draw_count, Some(4));
    let q = plan_draw_buffers(Some(1024), Some(1024), true, 5000, 1024);
    assert_eq!(q.commands, Some(5000));
    assert_eq!(q.objects, None);
    assert_eq!(q.draw_count, None);
    let none = plan_draw_buffers(None, None, false, 0, 0);
    assert_eq!((none.commands, none.objects, none.draw_count), (None, None, None));
    let no_objects = plan_draw_buffers(None, None, true, 20, 0);
    assert_eq!((no_objects.commands, no_objects.objects, no_objects.draw_count), (Some(1024), Some(1024), None));
}

#[test]
fn upload_checks() {
    assert_eq!(check_upload(false, 100, 10), Err(UploadError::NotHostVisible));
    assert_eq!(check_upload(true, 100, 101), Err(UploadError::DataTooLarge));
    assert_eq!(check_upload(true, 100, 100), Ok(()));
}

#[test]
fn instance_pool_reuses_slots() {
    let mut pool = InstanceBufferPool::new();
    assert_eq!(pool.next_instance_buffer(64), (0, InstanceBufferAction::Append));
    pool.clear_instance_buffers();
    assert_eq!(pool.instance_index, 0);
    assert_eq!(pool.next_instance_buffer(32), (0, InstanceBufferAction::Reuse));
    pool.clear_instance_buffers();
    assert_eq!(pool.next_instance_buffer(128), (0, InstanceBufferAction::Replace));
    assert_eq!(pool.next_instance_buffer(8), (1, InstanceBufferAction::Append));
    assert_eq!(pool.sizes, vec![128, 8]);
    pool.clear_instance_buffers();
    assert_eq!(pool.next_instance_buffer(100), (0, InstanceBufferAction::Reuse));
}

#[test]
fn added_instance_buffer_gets_next_slot() {
    let mut pool = InstanceBufferPool::new();
    assert_eq!(pool.add_instance_buffer(16), 0);
    assert_eq!(pool.add_instance_buffer(32), 1);
    assert_eq!(pool.instance_index, 0);
    assert_eq!(pool.sizes, vec![16, 32]);
}

#[test]
fn draw_commands_one_per_mesh() {
    let meshes = vec![
        MeshDrawRange { index_count: 36, first_index: 0, vertex_offset: 0, material_index: 1 },
        MeshDrawRange { index_count: 6, first_index: 36, vertex_offset: -4, material_index: 2 },
    ];
    let cmds = build_draw_commands(&meshes);
    assert_eq!(
        cmds,
        vec![
            DrawIndexedIndirectCommand { index_count: 36, instance_count: 1, first_index: 0, vertex_offset: 0, first_instance: 0 },
            DrawIndexedIndirectCommand { index_count: 6, instance_count: 1, first_index: 36, vertex_offset: -4, first_instance: 1 },
        ]
    );
}

#[test]
fn triangles_are_counted() {
    assert_eq!(triangle_count(&vec![36, 6], &vec![3, 5]), 12 + 2 + 1 + 1);
    assert_eq!(triangle_count(&vec![], &vec![]), 0);
}

#[test]
fn powers_of_two() {
    assert_eq!(next_power_of_two(0), 1);
    assert_eq!(next_power_of_two(1), 1);
    assert_eq!(next_power_of_two(3), 4);
    assert_eq!(next_power_of_two(1024), 1024);
    assert_eq!(next_power_of_two(1025), 2048);
    assert_eq!(next_power_of_two(1 << 63), 1 << 63);
    for n in 1u64..5000 {
        assert_eq!(next_power_of_two(n), n.next_power_of_two());
    }
}

#[test]
fn ui_buffers_grow_to_powers_of_two() {
    assert_eq!(ui_buffer_capacity(false, 0, 10), Some(1024));
    assert_eq!(ui_buffer_capacity(true, 1024, 1000), None);
    assert_eq!(ui_buffer_capacity(true, 1024, 1025), Some(2048));
    assert_eq!(ui_buffer_capacity(true, 2048, 3000), Some(4096));
}

#[test]
fn frames_in_flight() {
    assert_eq!(MAX_FRAMES_IN_FLIGHT, 2);
}

#[test]
fn bindless_reuses_returned_slots() {
    let mut b = BindlessManager::new(3);
    assert_eq!(b.max_descriptors(), 3);
    assert_eq!(b.allocate_index(), 0);
    assert_eq!(b.allocate_index(), 1);
    b.deallocate_index(0);
    assert_eq!(b.allocate_index(), 0);
    assert_eq!(b.allocate_index(), 2);
    assert!(!b.can_allocate());
    b.deallocate_index(1);
    assert!(b.can_allocate());
    assert_eq!(b.allocate_index(), 1);
}

#[test]
fn descriptor_writes_follow_bindings() {
    let bindings = vec![
        ResourceBinding::SampledImage(0, "A".to_string()),
        ResourceBinding::StorageBuffer(1, "B".to_string()),
        ResourceBinding::StorageImage(2, "C".to_string()),
        ResourceBinding::UniformBuffer(3, "D".to_string()),
        ResourceBinding::AccelerationStructure(4, "TLAS".to_string()),
    ];
    let writes = plan_descriptor_writes(&bindings, &vec![true, true, true, false, true], true);
    assert_eq!(
        writes,
        vec![
            DescriptorWrite {
                binding: 0,
                descriptor_type: vulkan::DESCRIPTOR_COMBINED_IMAGE_SAMPLER,
                source: WriteSource::Image { info: 0, layout: vulkan::LAYOUT_SHADER_READ_ONLY_OPTIMAL },
            },
            DescriptorWrite { binding: 1, descriptor_type: vulkan::DESCRIPTOR_STORAGE_BUFFER, source: WriteSource::Buffer { info: 0 } },
            DescriptorWrite {
                binding: 2,
                descriptor_type: vulkan::DESCRIPTOR_STORAGE_IMAGE,
                source: WriteSource::Image { info: 1, layout: vulkan::LAYOUT_GENERAL },
            },
            DescriptorWrite {
                binding: 4,
                descriptor_type: vulkan::DESCRIPTOR_ACCELERATION_STRUCTURE,
                source: WriteSource::AccelerationStructure { info: 0 },
            },
        ]
    );
    let no_tlas = plan_descriptor_writes(&bindings, &vec![true, true, true, false, true], false);
    assert_eq!(no_tlas.len(), 3);
    assert_eq!(bindings[1].resource_name(), "B");
}

#[test]
fn descriptor_versions() {
    let stored = vec![
        ResourceVersion { name: "A".to_string(), version: 1 },
        ResourceVersion { name: "A".to_string(), version: 2 },
    ];
    assert_eq!(recorded_version(&stored, &"A".to_string()), Some(2));
    assert_eq!(recorded_version(&stored, &"B".to_string()), None);
    let current_same = vec![ResourceVersion { name: "A".to_string(), version: 2 }];
    let current_new = vec![ResourceVersion { name: "A".to_string(), version: 3 }];
    let current_other = vec![ResourceVersion { name: "B".to_string(), version: 0 }];
    assert!(!descriptors_need_update(&stored, &current_same));
    assert!(descriptors_need_update(&stored, &current_new));
    assert!(descriptors_need_update(&stored, &current_other));
    assert!(!descriptors_need_update(&stored, &vec![]));
}

#[test]
fn stale_versions_and_passes_to_refresh() {
    let stored = vec![ResourceVersion { name: "HiZPass".to_string(), version: 4 }];
    assert!(!version_is_stale(&stored, &"HiZPass".to_string(), 4));
    assert!(version_is_stale(&stored, &"HiZPass".to_string(), 5));
    assert!(version_is_stale(&stored, &"TAAPass".to_string(), 4));
    assert_eq!(passes_to_update(&vec![true, false, true, true], &vec![true, true, false, true]), vec![0, 3]);
}

#[test]
fn renderer_buffers_by_name() {
    assert_eq!(renderer_buffer_for(&"Lights".to_string()), Some(RendererBuffer::Lights));
    assert_eq!(renderer_buffer_for(&"light_buffer".to_string()), Some(RendererBuffer::Lights));
    assert_eq!(renderer_buffer_for(&"MeshData".to_string()), Some(RendererBuffer::ObjectData));
    assert_eq!(renderer_buffer_for(&"object_data_buffer".to_string()), Some(RendererBuffer::ObjectData));
    assert_eq!(renderer_buffer_for(&"Vertices".to_string()), Some(RendererBuffer::Vertices));
    assert_eq!(renderer_buffer_for(&"Indices".to_string()), Some(RendererBuffer::Indices));
    assert_eq!(renderer_buffer_for(&"Materials".to_string()), Some(RendererBuffer::Materials));
    assert_eq!(renderer_buffer_for(&"light_grid".to_string()), None);
}

#[test]
fn light_buffers_grow_per_frame() {
    assert_eq!(plan_light_buffers(&vec![None, Some(256)], 4), (vec![true, false], true));
    assert_eq!(plan_light_buffers(&vec![Some(64), Some(256)], 4), (vec![true, false], true));
    assert_eq!(plan_light_buffers(&vec![Some(256), Some(256)], 4), (vec![false, false], false));
    assert_eq!(plan_light_buffers(&vec![None, None], 0), (vec![false, false], false));
}

#[test]
fn recorded_versions_need_no_second_write() {
    let mut stored = vec![ResourceVersion { name: "A".to_string(), version: 1 }];
    let current = || {
        vec![
            ResourceVersion { name: "A".to_string(), version: 2 },
            ResourceVersion { name: "B".to_string(), version: 0 },
        ]
    };
    assert!(refresh_descriptor_versions(&mut stored, current()));
    assert_eq!(stored.len(), 2);
    assert_eq!(recorded_version(&stored, &"A".to_string()), Some(2));
    assert!(!refresh_descriptor_versions(&mut stored, current()));
    assert_eq!(stored.len(), 2);
}
