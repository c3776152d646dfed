use spark_renderer::acceleration::blas_geometry;
use spark_renderer::acceleration::tlas_instance;
use spark_renderer::acceleration::tlas_instance_buffer_size;
use spark_renderer::acceleration::BlasCache;
use spark_renderer::acceleration::BlasKey;
use spark_renderer::passes::AccelerationStructurePass;
use spark_renderer::sbt::align_up;
use spark_renderer::sbt::sbt_handle_copies;
use spark_renderer::sbt::sbt_layout;
use spark_renderer::sbt::HandleCopy;
use spark_renderer::sbt::SbtRegion;

fn key(mesh_id: u32) -> BlasKey {
    BlasKey { mesh_id, vertex_offset: 0, first_index: 0 }
}

#[test]
fn cache_reads_back_what_was_inserted() {
    let mut c = BlasCache::new();
    assert_eq!(c.len(), 0);
    assert_eq!(c.lookup(key(1)), None);
    c.insert(key(1), 0x1000, 5);
    assert_eq!(c.lookup(key(1)), Some(0x1000));
    c.insert(key(1), 0x2000, 6);
    assert_eq!(c.lookup(key(1)), Some(0x2000));
    assert_eq!(c.len(), 1);
    c.insert(key(2), 0x3000, 6);
    assert_eq!(c.len(), 2);
    let other = BlasKey { mesh_id: 1, vertex_offset: -3, first_index: 0 };
    assert_eq!(c.lookup(other), None);
}

#[test]
fn stale_structures_are_evicted() {
    let mut c = BlasCache::new();
    c.insert(key(1), 10, 0);
    c.insert(key(2), 20, 50);
    c.insert(key(3), 30, 100);
    assert!(c.evict_unused(100).is_empty());
    let gone = c.evict_unused(101);
    assert_eq!(gone, vec![key(1)]);
    assert_eq!(c.lookup(key(1)), None);
    assert_eq!(c.lookup(key(2)), Some(20));
    c.mark_used(key(2), 200);
    let gone = c.evict_unused(201);
    assert_eq!(gone, vec![key(3)]);
    assert_eq!(c.lookup(key(2)), Some(20));
    assert_eq!(c.len(), 1);
    assert!(c.evict_unused(0).is_empty());
}

#[test]
fn builds_are_planned_once_per_missing_key() {
    let mut c = BlasCache::new();
    c.insert(key(9), 90, 0);
    let meshes = vec![key(1), key(9), key(1), key(2)];
    assert_eq!(c.blas_builds_needed(&meshes), vec![0, 3]);
    c.insert(key(1), 10, 7);
    c.insert(key(2), 20, 7);
    assert!(c.blas_builds_needed(&meshes).is_empty());
    let instances = c.build_tlas_instances(&meshes, 8);
    assert_eq!(instances.len(), 4);
    assert_eq!(instances[0].blas_address, 10);
    assert_eq!(instances[1].blas_address, 90);
    assert_eq!(instances[3].blas_address, 20);
    for (i, inst) in instances.iter().enumerate() {
        assert_eq!(inst.custom_index, i as u32);
        assert_eq!(inst.mask, 0xff);
        assert_eq!(inst.sbt_record_offset, 0);
        assert_eq!(inst.flags, 1);
        let packed = ash::vk::Packed24_8::new(inst.custom_index, inst.mask);
        assert_eq!(packed.low_24(), i as u32);
        assert_eq!(packed.high_8(), 0xff);
    }
    assert!(c.evict_unused(108).is_empty());
    assert_eq!(c.evict_unused(109).len(), 3);
}

#[test]
fn blas_geometry_addresses() {
    let g = blas_geometry(0x10000, 0x20000, 32, 3, 6, 100, 36);
    assert_eq!(g.vertex_address, 0x10000 + 96);
    assert_eq!(g.index_address, 0x20000 + 24);
    assert_eq!(g.max_vertex, 100);
    assert_eq!(g.primitive_count, 12);
    assert_eq!(tlas_instance_buffer_size(3), 192);
    assert_eq!(
        tlas_instance_buffer_size(1),
        std::mem::size_of::<ash::vk::AccelerationStructureInstanceKHR>() as u64
    );
}

#[test]
fn as_pass_reads_packed_vertices() {
    let p = AccelerationStructurePass::new();
    assert_eq!(p.vertex_stride, 32);
    assert_eq!(p.name(), "AccelerationStructurePass");
    assert_eq!(p.outputs(), vec!["SceneTLAS".to_string()]);
    assert_eq!(p.frame_work(true, Some(3), true, 200), (true, true));
    assert_eq!(p.frame_work(true, Some(3), true, 201), (true, false));
    assert_eq!(p.frame_work(false, Some(3), true, 200), (false, false));
    assert_eq!(p.frame_work(true, Some(0), true, 200), (false, false));
    assert_eq!(p.frame_work(true, None, true, 200), (false, false));
    assert_eq!(p.frame_work(true, Some(1), false, 100), (false, false));
}

#[test]
fn alignment_rounds_up() {
    assert_eq!(align_up(0, 64), 0);
    assert_eq!(align_up(1, 64), 64);
    assert_eq!(align_up(64, 64), 64);
    assert_eq!(align_up(65, 64), 128);
    assert_eq!(align_up(32, 1), 32);
}

#[test]
fn binding_table_layout() {
    let l = sbt_layout(32, 32, 64, 0x1000);
    assert_eq!(l.handle_stride, 32);
    assert_eq!(l.region_size, 64);
    assert_eq!(l.buffer_size, 256);
    assert_eq!(l.raygen, SbtRegion { device_address: 0x1000, stride: 32, size: 64 });
    assert_eq!(l.miss, SbtRegion { device_address: 0x1040, stride: 32, size: 64 });
    assert_eq!(l.hit, SbtRegion { device_address: 0x1080, stride: 32, size: 64 });
    assert_eq!(l.callable, SbtRegion { device_address: 0, stride: 0, size: 0 });
    let odd = sbt_layout(20, 16, 64, 0);
    assert_eq!((odd.handle_stride, odd.region_size), (32, 64));
    let copies = sbt_handle_copies(32, 64);
    assert_eq!(
        copies,
        vec![
            HandleCopy { src_offset: 0, dst_offset: 0, len: 32 },
            HandleCopy { src_offset: 32, dst_offset: 64, len: 32 },
            HandleCopy { src_offset: 64, dst_offset: 128, len: 32 },
        ]
    );
}

#[test]
fn instance_index_keeps_24_bits() {
    let inst = tlas_instance(0x0100_0005, 0xabc);
    assert_eq!(inst.custom_index, 5);
    assert_eq!(inst.mask, 0xff);
    assert_eq!(inst.blas_address, 0xabc);
    assert_eq!(tlas_instance(0x00ff_ffff, 1).custom_index, 0x00ff_ffff);
}

#[test]
fn built_structures_back_every_instance() {
    let key = |mesh_id: u32| BlasKey { mesh_id, vertex_offset: 0, first_index: 0 };
    let mut cache = BlasCache::new();
    cache.insert(key(1), 0xA000, 3);
    let meshes = vec![key(1), key(2), key(2), key(3)];
    let planned = cache.blas_builds_needed(&meshes);
    assert_eq!(planned, vec![1, 3]);
    let instances = cache.cache_built_and_build_tlas(&meshes, &planned, &vec![0xB000, 0xC000], 7);
    let addresses: Vec<u64> = instances.iter().map(|i| i.blas_address).collect();
    assert_eq!(addresses, vec![0xA000, 0xB000, 0xB000, 0xC000]);
    let indices: Vec<u32> = instances.iter().map(|i| i.custom_index).collect();
    assert_eq!(indices, vec![0, 1, 2, 3]);
    assert_eq!(cache.len(), 3);
    assert_eq!(cache.lookup(key(3)), Some(0xC000));
}
