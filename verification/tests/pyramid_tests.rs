use spark_renderer::pyramid::post_process_pool;
use spark_renderer::pyramid::pyramid_descriptor_sets;
use spark_renderer::frame::previous_frame;
use spark_renderer::frame::FrameManager;
use spark_renderer::pyramid::bloom_mip_extents;
use spark_renderer::pyramid::group_count;
use spark_renderer::pyramid::mip_level_count;
use spark_renderer::pyramid::plan_bloom;
use spark_renderer::pyramid::plan_depth_pyramid;
use spark_renderer::pyramid::plan_mip_blits;
use spark_renderer::pyramid::BloomSource;
use spark_renderer::pyramid::BloomStep;
use spark_renderer::pyramid::MipBlit;
use spark_renderer::pyramid::PyramidSource;
use spark_renderer::pyramid::BLOOM_MIP_COUNT;

#[test]
fn mip_levels_are_log2_plus_one() {
    assert_eq!(mip_level_count(0, 0), 1);
    assert_eq!(mip_level_count(1, 1), 1);
    assert_eq!(mip_level_count(2, 1), 2);
    assert_eq!(mip_level_count(256, 256), 9);
    assert_eq!(mip_level_count(1920, 1080), 11);
    assert_eq!(mip_level_count(300, 5000), 13);
    assert_eq!(mip_level_count(u32::MAX, 7), 32);
    for n in 1u32..20000 {
        let float_levels = ((n as f32).log2().floor() as u32) + 1;
        assert_eq!(mip_level_count(n, 1), float_levels);
    }
}

#[test]
fn full_chain_ends_at_one_texel() {
    for (w, h) in [(1920u32, 1080u32), (7, 300), (1, 1), (1024, 1), (5, 5)] {
        let levels = mip_level_count(w, h);
        let blits = plan_mip_blits(w, h, levels);
        assert_eq!(blits.len() as u32, levels - 1);
        if let Some(last) = blits.last() {
            assert_eq!((last.dst_width, last.dst_height), (1, 1));
        }
        for b in &blits {
            assert!(b.src_width > 1 || b.src_height > 1);
        }
    }
}

#[test]
fn mip_blits_halve_each_level() {
    let blits = plan_mip_blits(5, 3, 3);
    assert_eq!(
        blits,
        vec![
            MipBlit { src_level: 0, dst_level: 1, src_width: 5, src_height: 3, dst_width: 2, dst_height: 1 },
            MipBlit { src_level: 1, dst_level: 2, src_width: 2, src_height: 1, dst_width: 1, dst_height: 1 },
        ]
    );
    assert!(plan_mip_blits(5, 3, 0).is_empty());
    assert!(plan_mip_blits(5, 3, 1).is_empty());
}

#[test]
fn dispatch_groups_round_up() {
    assert_eq!(group_count(0, 16), 0);
    assert_eq!(group_count(16, 16), 1);
    assert_eq!(group_count(17, 16), 2);
    assert_eq!(group_count(u32::MAX, 256), 16777216);
    assert_eq!(group_count(u32::MAX, 1), u32::MAX);
}

#[test]
fn depth_pyramid_chains_levels() {
    let steps = plan_depth_pyramid(1, 40, 20, 6);
    assert_eq!(steps.len(), 5);
    assert_eq!(steps[0].source, PyramidSource::Depth);
    assert_eq!(steps[0].target_level, 1);
    assert_eq!((steps[0].width, steps[0].height), (20, 10));
    assert_eq!((steps[0].groups_x, steps[0].groups_y), (2, 1));
    assert_eq!(steps[0].descriptor_set, 5);
    for i in 1..steps.len() {
        assert_eq!(steps[i].source, PyramidSource::Level(steps[i - 1].target_level));
        assert_eq!(steps[i].descriptor_set, 5 + i);
    }
    assert_eq!((steps[4].width, steps[4].height), (1, 1));
    assert!(plan_depth_pyramid(0, 1, 1, 1).is_empty());
}

#[test]
fn bloom_levels_halve_the_scene() {
    let mips = bloom_mip_extents(1920, 1080);
    assert_eq!(mips.len(), BLOOM_MIP_COUNT);
    assert_eq!(mips, vec![(960, 540), (480, 270), (240, 135), (120, 67), (60, 33), (30, 16)]);
    let tiny = bloom_mip_extents(4, 100);
    assert_eq!(tiny, vec![(2, 50), (1, 25), (1, 12), (1, 6), (1, 3), (1, 1)]);
}

#[test]
fn bloom_downsamples_then_adds_back() {
    let mips = bloom_mip_extents(64, 32);
    let steps = plan_bloom(1, 64, 32, &mips);
    assert_eq!(steps.len(), 11);
    assert_eq!(
        steps[0],
        BloomStep {
            upsample: false,
            source: BloomSource::Scene,
            target: 0,
            descriptor_set: 6,
            source_width: 64,
            source_height: 32,
        }
    );
    assert_eq!(
        steps[1],
        BloomStep {
            upsample: false,
            source: BloomSource::Mip(0),
            target: 1,
            descriptor_set: 7,
            source_width: 32,
            source_height: 16,
        }
    );
    assert_eq!(
        steps[6],
        BloomStep { upsample: true, source: BloomSource::Mip(5), target: 4, descriptor_set: 11, source_width: 1, source_height: 1 }
    );
    assert_eq!(steps[10].target, 0);
    assert_eq!(steps[10].source, BloomSource::Mip(1));
    for s in &steps {
        assert!(6 <= s.descriptor_set && s.descriptor_set < 12);
    }
    let one = plan_bloom(0, 8, 8, &vec![(4, 4)]);
    assert_eq!(one.len(), 1);
}

#[test]
fn frames_cycle_through_slots() {
    let mut f = FrameManager::new();
    assert_eq!((f.current_frame, f.frame_index), (0, 0));
    assert!(f.is_eviction_frame());
    f.advance_frame();
    assert_eq!((f.current_frame, f.frame_index), (1, 1));
    assert_eq!(previous_frame(f.current_frame), 0);
    f.advance_frame();
    assert_eq!((f.current_frame, f.frame_index), (0, 2));
    assert_eq!(previous_frame(0), 1);
    assert_eq!(f.jitter_sequence_index(), 3);
    for _ in 0..98 {
        f.advance_frame();
    }
    assert_eq!(f.frame_index, 100);
    assert!(f.is_eviction_frame());
    assert_eq!(f.jitter_sequence_index(), 5);
}

#[test]
fn post_processing_pool_sizes() {
    let p = post_process_pool();
    assert_eq!((p.image_samplers, p.storage_buffers, p.max_sets, p.bloom_sets), (24, 2, 14, 12));
    assert_eq!(pyramid_descriptor_sets(11), 20);
    assert_eq!(pyramid_descriptor_sets(1), 0);
    assert_eq!(pyramid_descriptor_sets(0), 0);
}
