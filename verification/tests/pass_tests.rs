use spark_renderer::descriptors::plan_descriptor_writes;
use spark_renderer::descriptors::DescriptorWrite;
use spark_renderer::descriptors::WriteSource;
use spark_renderer::passes::cluster_buffer_sizes;
use spark_renderer::passes::deferred_buffers_available;
use spark_renderer::passes::deferred_lighting_bindings;
use spark_renderer::passes::culling_groups;
use spark_renderer::passes::default_pass_nodes;
use spark_renderer::passes::GBufferPass;
use spark_renderer::passes::IndirectDraw;
use spark_renderer::passes::PassShaders;
use spark_renderer::passes::TOTAL_CLUSTERS;
use spark_renderer::vertex::pack_rgba8_opaque;
use spark_renderer::vertex::pack_unorm_10_10_10;
use spark_renderer::vertex::pack_unorm_16_16;
use spark_renderer::vertex::vertex_attributes;
use spark_renderer::vertex::VERTEX_STRIDE;
use spark_renderer::vulkan;

#[test]
fn gbuffer_pass_declaration() {
    let p = GBufferPass::new();
    assert_eq!(p.name(), "GBufferPass");
    assert_eq!(p.outputs(), vec!["GBufferAlbedo", "GBufferNormal", "GBufferPBR", "GBufferVelocity", "GBufferDepth"]);
    assert_eq!(p.dependencies(), vec!["CullingPass"]);
    assert_eq!(p.color_attachments(), vec!["GBufferAlbedo", "GBufferNormal", "GBufferPBR", "GBufferVelocity"]);
    let access = p.gpu_resource_access();
    assert_eq!(access.len(), 5);
    assert_eq!(access[4].resource_name, "GBufferDepth");
    assert_eq!(access[4].access_flags, vulkan::ACCESS_DEPTH_STENCIL_ATTACHMENT_WRITE);
    assert_eq!(access[0].stage_flags, vulkan::STAGE_COLOR_ATTACHMENT_OUTPUT);
}

#[test]
fn gbuffer_draw_modes() {
    let p = GBufferPass::new();
    assert_eq!(p.draw_mode(false, true, 7), (IndirectDraw::Skip, 0));
    assert_eq!(p.draw_mode(true, true, 7), (IndirectDraw::IndirectCount { max_draws: 7 }, 7));
    assert_eq!(p.draw_mode(true, false, 7), (IndirectDraw::Indirect { draws: 7 }, 7));
}

#[test]
fn default_graph_wiring() {
    let nodes = default_pass_nodes();
    assert_eq!(nodes.len(), 21);
    assert_eq!(nodes[0].name, "HiZPass");
    assert_eq!(nodes[6].name, "LightingPass");
    assert_eq!(nodes[6].inputs, vec!["GBuffer", "ShadowMap", "ClusteredData", "SSAO"]);
    assert_eq!(nodes[6].dependencies, vec!["GBufferPass", "SSAOPass", "ShadowPass", "ClusteredPass"]);
    assert_eq!(nodes[20].name, "PostProcessPass");
    assert_eq!(nodes[20].outputs, vec!["FinalColor"]);
}

#[test]
fn shader_set_holds_code() {
    let empty: Vec<u32> = Vec::new();
    let s = PassShaders {
        culling: vec![1],
        hiz: empty.clone(),
        cluster_build: empty.clone(),
        cluster_cull: empty.clone(),
        shadow_vert: empty.clone(),
        shadow_frag: empty.clone(),
        gbuffer_vert: empty.clone(),
        gbuffer_frag: empty.clone(),
        ssao_vert: empty.clone(),
        ssao_frag: empty.clone(),
        ssao_blur_frag: empty.clone(),
        deferred_vert: empty.clone(),
        deferred_frag: empty.clone(),
        grid_vert: empty.clone(),
        grid_frag: empty.clone(),
        volumetric: empty.clone(),
        taa_vert: empty.clone(),
        taa_frag: empty.clone(),
        fullscreen_vert: empty.clone(),
        tonemap_frag: empty.clone(),
        bloom_downsample: empty.clone(),
        bloom_upsample: empty.clone(),
        forward_vert: empty.clone(),
        forward_frag: empty.clone(),
        particle_comp: empty.clone(),
        particle_vert: empty.clone(),
        particle_frag: empty.clone(),
        ssr_comp: empty.clone(),
        sprite_vert: empty.clone(),
        sprite_frag: empty.clone(),
        luminance: empty.clone(),
        dof: empty.clone(),
        skinning: empty.clone(),
        point_shadow_vert: empty.clone(),
        point_shadow_frag: empty.clone(),
        ssgi: empty.clone(),
        rgen: empty.clone(),
        rmiss: empty.clone(),
        rchit: empty,
    };
    assert_eq!(s.culling, vec![1]);
}

#[test]
fn culling_dispatch_covers_objects() {
    assert_eq!(culling_groups(0), 0);
    assert_eq!(culling_groups(1), 1);
    assert_eq!(culling_groups(256), 1);
    assert_eq!(culling_groups(257), 2);
}

#[test]
fn cluster_buffers() {
    assert_eq!(TOTAL_CLUSTERS, 3456);
    let s = cluster_buffer_sizes();
    assert_eq!(s.bounds, 3456 * 32);
    assert_eq!(s.light_grid, 3456 * 8);
    assert_eq!(s.light_indices, 3456 * 128 * 4);
    assert_eq!(s.counter, 4);
}

#[test]
fn packed_normals_unpack() {
    let p = pack_unorm_10_10_10(1023, 511, 0);
    assert_eq!(p, 1023 | (511 << 10));
    assert_eq!(p & 0x3ff, 1023);
    assert_eq!((p >> 10) & 0x3ff, 511);
    assert_eq!((p >> 20) & 0x3ff, 0);
    assert_eq!(pack_unorm_10_10_10(0, 0, 1023) >> 20, 1023);
}

#[test]
fn packed_tex_coords_keep_low_bits() {
    assert_eq!(pack_unorm_16_16(65535, 1), 0x0001_ffff);
    assert_eq!(pack_unorm_16_16(0x1_0005, 0x2_0003), 0x0003_0005);
}

#[test]
fn packed_colors_are_opaque() {
    assert_eq!(pack_rgba8_opaque(255, 128, 0), 0xff00_80ff);
    assert_eq!(pack_rgba8_opaque(0x1ff, 0, 0x100), 0xff00_00ff);
}

#[test]
fn vertex_layout() {
    assert_eq!(VERTEX_STRIDE, 32);
    let attrs = vertex_attributes();
    assert_eq!(attrs.len(), 5);
    let offsets: Vec<u32> = attrs.iter().map(|a| a.offset).collect();
    assert_eq!(offsets, vec![0, 16, 20, 24, 28]);
    assert_eq!(attrs[2].format, vulkan::FORMAT_R16G16_UNORM);
    assert!(attrs.iter().enumerate().all(|(i, a)| a.location == i as u32 && a.binding == 0));
}

#[test]
fn deferred_lighting_writes_skip_missing_buffers() {
    let bindings = deferred_lighting_bindings();
    assert_eq!(bindings.len(), 11);
    let all = plan_descriptor_writes(&bindings, &deferred_buffers_available(true, true), false);
    assert_eq!(all.len(), 11);
    let numbers: Vec<u32> = all.iter().map(|w| w.binding).collect();
    assert_eq!(numbers, (0..11).collect::<Vec<u32>>());
    assert_eq!(all[0].descriptor_type, vulkan::DESCRIPTOR_INPUT_ATTACHMENT);
    assert_eq!(all[4].descriptor_type, vulkan::DESCRIPTOR_COMBINED_IMAGE_SAMPLER);
    assert_eq!(all[6], DescriptorWrite {
        binding: 6,
        descriptor_type: vulkan::DESCRIPTOR_STORAGE_BUFFER,
        source: WriteSource::Buffer { info: 1 },
    });
    let no_lights = plan_descriptor_writes(&bindings, &deferred_buffers_available(false, true), false);
    let numbers: Vec<u32> = no_lights.iter().map(|w| w.binding).collect();
    assert_eq!(numbers, vec![0, 1, 2, 3, 4, 6, 7, 8, 9, 10]);
    assert_eq!(no_lights[5].source, WriteSource::Buffer { info: 0 });
    let neither = plan_descriptor_writes(&bindings, &deferred_buffers_available(false, false), false);
    assert_eq!(neither.len(), 9);
}
