//! The passes the renderer sets up by default: their declarations, and how
//! they are wired into the render graph.
use vstd::prelude::*;

use crate::descriptors::ResourceBinding;
use crate::graph::GpuResourceAccess;
use crate::graph::PassView;
use crate::graph::RenderGraphPassNode;
use crate::graph::names_view;
use crate::graph::passes_view;
use crate::pyramid::group_count;
use crate::pyramid::groups_for;
use crate::vertex::VERTEX_STRIDE;
use crate::vulkan;

verus! {

/// The SPIR-V code of every shader the default passes use.
pub struct PassShaders {
    pub culling: Vec<u32>,
    pub hiz: Vec<u32>,
    pub cluster_build: Vec<u32>,
    pub cluster_cull: Vec<u32>,
    pub shadow_vert: Vec<u32>,
    pub shadow_frag: Vec<u32>,
    pub gbuffer_vert: Vec<u32>,
    pub gbuffer_frag: Vec<u32>,
    pub ssao_vert: Vec<u32>,
    pub ssao_frag: Vec<u32>,
    pub ssao_blur_frag: Vec<u32>,
    pub deferred_vert: Vec<u32>,
    pub deferred_frag: Vec<u32>,
    pub grid_vert: Vec<u32>,
    pub grid_frag: Vec<u32>,
    pub volumetric: Vec<u32>,
    pub taa_vert: Vec<u32>,
    pub taa_frag: Vec<u32>,
    pub fullscreen_vert: Vec<u32>,
    pub tonemap_frag: Vec<u32>,
    pub bloom_downsample: Vec<u32>,
    pub bloom_upsample: Vec<u32>,
    pub forward_vert: Vec<u32>,
    pub forward_frag: Vec<u32>,
    pub particle_comp: Vec<u32>,
    pub particle_vert: Vec<u32>,
    pub particle_frag: Vec<u32>,
    pub ssr_comp: Vec<u32>,
    pub sprite_vert: Vec<u32>,
    pub sprite_frag: Vec<u32>,
    pub luminance: Vec<u32>,
    pub dof: Vec<u32>,
    pub skinning: Vec<u32>,
    pub point_shadow_vert: Vec<u32>,
    pub point_shadow_frag: Vec<u32>,
    pub ssgi: Vec<u32>,
    pub rgen: Vec<u32>,
    pub rmiss: Vec<u32>,
    pub rchit: Vec<u32>,
}

/// An empty list of names.
pub fn no_names() -> (r: Vec<String>)
    ensures
        names_view(r@) == Seq::<Seq<char>>::empty(),
{
    let r: Vec<String> = Vec::new();
    assert(names_view(r@) =~= Seq::<Seq<char>>::empty());
    r
}

/// `list` with `name` appended.
pub fn with_name(list: Vec<String>, name: &str) -> (r: Vec<String>)
    ensures
        names_view(r@) == names_view(list@).push(name@),
{
    let mut r = list;
    r.push(name.to_owned());
    assert(names_view(r@) =~= names_view(list@).push(name@));
    r
}

/// A pass node with the given name, inputs, outputs and dependencies.
pub fn pass_node(name: &str, inputs: Vec<String>, outputs: Vec<String>, dependencies: Vec<String>) -> (r:
    RenderGraphPassNode)
    ensures
        r@ == (PassView {
            name: name@,
            inputs: names_view(inputs@),
            outputs: names_view(outputs@),
            dependencies: names_view(dependencies@),
        }),
{
    RenderGraphPassNode { name: name.to_owned(), inputs, outputs, dependencies }
}

/// The default passes in the order they are added to the graph, each with
/// the resources it is wired to read and write and the passes it declares
/// it must follow.
pub open spec fn default_graph() -> Seq<PassView> {
    seq![
        PassView {
            name: "HiZPass"@,
            inputs: Seq::<Seq<char>>::empty(),
            outputs: seq!["HiZ"@],
            dependencies: Seq::<Seq<char>>::empty(),
        },
        PassView {
            name: "ClusteredPass"@,
            inputs: Seq::<Seq<char>>::empty(),
            outputs: seq!["ClusteredData"@],
            dependencies: Seq::<Seq<char>>::empty(),
        },
        PassView {
            name: "CullingPass"@,
            inputs: seq!["HiZ"@],
            outputs: seq!["CullingData"@],
            dependencies: seq!["HiZPass"@],
        },
        PassView {
            name: "ShadowPass"@,
            inputs: Seq::<Seq<char>>::empty(),
            outputs: seq!["ShadowMap"@],
            dependencies: Seq::<Seq<char>>::empty(),
        },
        PassView {
            name: "GBufferPass"@,
            inputs: Seq::<Seq<char>>::empty(),
            outputs: seq!["GBuffer"@],
            dependencies: seq!["CullingPass"@],
        },
        PassView {
            name: "SSAOPass"@,
            inputs: seq!["GBuffer"@],
            outputs: seq!["SSAO"@],
            dependencies: Seq::<Seq<char>>::empty(),
        },
        PassView {
            name: "LightingPass"@,
            inputs: seq!["GBuffer"@, "ShadowMap"@, "ClusteredData"@, "SSAO"@],
            outputs: seq!["HDRColor"@],
            dependencies: seq!["GBufferPass"@, "SSAOPass"@, "ShadowPass"@, "ClusteredPass"@],
        },
        PassView {
            name: "GridPass"@,
            inputs: seq!["GBuffer"@],
            outputs: seq!["GridColor"@],
            dependencies: Seq::<Seq<char>>::empty(),
        },
        PassView {
            name: "VolumetricPass"@,
            inputs: seq!["ShadowMap"@, "ClusteredData"@],
            outputs: seq!["VolumetricColor"@],
            dependencies: Seq::<Seq<char>>::empty(),
        },
        PassView {
            name: "ForwardPass"@,
            inputs: seq!["GBuffer"@],
            outputs: seq!["ForwardColor"@],
            dependencies: Seq::<Seq<char>>::empty(),
        },
        PassView {
            name: "ParticlePass"@,
            inputs: seq!["GBuffer"@],
            outputs: seq!["ParticleColor"@],
            dependencies: Seq::<Seq<char>>::empty(),
        },
        PassView {
            name: "SSRPass"@,
            inputs: seq!["GBuffer"@, "HDRColor"@, "HiZ"@],
            outputs: seq!["SSR"@],
            dependencies: Seq::<Seq<char>>::empty(),
        },
        PassView {
            name: "LuminancePass"@,
            inputs: seq!["HDRColor"@],
            outputs: seq!["Luminance"@],
            dependencies: Seq::<Seq<char>>::empty(),
        },
        PassView {
            name: "TAAPass"@,
            inputs: seq!["HDRColor"@, "GBuffer"@],
            outputs: seq!["TAAColor"@],
            dependencies: Seq::<Seq<char>>::empty(),
        },
        PassView {
            name: "DoFPass"@,
            inputs: seq!["HDRColor"@, "GBuffer"@],
            outputs: seq!["DoF"@],
            dependencies: Seq::<Seq<char>>::empty(),
        },
        PassView {
            name: "PointShadowPass"@,
            inputs: Seq::<Seq<char>>::empty(),
            outputs: seq!["PointShadowMap"@],
            dependencies: Seq::<Seq<char>>::empty(),
        },
        PassView {
            name: "SSGIPass"@,
            inputs: seq!["GBuffer"@, "HDRColor"@],
            outputs: seq!["SSGI"@],
            dependencies: Seq::<Seq<char>>::empty(),
        },
        PassView {
            name: "AccelerationStructurePass"@,
            inputs: Seq::<Seq<char>>::empty(),
            outputs: seq!["SceneTLAS"@],
            dependencies: Seq::<Seq<char>>::empty(),
        },
        PassView {
            name: "RayTracingPass"@,
            inputs: seq!["GBufferDepth"@, "GBufferNormal"@, "GBufferPBR"@, "HiZ"@, "SceneTLAS"@],
            outputs: seq!["RTOutput"@],
            dependencies: Seq::<Seq<char>>::empty(),
        },
        PassView {
            name: "SpritePass"@,
            inputs: seq!["GBuffer"@],
            outputs: seq!["SpriteColor"@],
            dependencies: Seq::<Seq<char>>::empty(),
        },
        PassView {
            name: "PostProcessPass"@,
            inputs: seq!["TAAColor"@, "SpriteColor"@, "Luminance"@, "DoF"@, "SSGI"@, "RTOutput"@],
            outputs: seq!["FinalColor"@],
            dependencies: seq!["LightingPass"@, "TAAPass"@, "VolumetricPass"@, "SpritePass"@, "RayTracingPass"@],
        }
    ]
}

/// The nodes of the default render graph.
pub fn default_pass_nodes() -> (r: Vec<RenderGraphPassNode>)
    ensures
        passes_view(r@) == default_graph(),
{
    let mut nodes: Vec<RenderGraphPassNode> = Vec::new();
    nodes.push(pass_node("HiZPass", no_names(), with_name(no_names(), "HiZ"), no_names()));
    assert(nodes@[0]@.inputs == default_graph()[0].inputs);
    assert(nodes@[0]@.outputs == default_graph()[0].outputs);
    assert(nodes@[0]@.dependencies == default_graph()[0].dependencies);
    assert(nodes@[0]@ == default_graph()[0]);
    nodes.push(pass_node("ClusteredPass", no_names(), with_name(no_names(), "ClusteredData"), no_names()));
    assert(nodes@[1]@.inputs == default_graph()[1].inputs);
    assert(nodes@[1]@.outputs == default_graph()[1].outputs);
    assert(nodes@[1]@.dependencies == default_graph()[1].dependencies);
    assert(nodes@[1]@ == default_graph()[1]);
    nodes.push(pass_node("CullingPass", with_name(no_names(), "HiZ"), with_name(no_names(), "CullingData"), with_name(no_names(), "HiZPass")));
    assert(nodes@[2]@.inputs == default_graph()[2].inputs);
    assert(nodes@[2]@.outputs == default_graph()[2].outputs);
    assert(nodes@[2]@.dependencies == default_graph()[2].dependencies);
    assert(nodes@[2]@ == default_graph()[2]);
    nodes.push(pass_node("ShadowPass", no_names(), with_name(no_names(), "ShadowMap"), no_names()));
    assert(nodes@[3]@.inputs == default_graph()[3].inputs);
    assert(nodes@[3]@.outputs == default_graph()[3].outputs);
    assert(nodes@[3]@.dependencies == default_graph()[3].dependencies);
    assert(nodes@[3]@ == default_graph()[3]);
    nodes.push(pass_node("GBufferPass", no_names(), with_name(no_names(), "GBuffer"), with_name(no_names(), "CullingPass")));
    assert(nodes@[4]@.inputs == default_graph()[4].inputs);
    assert(nodes@[4]@.outputs == default_graph()[4].outputs);
    assert(nodes@[4]@.dependencies == default_graph()[4].dependencies);
    assert(nodes@[4]@ == default_graph()[4]);
    nodes.push(pass_node("SSAOPass", with_name(no_names(), "GBuffer"), with_name(no_names(), "SSAO"), no_names()));
    assert(nodes@[5]@.inputs == default_graph()[5].inputs);
    assert(nodes@[5]@.outputs == default_graph()[5].outputs);
    assert(nodes@[5]@.dependencies == default_graph()[5].dependencies);
    assert(nodes@[5]@ == default_graph()[5]);
    nodes.push(pass_node("LightingPass", with_name(with_name(with_name(with_name(no_names(), "GBuffer"), "ShadowMap"), "ClusteredData"), "SSAO"), with_name(no_names(), "HDRColor"), with_name(with_name(with_name(with_name(no_names(), "GBufferPass"), "SSAOPass"), "ShadowPass"), "ClusteredPass")));
    assert(nodes@[6]@.inputs == default_graph()[6].inputs);
    assert(nodes@[6]@.outputs == default_graph()[6].outputs);
    assert(nodes@[6]@.dependencies == default_graph()[6].dependencies);
    assert(nodes@[6]@ == default_graph()[6]);
    nodes.push(pass_node("GridPass", with_name(no_names(), "GBuffer"), with_name(no_names(), "GridColor"), no_names()));
    assert(nodes@[7]@.inputs == default_graph()[7].inputs);
    assert(nodes@[7]@.outputs == default_graph()[7].outputs);
    assert(nodes@[7]@.dependencies == default_graph()[7].dependencies);
    assert(nodes@[7]@ == default_graph()[7]);
    nodes.push(pass_node("VolumetricPass", with_name(with_name(no_names(), "ShadowMap"), "ClusteredData"), with_name(no_names(), "VolumetricColor"), no_names()));
    assert(nodes@[8]@.inputs == default_graph()[8].inputs);
    assert(nodes@[8]@.outputs == default_graph()[8].outputs);
    assert(nodes@[8]@.dependencies == default_graph()[8].dependencies);
    assert(nodes@[8]@ == default_graph()[8]);
    nodes.push(pass_node("ForwardPass", with_name(no_names(), "GBuffer"), with_name(no_names(), "ForwardColor"), no_names()));
    assert(nodes@[9]@.inputs == default_graph()[9].inputs);
    assert(nodes@[9]@.outputs == default_graph()[9].outputs);
    assert(nodes@[9]@.dependencies == default_graph()[9].dependencies);
    assert(nodes@[9]@ == default_graph()[9]);
    nodes.push(pass_node("ParticlePass", with_name(no_names(), "GBuffer"), with_name(no_names(), "ParticleColor"), no_names()));
    assert(nodes@[10]@.inputs == default_graph()[10].inputs);
    assert(nodes@[10]@.outputs == default_graph()[10].outputs);
    assert(nodes@[10]@.dependencies == default_graph()[10].dependencies);
    assert(nodes@[10]@ == default_graph()[10]);
    nodes.push(pass_node("SSRPass", with_name(with_name(with_name(no_names(), "GBuffer"), "HDRColor"), "HiZ"), with_name(no_names(), "SSR"), no_names()));
    assert(nodes@[11]@.inputs == default_graph()[11].inputs);
    assert(nodes@[11]@.outputs == default_graph()[11].outputs);
    assert(nodes@[11]@.dependencies == default_graph()[11].dependencies);
    assert(nodes@[11]@ == default_graph()[11]);
    nodes.push(pass_node("LuminancePass", with_name(no_names(), "HDRColor"), with_name(no_names(), "Luminance"), no_names()));
    assert(nodes@[12]@.inputs == default_graph()[12].inputs);
    assert(nodes@[12]@.outputs == default_graph()[12].outputs);
    assert(nodes@[12]@.dependencies == default_graph()[12].dependencies);
    assert(nodes@[12]@ == default_graph()[12]);
    nodes.push(pass_node("TAAPass", with_name(with_name(no_names(), "HDRColor"), "GBuffer"), with_name(no_names(), "TAAColor"), no_names()));
    assert(nodes@[13]@.inputs == default_graph()[13].inputs);
    assert(nodes@[13]@.outputs == default_graph()[13].outputs);
    assert(nodes@[13]@.dependencies == default_graph()[13].dependencies);
    assert(nodes@[13]@ == default_graph()[13]);
    nodes.push(pass_node("DoFPass", with_name(with_name(no_names(), "HDRColor"), "GBuffer"), with_name(no_names(), "DoF"), no_names()));
    assert(nodes@[14]@.inputs == default_graph()[14].inputs);
    assert(nodes@[14]@.outputs == default_graph()[14].outputs);
    assert(nodes@[14]@.dependencies == default_graph()[14].dependencies);
    assert(nodes@[14]@ == default_graph()[14]);
    nodes.push(pass_node("PointShadowPass", no_names(), with_name(no_names(), "PointShadowMap"), no_names()));
    assert(nodes@[15]@.inputs == default_graph()[15].inputs);
    assert(nodes@[15]@.outputs == default_graph()[15].outputs);
    assert(nodes@[15]@.dependencies == default_graph()[15].dependencies);
    assert(nodes@[15]@ == default_graph()[15]);
    nodes.push(pass_node("SSGIPass", with_name(with_name(no_names(), "GBuffer"), "HDRColor"), with_name(no_names(), "SSGI"), no_names()));
    assert(nodes@[16]@.inputs == default_graph()[16].inputs);
    assert(nodes@[16]@.outputs == default_graph()[16].outputs);
    assert(nodes@[16]@.dependencies == default_graph()[16].dependencies);
    assert(nodes@[16]@ == default_graph()[16]);
    nodes.push(pass_node("AccelerationStructurePass", no_names(), with_name(no_names(), "SceneTLAS"), no_names()));
    assert(nodes@[17]@.inputs == default_graph()[17].inputs);
    assert(nodes@[17]@.outputs == default_graph()[17].outputs);
    assert(nodes@[17]@.dependencies == default_graph()[17].dependencies);
    assert(nodes@[17]@ == default_graph()[17]);
    nodes.push(pass_node("RayTracingPass", with_name(with_name(with_name(with_name(with_name(no_names(), "GBufferDepth"), "GBufferNormal"), "GBufferPBR"), "HiZ"), "SceneTLAS"), with_name(no_names(), "RTOutput"), no_names()));
    assert(nodes@[18]@.inputs == default_graph()[18].inputs);
    assert(nodes@[18]@.outputs == default_graph()[18].outputs);
    assert(nodes@[18]@.dependencies == default_graph()[18].dependencies);
    assert(nodes@[18]@ == default_graph()[18]);
    nodes.push(pass_node("SpritePass", with_name(no_names(), "GBuffer"), with_name(no_names(), "SpriteColor"), no_names()));
    assert(nodes@[19]@.inputs == default_graph()[19].inputs);
    assert(nodes@[19]@.outputs == default_graph()[19].outputs);
    assert(nodes@[19]@.dependencies == default_graph()[19].dependencies);
    assert(nodes@[19]@ == default_graph()[19]);
    nodes.push(pass_node("PostProcessPass", with_name(with_name(with_name(with_name(with_name(with_name(no_names(), "TAAColor"), "SpriteColor"), "Luminance"), "DoF"), "SSGI"), "RTOutput"), with_name(no_names(), "FinalColor"), with_name(with_name(with_name(with_name(with_name(no_names(), "LightingPass"), "TAAPass"), "VolumetricPass"), "SpritePass"), "RayTracingPass")));
    assert(nodes@[20]@.inputs == default_graph()[20].inputs);
    assert(nodes@[20]@.outputs == default_graph()[20].outputs);
    assert(nodes@[20]@.dependencies == default_graph()[20].dependencies);
    assert(nodes@[20]@ == default_graph()[20]);
    assert(passes_view(nodes@) =~= default_graph());
    nodes
}

/// The pass that fills the geometry buffer.
pub struct GBufferPass {}

impl GBufferPass {
    /// A geometry buffer pass.
    pub fn new() -> (r: Self)
        ensures
            r == (GBufferPass {}),
    {
        GBufferPass {}
    }

    /// The pass's name in the graph.
    pub fn name(&self) -> (r: String)
        ensures
            r@ == "GBufferPass"@,
    {
        "GBufferPass".to_owned()
    }

    /// The attachments the pass writes.
    pub fn outputs(&self) -> (r: Vec<String>)
        ensures
            names_view(r@) == seq!["GBufferAlbedo"@, "GBufferNormal"@, "GBufferPBR"@, "GBufferVelocity"@, "GBufferDepth"@],
    {
        with_name(with_name(with_name(with_name(with_name(no_names(), "GBufferAlbedo"), "GBufferNormal"), "GBufferPBR"), "GBufferVelocity"), "GBufferDepth")
    }

    /// The passes that must run first: culling decides what is drawn.
    pub fn dependencies(&self) -> (r: Vec<String>)
        ensures
            names_view(r@) == seq!["CullingPass"@],
    {
        with_name(no_names(), "CullingPass")
    }

    /// How the pass touches its attachments: it writes the four color
    /// targets as color attachments and the depth target in the fragment
    /// tests.
    pub fn gpu_resource_access(&self) -> (r: Vec<GpuResourceAccess>)
        ensures
            r.len() == 5,
            r[0].resource_name@ == "GBufferAlbedo"@,
            r[1].resource_name@ == "GBufferNormal"@,
            r[2].resource_name@ == "GBufferPBR"@,
            r[3].resource_name@ == "GBufferVelocity"@,
            r[4].resource_name@ == "GBufferDepth"@,
            forall|i: int|
                0 <= i < 4 ==> (#[trigger] r[i]).access_flags == vulkan::ACCESS_COLOR_ATTACHMENT_WRITE && r[i].stage_flags
                    == vulkan::STAGE_COLOR_ATTACHMENT_OUTPUT,
            r[4].access_flags == vulkan::ACCESS_DEPTH_STENCIL_ATTACHMENT_WRITE,
            r[4].stage_flags == vulkan::STAGE_EARLY_FRAGMENT_TESTS | vulkan::STAGE_LATE_FRAGMENT_TESTS,
    {
        let mut r: Vec<GpuResourceAccess> = Vec::new();
        r.push(GpuResourceAccess { resource_name: "GBufferAlbedo".to_owned(), access_flags: vulkan::ACCESS_COLOR_ATTACHMENT_WRITE, stage_flags: vulkan::STAGE_COLOR_ATTACHMENT_OUTPUT });
        r.push(GpuResourceAccess { resource_name: "GBufferNormal".to_owned(), access_flags: vulkan::ACCESS_COLOR_ATTACHMENT_WRITE, stage_flags: vulkan::STAGE_COLOR_ATTACHMENT_OUTPUT });
        r.push(GpuResourceAccess { resource_name: "GBufferPBR".to_owned(), access_flags: vulkan::ACCESS_COLOR_ATTACHMENT_WRITE, stage_flags: vulkan::STAGE_COLOR_ATTACHMENT_OUTPUT });
        r.push(GpuResourceAccess { resource_name: "GBufferVelocity".to_owned(), access_flags: vulkan::ACCESS_COLOR_ATTACHMENT_WRITE, stage_flags: vulkan::STAGE_COLOR_ATTACHMENT_OUTPUT });
        r.push(GpuResourceAccess { resource_name: "GBufferDepth".to_owned(), access_flags: vulkan::ACCESS_DEPTH_STENCIL_ATTACHMENT_WRITE, stage_flags: vulkan::STAGE_EARLY_FRAGMENT_TESTS | vulkan::STAGE_LATE_FRAGMENT_TESTS });
        r
    }
}

/// The pass that builds the scene's ray tracing acceleration structures.
pub struct AccelerationStructurePass {
    /// Bytes between consecutive vertices of the global vertex buffer.
    pub vertex_stride: u64,
}

impl AccelerationStructurePass {
    /// The pass, reading vertices of the renderer's packed layout.
    pub fn new() -> (r: Self)
        ensures
            r.vertex_stride == VERTEX_STRIDE,
    {
        AccelerationStructurePass { vertex_stride: VERTEX_STRIDE as u64 }
    }

    /// The pass's name in the graph.
    pub fn name(&self) -> (r: String)
        ensures
            r@ == "AccelerationStructurePass"@,
    {
        "AccelerationStructurePass".to_owned()
    }

    /// The resource the pass produces: the scene's top-level structure.
    pub fn outputs(&self) -> (r: Vec<String>)
        ensures
            names_view(r@) == seq!["SceneTLAS"@],
    {
        with_name(no_names(), "SceneTLAS")
    }

    /// The pass writes the top-level structure in the build stage.
    pub fn gpu_resource_access(&self) -> (r: Vec<GpuResourceAccess>)
        ensures
            r.len() == 1,
            r[0].resource_name@ == "SceneTLAS"@,
            r[0].access_flags == vulkan::ACCESS_ACCELERATION_STRUCTURE_WRITE,
            r[0].stage_flags == vulkan::STAGE_ACCELERATION_STRUCTURE_BUILD,
    {
        let mut r: Vec<GpuResourceAccess> = Vec::new();
        r.push(GpuResourceAccess { resource_name: "SceneTLAS".to_owned(), access_flags: vulkan::ACCESS_ACCELERATION_STRUCTURE_WRITE, stage_flags: vulkan::STAGE_ACCELERATION_STRUCTURE_BUILD });
        r
    }

    /// What the pass does this frame: build the top-level structure when
    /// ray tracing is supported, there is a frame with opaque meshes, and the
    /// global vertex and index buffers exist; and, when it builds, also evict
    /// unused bottom-level structures every hundredth frame.
    pub fn frame_work(
        &self,
        rt_supported: bool,
        opaque_meshes: Option<usize>,
        buffers_ready: bool,
        frame_id: u64,
    ) -> (r: (bool, bool))
        ensures
            r.0 == (rt_supported && (match opaque_meshes {
                Some(n) => n > 0,
                None => false,
            }) && buffers_ready),
            r.1 == (r.0 && frame_id % 100 == 0),
    {
        let build = rt_supported && match opaque_meshes {
            Some(n) => n > 0,
            None => false,
        } && buffers_ready;
        (build, build && frame_id % 100 == 0)
    }
}

/// How the geometry pass draws the frame's objects.
#[derive(Clone, Copy, Debug, PartialEq, Eq, Structural)]
pub enum IndirectDraw {
    /// No indirect command buffer yet: nothing is drawn.
    Skip,
    /// Draw `draws` commands from the indirect buffer.
    Indirect { draws: u32 },
    /// Draw as many commands as the count buffer says, at most `max_draws`.
    IndirectCount { max_draws: u32 },
}

impl GBufferPass {
    /// The attachments the pass renders colors into, in attachment order:
    /// the first four of its outputs; the fifth, depth, is cleared to 1.
    pub fn color_attachments(&self) -> (r: Vec<String>)
        ensures
            names_view(r@) == seq!["GBufferAlbedo"@, "GBufferNormal"@, "GBufferPBR"@, "GBufferVelocity"@],
    {
        with_name(with_name(with_name(with_name(no_names(), "GBufferAlbedo"), "GBufferNormal"), "GBufferPBR"), "GBufferVelocity")
    }

    /// How to draw `object_count` objects: only with an indirect command
    /// buffer, and through the count the culling pass wrote when there is a
    /// count buffer. Every object drawn counts as one draw call.
    pub fn draw_mode(&self, has_indirect_buffer: bool, has_count_buffer: bool, object_count: u32) -> (r: (
        IndirectDraw,
        u32,
    ))
        ensures
            r.0 == if !has_indirect_buffer {
                IndirectDraw::Skip
            } else if has_count_buffer {
                IndirectDraw::IndirectCount { max_draws: object_count }
            } else {
                IndirectDraw::Indirect { draws: object_count }
            },
            r.1 == if has_indirect_buffer {
                object_count
            } else {
                0
            },
    {
        if !has_indirect_buffer {
            (IndirectDraw::Skip, 0)
        } else if has_count_buffer {
            (IndirectDraw::IndirectCount { max_draws: object_count }, object_count)
        } else {
            (IndirectDraw::Indirect { draws: object_count }, object_count)
        }
    }
}

/// Objects one culling work group tests.
pub const CULLING_GROUP_SIZE: u32 = 256;

/// The work groups of the culling dispatch: one thread per object.
pub fn culling_groups(object_count: u32) -> (r: u32)
    ensures
        r == groups_for(object_count as nat, CULLING_GROUP_SIZE as nat),
        r * CULLING_GROUP_SIZE >= object_count,
{
    let r = group_count(object_count, CULLING_GROUP_SIZE);
    assert(r * 256 >= object_count) by (nonlinear_arith)
        requires
            r == (object_count + 255) / 256,
    ;
    r
}

/// Clusters along the screen's width, height and depth.
pub const CLUSTER_GRID_X: u32 = 16;
pub const CLUSTER_GRID_Y: u32 = 9;
pub const CLUSTER_GRID_Z: u32 = 24;

/// All clusters of the grid.
pub const TOTAL_CLUSTERS: u32 = CLUSTER_GRID_X * CLUSTER_GRID_Y * CLUSTER_GRID_Z;

/// The most lights one cluster lists.
pub const MAX_LIGHTS_PER_CLUSTER: u32 = 128;

/// Bytes of one cluster's bounding box: two four-float corners.
pub const CLUSTER_AABB_SIZE: u64 = 32;

/// Bytes of one cluster's light-list slice: offset and count.
pub const LIGHT_GRID_SIZE: u64 = 8;

/// The sizes of the clustered lighting buffers.
#[derive(Clone, Copy, Debug, PartialEq, Eq, Structural)]
pub struct ClusterBufferSizes {
    pub bounds: u64,
    pub light_grid: u64,
    pub light_indices: u64,
    pub counter: u64,
}

/// The clustered lighting buffers: a box and a list slice per cluster, room
/// for the most lights in every cluster as 32-bit indices, and one 32-bit
/// counter.
pub fn cluster_buffer_sizes() -> (r: ClusterBufferSizes)
    ensures
        r.bounds == TOTAL_CLUSTERS * CLUSTER_AABB_SIZE,
        r.light_grid == TOTAL_CLUSTERS * LIGHT_GRID_SIZE,
        r.light_indices == TOTAL_CLUSTERS * MAX_LIGHTS_PER_CLUSTER * 4,
        r.counter == 4,
{
    let clusters = TOTAL_CLUSTERS as u64;
    ClusterBufferSizes {
        bounds: clusters * CLUSTER_AABB_SIZE,
        light_grid: clusters * LIGHT_GRID_SIZE,
        light_indices: clusters * (MAX_LIGHTS_PER_CLUSTER as u64) * 4,
        counter: 4,
    }
}

} // verus!

verus! {

/// The bindings of the deferred lighting pass's descriptor set, numbered 0
/// to 10: the G-buffer's albedo, normal, PBR and depth targets as input
/// attachments; the shadow map; the light and object-data buffers; then the
/// SSAO target, the irradiance and specular environment maps and the BRDF
/// lookup table, all sampled.
pub fn deferred_lighting_bindings() -> (r: Vec<ResourceBinding>)
    ensures
        r@.len() == 11,
        forall|i: int| 0 <= i < 11 ==> (#[trigger] r@[i]).index_spec() == i,
        forall|i: int| 0 <= i < 4 ==> #[trigger] r@[i] is InputAttachment,
        forall|i: int| 4 <= i < 11 && i != 5 && i != 6 ==> #[trigger] r@[i] is SampledImage,
        r@[5] is StorageBuffer,
        r@[6] is StorageBuffer,
        r@[0].name_spec() == "Albedo"@,
        r@[1].name_spec() == "Normal"@,
        r@[2].name_spec() == "PBR"@,
        r@[3].name_spec() == "Depth"@,
        r@[4].name_spec() == "ShadowMap"@,
        r@[5].name_spec() == "light_buffer"@,
        r@[6].name_spec() == "object_data_buffer"@,
        r@[7].name_spec() == "SSAO"@,
        r@[8].name_spec() == "Irradiance"@,
        r@[9].name_spec() == "Specular"@,
        r@[10].name_spec() == "BRDFLut"@,
{
    let mut r: Vec<ResourceBinding> = Vec::new();
    r.push(ResourceBinding::InputAttachment(0, "Albedo".to_owned()));
    r.push(ResourceBinding::InputAttachment(1, "Normal".to_owned()));
    r.push(ResourceBinding::InputAttachment(2, "PBR".to_owned()));
    r.push(ResourceBinding::InputAttachment(3, "Depth".to_owned()));
    r.push(ResourceBinding::SampledImage(4, "ShadowMap".to_owned()));
    r.push(ResourceBinding::StorageBuffer(5, "light_buffer".to_owned()));
    r.push(ResourceBinding::StorageBuffer(6, "object_data_buffer".to_owned()));
    r.push(ResourceBinding::SampledImage(7, "SSAO".to_owned()));
    r.push(ResourceBinding::SampledImage(8, "Irradiance".to_owned()));
    r.push(ResourceBinding::SampledImage(9, "Specular".to_owned()));
    r.push(ResourceBinding::SampledImage(10, "BRDFLut".to_owned()));
    r
}

/// Which of the deferred lighting bindings have their buffer this frame:
/// every binding but the light buffer (`has_lights`) and the object-data
/// buffer (`has_objects`), which are written only when they exist.
pub fn deferred_buffers_available(has_lights: bool, has_objects: bool) -> (r: Vec<bool>)
    ensures
        r@.len() == 11,
        r@[5] == has_lights,
        r@[6] == has_objects,
        forall|i: int| 0 <= i < 11 && i != 5 && i != 6 ==> #[trigger] r@[i],
{
    let mut r: Vec<bool> = Vec::new();
    let mut i: usize = 0;
    while i < 11
        invariant
            i <= 11,
            r@.len() == i,
            i > 5 ==> r@[5] == has_lights,
            i > 6 ==> r@[6] == has_objects,
            forall|q: int| 0 <= q < i && q != 5 && q != 6 ==> #[trigger] r@[q],
        decreases 11 - i,
    {
        if i == 5 {
            r.push(has_lights);
        } else if i == 6 {
            r.push(has_objects);
        } else {
            r.push(true);
        }
        i += 1;
    }
    r
}

} // verus!
