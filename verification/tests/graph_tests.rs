use spark_renderer::graph::determine_layout;
use spark_renderer::graph::plan_transient_resources;
use spark_renderer::graph::resolve_resource_specs;
use spark_renderer::graph::GraphAttachment;
use spark_renderer::graph::GraphError;
use spark_renderer::graph::ImageSpec;
use spark_renderer::graph::RenderGraph;
use spark_renderer::graph::RenderGraphPassNode;
use spark_renderer::graph::ResourceLifetime;
use spark_renderer::graph::ResourceType;
use spark_renderer::passes::default_pass_nodes;
use spark_renderer::vulkan;

fn node(name: &str, inputs: &[&str], outputs: &[&str], deps: &[&str]) -> RenderGraphPassNode {
    RenderGraphPassNode {
        name: name.to_string(),
        inputs: inputs.iter().map(|s| s.to_string()).collect(),
        outputs: outputs.iter().map(|s| s.to_string()).collect(),
        dependencies: deps.iter().map(|s| s.to_string()).collect(),
    }
}

fn position(g: &RenderGraph, name: &str) -> usize {
    g.sorted_passes
        .iter()
        .position(|&p| g.passes[p].name == name)
        .expect("pass missing from the order")
}

#[test]
fn default_graph_sorts_producers_first() {
    let mut g = RenderGraph::new();
    for n in default_pass_nodes() {
        g.add_pass(n);
    }
    assert_eq!(g.passes.len(), 21);
    assert_eq!(g.find_circular_dependency(), Ok(()));
    g.sort_passes();
    assert_eq!(g.sorted_passes.len(), 21);
    assert!(position(&g, "HiZPass") < position(&g, "CullingPass"));
    assert!(position(&g, "CullingPass") < position(&g, "GBufferPass"));
    for dep in ["GBufferPass", "SSAOPass", "ShadowPass", "ClusteredPass"] {
        assert!(position(&g, dep) < position(&g, "LightingPass"));
    }
    for dep in ["LightingPass", "TAAPass", "VolumetricPass", "SpritePass", "RayTracingPass"] {
        assert!(position(&g, dep) < position(&g, "PostProcessPass"));
    }
    assert!(position(&g, "AccelerationStructurePass") < position(&g, "RayTracingPass"));
    assert!(position(&g, "LightingPass") < position(&g, "TAAPass"));
}

#[test]
fn reads_run_after_their_producer() {
    let mut g = RenderGraph::new();
    g.add_pass(node("Consumer", &["Color"], &["Final"], &[]));
    g.add_pass(node("Producer", &[], &["Color"], &[]));
    assert_eq!(g.find_circular_dependency(), Ok(()));
    g.sort_passes();
    assert_eq!(g.sorted_passes, vec![1, 0]);
}

#[test]
fn circular_dependency_is_reported() {
    let mut g = RenderGraph::new();
    g.add_pass(node("A", &[], &["X"], &["B"]));
    g.add_pass(node("B", &["X"], &["Y"], &[]));
    let r = g.find_circular_dependency();
    assert!(matches!(r, Err(GraphError::CircularDependency(c)) if c < 2));
    assert!(g.sorted_passes.is_empty());
}

#[test]
fn self_dependency_is_a_cycle() {
    let mut g = RenderGraph::new();
    g.add_pass(node("Loop", &["L"], &["L"], &[]));
    assert_eq!(g.find_circular_dependency(), Err(GraphError::CircularDependency(0)));
}

#[test]
fn lifetimes_span_first_to_last_use() {
    let mut g = RenderGraph::new();
    g.add_pass(node("A", &[], &["T"], &[]));
    g.add_pass(node("B", &["T"], &["U"], &[]));
    g.add_pass(node("C", &["U", "T"], &["Out"], &[]));
    assert_eq!(g.find_circular_dependency(), Ok(()));
    g.sort_passes();
    let lts = g.calculate_resource_lifetimes();
    let find = |n: &str| lts.iter().find(|l| l.name == n).map(|l| (l.first, l.last));
    assert_eq!(find("T"), Some((0, 2)));
    assert_eq!(find("U"), Some((1, 2)));
    assert_eq!(find("Out"), Some((2, 2)));
    assert_eq!(lts.len(), 3);
}

#[test]
fn disjoint_lifetimes_share_a_transient() {
    let spec = ImageSpec { format: vulkan::FORMAT_R8G8B8A8_UNORM, usage: 0x14, width: 64, height: 64 };
    let lts = vec![
        ResourceLifetime { name: "A".to_string(), first: 0, last: 1 },
        ResourceLifetime { name: "B".to_string(), first: 2, last: 3 },
        ResourceLifetime { name: "C".to_string(), first: 1, last: 2 },
    ];
    let (aliases, pool) = plan_transient_resources(&lts, &vec![spec, spec, spec], &vec![false, false, false]);
    assert_eq!(pool.len(), 2);
    assert_eq!(pool[0].name, "A");
    assert_eq!(pool[1].name, "C");
    assert_eq!(aliases.len(), 1);
    assert_eq!(aliases[0].name, "B");
    assert_eq!(aliases[0].backing, "A");
}

#[test]
fn physical_resources_are_never_pooled() {
    let spec = ImageSpec { format: vulkan::FORMAT_R8G8B8A8_UNORM, usage: 0x14, width: 8, height: 8 };
    let lts = vec![
        ResourceLifetime { name: "P".to_string(), first: 0, last: 0 },
        ResourceLifetime { name: "Q".to_string(), first: 1, last: 1 },
    ];
    let (aliases, pool) = plan_transient_resources(&lts, &vec![spec, spec], &vec![true, false]);
    assert_eq!(pool.len(), 1);
    assert_eq!(pool[0].name, "Q");
    assert!(aliases.is_empty());
}

#[test]
fn different_specs_do_not_alias() {
    let a = ImageSpec { format: vulkan::FORMAT_R8G8B8A8_UNORM, usage: 0x14, width: 8, height: 8 };
    let b = ImageSpec { width: 16, ..a };
    let lts = vec![
        ResourceLifetime { name: "A".to_string(), first: 0, last: 0 },
        ResourceLifetime { name: "B".to_string(), first: 1, last: 1 },
    ];
    let (aliases, pool) = plan_transient_resources(&lts, &vec![a, b], &vec![false, false]);
    assert_eq!(pool.len(), 2);
    assert!(aliases.is_empty());
}

#[test]
fn default_specs_follow_the_name() {
    let depth = resolve_resource_specs("GBufferDepth", None, 800, 600, vulkan::FORMAT_D32_SFLOAT);
    assert_eq!(depth.format, vulkan::FORMAT_D32_SFLOAT);
    assert_eq!(depth.usage, vulkan::IMAGE_USAGE_DEPTH_STENCIL_ATTACHMENT | vulkan::IMAGE_USAGE_SAMPLED);
    assert_eq!((depth.width, depth.height), (800, 600));
    let hdr = resolve_resource_specs("HDRColor", None, 800, 600, vulkan::FORMAT_D32_SFLOAT);
    assert_eq!(hdr.format, vulkan::FORMAT_R16G16B16A16_SFLOAT);
    let plain = resolve_resource_specs("SpriteColor", None, 800, 600, vulkan::FORMAT_D32_SFLOAT);
    assert_eq!(plain.format, vulkan::FORMAT_R8G8B8A8_UNORM);
    assert_eq!(
        plain.usage,
        vulkan::IMAGE_USAGE_COLOR_ATTACHMENT | vulkan::IMAGE_USAGE_SAMPLED | vulkan::IMAGE_USAGE_STORAGE
    );
    let declared = ImageSpec { format: 1, usage: 2, width: 3, height: 4 };
    assert_eq!(resolve_resource_specs("HDRColor", Some(declared), 800, 600, 0), declared);
}

#[test]
fn layouts_follow_the_access() {
    assert_eq!(
        determine_layout(vulkan::ACCESS_COLOR_ATTACHMENT_WRITE, vulkan::STAGE_COLOR_ATTACHMENT_OUTPUT),
        vulkan::LAYOUT_COLOR_ATTACHMENT_OPTIMAL
    );
    assert_eq!(
        determine_layout(vulkan::ACCESS_DEPTH_STENCIL_ATTACHMENT_WRITE, vulkan::STAGE_EARLY_FRAGMENT_TESTS),
        vulkan::LAYOUT_DEPTH_ATTACHMENT_OPTIMAL
    );
    assert_eq!(
        determine_layout(vulkan::ACCESS_SHADER_READ, vulkan::STAGE_FRAGMENT_SHADER),
        vulkan::LAYOUT_SHADER_READ_ONLY_OPTIMAL
    );
    assert_eq!(
        determine_layout(vulkan::ACCESS_SHADER_READ, vulkan::STAGE_RAY_TRACING_SHADER),
        vulkan::LAYOUT_GENERAL
    );
    assert_eq!(determine_layout(vulkan::ACCESS_TRANSFER_READ, vulkan::STAGE_TRANSFER), vulkan::LAYOUT_TRANSFER_SRC_OPTIMAL);
    assert_eq!(determine_layout(vulkan::ACCESS_TRANSFER_WRITE, vulkan::STAGE_TRANSFER), vulkan::LAYOUT_TRANSFER_DST_OPTIMAL);
    assert_eq!(determine_layout(vulkan::ACCESS_SHADER_WRITE, vulkan::STAGE_COMPUTE_SHADER), vulkan::LAYOUT_GENERAL);
}

#[test]
fn resource_types_compare() {
    assert_eq!(ResourceType::Image, ResourceType::Image);
    assert_ne!(ResourceType::Image, ResourceType::Buffer);
}

#[test]
fn disabled_passes_are_skipped_in_order() {
    let mut g = RenderGraph::new();
    g.add_pass(node("C", &["B"], &["Out"], &[]));
    g.add_pass(node("B", &["A"], &["B"], &[]));
    g.add_pass(node("A", &[], &["A"], &[]));
    assert_eq!(g.find_circular_dependency(), Ok(()));
    g.sort_passes();
    assert_eq!(g.sorted_passes, vec![2, 1, 0]);
    assert_eq!(g.enabled_passes(&vec![true, false, true]), vec![2, 0]);
    assert_eq!(g.enabled_passes(&vec![false, false, false]), Vec::<usize>::new());
}

#[test]
fn mutual_readers_form_a_cycle() {
    let mut g = RenderGraph::new();
    g.add_pass(node("GBufferPass", &["B"], &["A"], &[]));
    g.add_pass(node("AccelerationStructurePass", &["A"], &["B"], &[]));
    assert_eq!(g.find_circular_dependency(), Err(GraphError::CircularDependency(0)));
}

#[test]
fn pass_views_back_unattached_resources() {
    let mut g = RenderGraph::new();
    g.insert_physical_attachment(GraphAttachment {
        name: "GBufferDepth".to_string(),
        format: vulkan::FORMAT_D32_SFLOAT,
        images: vec![1, 2],
        views: vec![10, 20],
    });
    let name = "GBufferDepth".to_string();
    assert_eq!(g.graph_resource_view(&name, 1), Some(20));
    assert_eq!(g.pass_resource_view(&name, 1, &vec![Some(5)]), Some(20));
    let blur = "SSAOBlur".to_string();
    assert_eq!(g.graph_resource_view(&blur, 0), None);
    assert_eq!(g.pass_resource_view(&blur, 0, &vec![None, Some(7), Some(8)]), Some(7));
    assert_eq!(g.pass_resource_view(&blur, 0, &vec![None, None]), None);
}

fn chain_graph() -> RenderGraph {
    let mut g = RenderGraph::new();
    g.add_pass(node("P0", &[], &["A"], &[]));
    g.add_pass(node("P1", &["A"], &["B"], &[]));
    g.add_pass(node("P2", &["B"], &["C"], &[]));
    g.add_pass(node("P3", &["C"], &["D"], &[]));
    assert_eq!(g.find_circular_dependency(), Ok(()));
    g.sort_passes();
    g
}

#[test]
fn aliases_share_memory_only_between_disjoint_lifetimes() {
    let mut g = chain_graph();
    let lts = g.calculate_resource_lifetimes();
    let transients = g.analyze_resources_and_alias(&vec![], 64, 64, vulkan::FORMAT_D32_SFLOAT);
    let names: Vec<String> = transients.iter().map(|t| t.name.clone()).collect();
    assert_eq!(names, vec!["A".to_string(), "B".to_string()]);
    let backing = |n: &str| g.resolve_alias(&n.to_string()).clone();
    assert_eq!(backing("A"), "A");
    assert_eq!(backing("B"), "B");
    assert_eq!(backing("C"), "A");
    assert_eq!(backing("D"), "B");
    for x in &lts {
        for y in &lts {
            if x.name < y.name && backing(&x.name) == backing(&y.name) {
                assert!(x.last < y.first || y.last < x.first);
            }
        }
    }
}

#[test]
fn physical_attachments_are_never_aliased() {
    let mut g = chain_graph();
    g.insert_physical_attachment(GraphAttachment {
        name: "B".to_string(),
        format: vulkan::FORMAT_R8G8B8A8_UNORM,
        images: vec![1, 2],
        views: vec![3, 4],
    });
    let transients = g.analyze_resources_and_alias(&vec![], 64, 64, vulkan::FORMAT_D32_SFLOAT);
    let names: Vec<String> = transients.iter().map(|t| t.name.clone()).collect();
    assert_eq!(names, vec!["A".to_string(), "D".to_string()]);
    assert_eq!(g.resolve_alias(&"B".to_string()), "B");
    assert_eq!(g.resolve_alias(&"C".to_string()), "A");
    assert_eq!(g.resolve_alias(&"D".to_string()), "D");
}

#[test]
fn transient_attachments_replace_by_name() {
    let mut g = RenderGraph::new();
    let att = |name: &str, view: u64| GraphAttachment {
        name: name.to_string(),
        format: vulkan::FORMAT_R8G8B8A8_UNORM,
        images: vec![view, view],
        views: vec![view, view],
    };
    g.insert_transient_attachment(att("A", 1));
    g.insert_transient_attachment(att("B", 2));
    g.insert_transient_attachment(att("A", 3));
    assert_eq!(g.transient_attachments.len(), 2);
    assert_eq!(g.graph_resource_view(&"A".to_string(), 1), Some(3));
    assert_eq!(g.graph_resource_view(&"B".to_string(), 0), Some(2));
}
