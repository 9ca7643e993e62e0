use webgl_renderer::scene::{Scene, SceneGraph};

/// root -> (a -> (c), b), with a camera on c.
fn sample() -> (SceneGraph, usize, usize, usize, usize, usize) {
    let mut g = SceneGraph::new();
    let cam = g.add_camera();
    let root = g.add_node(None, false);
    let a = g.add_node(None, true);
    let b = g.add_node(None, true);
    let c = g.add_node(Some(cam), false);
    g.add_child(root, a);
    g.add_child(root, b);
    g.add_child(a, c);
    (g, root, a, b, c, cam)
}

#[test]
fn nodes_and_links() {
    let (g, root, a, b, c, cam) = sample();
    assert_eq!(g.len(), 4);
    assert_eq!(g.children_of(root), &[a, b]);
    assert_eq!(g.parent_of(c), Some(a));
    assert_eq!(g.parent_of(root), None);
    assert_eq!(g.camera_of(c), Some(cam));
    assert_eq!(g.node_of_camera(cam), Some(c));
    assert!(g.mesh_of(a));
    assert!(!g.mesh_of(c));
}

#[test]
fn ancestry() {
    let (g, root, a, b, c, _) = sample();
    assert!(g.is_ancestor_of(root, c));
    assert!(g.is_ancestor_of(a, c));
    assert!(g.is_ancestor_of(c, c));
    assert!(!g.is_ancestor_of(b, c));
    assert!(!g.is_ancestor_of(c, root));
}

#[test]
fn cameras_below() {
    let (g, root, a, b, _, _) = sample();
    assert!(g.has_some_camera(root));
    assert!(g.has_some_camera(a));
    assert!(!g.has_some_camera(b));
}

#[test]
fn depths() {
    let (g, root, a, b, c, _) = sample();
    assert_eq!(g.depth_of(root), 2);
    assert_eq!(g.depth_of(a), 1);
    assert_eq!(g.depth_of(c), 0);
    assert_eq!(g.max_depth_of(&[b, a]), 1);
    assert_eq!(g.max_depth_of(&[]), 0);
}

#[test]
fn descendants_breadth_first() {
    let (g, root, a, b, c, _) = sample();
    assert_eq!(g.descendants(root), vec![root, a, b, c]);
    assert_eq!(g.descendants(b), vec![b]);
}

#[test]
fn global_transform_plans_uncached_chain_top_down_once() {
    let (mut g, root, a, _, c, _) = sample();
    assert_eq!(g.global_transform(c), vec![root, a, c]);
    assert!(g.global_transform(c).is_empty());
    assert!(g.global_transform(a).is_empty());
}

#[test]
fn reset_invalidates_dependents_only() {
    let (mut g, root, a, b, c, _) = sample();
    g.global_transform(c);
    g.global_transform(b);
    g.reset_transforms(a);
    assert_eq!(g.global_transform(c), vec![a, c]);
    assert!(g.global_transform(b).is_empty());
    g.reset_transforms(root);
    assert_eq!(g.global_transform(b), vec![root, b]);
}

#[test]
fn normal_transform_computed_once() {
    let (mut g, root, a, _, _, _) = sample();
    let (plan, compute) = g.normal_transform(a);
    assert_eq!(plan, vec![root, a]);
    assert!(compute);
    let (plan, compute) = g.normal_transform(a);
    assert!(plan.is_empty());
    assert!(!compute);
    g.reset_transforms(root);
    let (plan, compute) = g.normal_transform(a);
    assert_eq!(plan, vec![root, a]);
    assert!(compute);
}

#[test]
fn cameras_move_between_nodes() {
    let (mut g, _, a, b, c, cam) = sample();
    g.transfer_camera(c, b);
    assert_eq!(g.camera_of(b), Some(cam));
    assert_eq!(g.camera_of(c), None);
    assert_eq!(g.node_of_camera(cam), Some(b));
    g.transfer_camera(c, a);
    assert_eq!(g.camera_of(a), None);
    let cam2 = g.add_camera();
    assert_eq!(g.node_of_camera(cam2), None);
    g.attach_camera(a, cam2);
    assert_eq!(g.camera_of(a), Some(cam2));
    assert_eq!(g.node_of_camera(cam2), Some(a));
}

#[test]
fn scene_queries() {
    let (mut g, root, a, b, c, cam) = sample();
    let lone = g.add_node(None, true);
    let mut scene = Scene::new(vec![a]);
    assert!(scene.contains_node(&g, c));
    assert!(!scene.contains_node(&g, b));
    assert!(scene.contains_camera(&g, cam));
    assert!(scene.has_some_camera(&g));
    assert_eq!(scene.depth(&g), 1);
    scene.add_root_node(lone);
    assert_eq!(scene.root_nodes(), &[a, lone]);
    let other = Scene::new(vec![b, lone]);
    assert!(!other.has_some_camera(&g));
    assert!(!other.contains_camera(&g, cam));
    assert!(!other.contains_node(&g, root));
}

#[test]
fn mesh_nodes_in_breadth_first_order() {
    let (mut g, root, a, b, c, _) = sample();
    assert_eq!(g.mesh_nodes(root), vec![a, b]);
    assert!(g.mesh_nodes(c).is_empty());
    let d = g.add_node(None, true);
    g.add_child(c, d);
    assert_eq!(g.mesh_nodes(root), vec![a, b, d]);
    assert_eq!(g.mesh_nodes(a), vec![a, d]);
}

#[test]
fn planned_transforms_follow_their_parents() {
    let (mut g, root, _, b, c, _) = sample();
    g.global_transform(b);
    let plan = g.global_transform(c);
    assert!(!plan.is_empty());
    for k in 1..plan.len() {
        assert_eq!(g.parent_of(plan[k]), Some(plan[k - 1]));
    }
    assert_eq!(g.parent_of(plan[0]), Some(root));
    assert!(g.global_transform(root).is_empty());
}
