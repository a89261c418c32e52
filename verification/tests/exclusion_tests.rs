use lux_retarget::scene::{Orient, Scene, Vec3i};

const NAME_ATTR: u64 = 1;
const TRANSFORM_ATTR: u64 = 2;

fn single_node_scene() -> (Scene, usize) {
    let mut scene = Scene::new();
    let node = scene.add_root(
        "Node".to_owned(),
        Vec3i { x: 0, y: 0, z: 0 },
        Orient { yaw: 0, pitch: 0, roll: 0 },
    );
    (scene, node)
}

fn has_exclusion(scene: &Scene, node: usize, attr: u64) -> bool {
    scene.nodes[node].sync_excluded.contains(&attr)
}

fn has_counter(scene: &Scene, node: usize, attr: u64) -> bool {
    scene.nodes[node].claims.iter().any(|c| c.attr == attr)
}

#[test]
fn test_controlled_by_system_adds_component() {
    let (mut scene, node) = single_node_scene();
    scene.attach_claim(node, NAME_ATTR);
    assert!(has_exclusion(&scene, node, NAME_ATTR));
}

#[test]
fn test_controlled_by_system_removes_component() {
    let (mut scene, node) = single_node_scene();
    scene.attach_claim(node, NAME_ATTR);
    scene.detach_claim(node, NAME_ATTR);
    assert!(!has_exclusion(&scene, node, NAME_ATTR));
}

#[test]
fn test_controlled_by_system_not_removed_with_multiple_controlled_by() {
    let (mut scene, node) = single_node_scene();
    // two independent controllers claim the same attribute
    scene.attach_claim(node, NAME_ATTR);
    scene.attach_claim(node, NAME_ATTR);
    scene.detach_claim(node, NAME_ATTR);
    assert!(has_counter(&scene, node, NAME_ATTR));
    assert!(has_exclusion(&scene, node, NAME_ATTR));
}

#[test]
fn test_controlled_by_system_removed_with_multiple_controlled_by() {
    let (mut scene, node) = single_node_scene();
    scene.attach_claim(node, NAME_ATTR);
    scene.attach_claim(node, NAME_ATTR);
    scene.detach_claim(node, NAME_ATTR);
    scene.detach_claim(node, NAME_ATTR);
    assert!(!has_exclusion(&scene, node, NAME_ATTR));
}

#[test]
fn detach_without_claim_is_a_silent_no_op() {
    let (mut scene, node) = single_node_scene();
    scene.detach_claim(node, NAME_ATTR);
    assert!(!has_counter(&scene, node, NAME_ATTR));
    assert!(!has_exclusion(&scene, node, NAME_ATTR));
    scene.attach_claim(node, NAME_ATTR);
    scene.detach_claim(node, NAME_ATTR);
    scene.detach_claim(node, NAME_ATTR);
    assert!(!has_counter(&scene, node, NAME_ATTR));
    assert!(!has_exclusion(&scene, node, NAME_ATTR));
}

#[test]
fn claims_over_distinct_attributes_count_independently() {
    let (mut scene, node) = single_node_scene();
    scene.attach_claim(node, NAME_ATTR);
    scene.attach_claim(node, TRANSFORM_ATTR);
    scene.detach_claim(node, NAME_ATTR);
    assert!(!has_exclusion(&scene, node, NAME_ATTR));
    assert!(has_exclusion(&scene, node, TRANSFORM_ATTR));
    scene.detach_claim(node, TRANSFORM_ATTR);
    assert!(!has_exclusion(&scene, node, TRANSFORM_ATTR));
}

#[test]
fn counter_reaches_the_claim_count() {
    let (mut scene, node) = single_node_scene();
    scene.attach_claim(node, NAME_ATTR);
    scene.attach_claim(node, NAME_ATTR);
    scene.attach_claim(node, NAME_ATTR);
    let count = scene.nodes[node]
        .claims
        .iter()
        .find(|c| c.attr == NAME_ATTR)
        .map(|c| c.count)
        .unwrap_or(0);
    assert_eq!(count, 3);
}
