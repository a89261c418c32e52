use lux_retarget::role::{BindingKind, Role};
use lux_retarget::scene::{IkSpec, Orient, Scene, Vec3i};

fn at(x: i64, y: i64, z: i64) -> Vec3i {
    Vec3i { x, y, z }
}

fn turned(yaw: i64, pitch: i64, roll: i64) -> Orient {
    Orient { yaw, pitch, roll }
}

fn full_rig_avatar() -> (Scene, usize) {
    let mut scene = Scene::new();
    let root = scene.add_root("Root".to_owned(), at(0, 0, 0), turned(0, 0, 0));
    let arma = scene.add_node(root, "Armature".to_owned(), at(0, 0, 0), turned(0, 0, 0));
    let hips = scene.add_node(arma, "Hips".to_owned(), at(0, 90, 0), turned(0, 0, 0));
    let spine = scene.add_node(hips, "Spine".to_owned(), at(0, 110, 0), turned(0, 0, 0));
    let chest = scene.add_node(spine, "Chest".to_owned(), at(0, 130, 0), turned(0, 0, 0));
    let neck = scene.add_node(chest, "Neck".to_owned(), at(0, 150, 0), turned(0, 0, 0));
    let _head = scene.add_node(neck, "Head".to_owned(), at(5, 170, 2), turned(0, 0, 0));
    scene.attach_avatar(root, 40);
    (scene, root)
}

#[test]
fn copy_rotation_target_head() {
    let (mut scene, root) = full_rig_avatar();
    let head = scene.registry_lookup(root, Role::Head, BindingKind::Bone).unwrap();
    let target = scene.registry_lookup(root, Role::Head, BindingKind::Target).unwrap();
    scene.nodes[target].rotation = turned(9, 8, 7);
    let head_translation = scene.nodes[head].translation;

    scene.copy_rotation_target_head();

    assert_eq!(scene.nodes[head].rotation, turned(9, 8, 7));
    assert_eq!(scene.nodes[head].translation, head_translation, "translation untouched");
}

#[test]
fn orient_hips_to_head() {
    let (mut scene, root) = full_rig_avatar();
    let hips = scene.registry_lookup(root, Role::Hips, BindingKind::Bone).unwrap();
    let target = scene.registry_lookup(root, Role::Head, BindingKind::Target).unwrap();
    scene.nodes[target].translation = at(10, 100, 30);
    scene.nodes[target].rotation = turned(77, 5, 3);

    scene.orient_hips_to_head();

    // yaw only, and the head translation lowered by the hips-to-head distance
    assert_eq!(scene.nodes[hips].rotation, turned(77, 0, 0));
    assert_eq!(scene.nodes[hips].translation, at(10, 60, 30));
}

#[test]
fn pose_tick_copies_head_before_orienting_hips() {
    let (mut scene, root) = full_rig_avatar();
    let head = scene.registry_lookup(root, Role::Head, BindingKind::Bone).unwrap();
    let hips = scene.registry_lookup(root, Role::Hips, BindingKind::Bone).unwrap();
    let target = scene.registry_lookup(root, Role::Head, BindingKind::Target).unwrap();
    scene.nodes[target].translation = at(-4, 200, 8);
    scene.nodes[target].rotation = turned(13, 21, 34);

    scene.pose_tick();

    assert_eq!(scene.nodes[head].rotation, turned(13, 21, 34));
    assert_eq!(scene.nodes[hips].rotation, turned(13, 0, 0));
    assert_eq!(scene.nodes[hips].translation, at(-4, 160, 8));
}

#[test]
fn pose_skips_avatars_with_missing_registry_entries() {
    let mut scene = Scene::new();
    let root = scene.add_root("Root".to_owned(), at(0, 0, 0), turned(0, 0, 0));
    let body = scene.add_node(root, "Body".to_owned(), at(1, 2, 3), turned(4, 5, 6));
    scene.attach_avatar(root, 40);
    scene.pose_tick();
    assert_eq!(scene.nodes[body].translation, at(1, 2, 3));
    assert_eq!(scene.nodes[body].rotation, turned(4, 5, 6));
}

#[test]
fn head_copy_ignores_bones_without_constraints() {
    let mut scene = Scene::new();
    let lone = scene.add_root("Head".to_owned(), at(0, 0, 0), turned(1, 1, 1));
    scene.nodes[lone].bone = Some(Role::Head);
    scene.copy_rotation_target_head();
    assert_eq!(scene.nodes[lone].rotation, turned(1, 1, 1));
}

#[test]
fn head_copy_reads_only_head_target_sources() {
    let mut scene = Scene::new();
    let bone = scene.add_root("Head".to_owned(), at(0, 0, 0), turned(1, 1, 1));
    let plain = scene.add_root("Other".to_owned(), at(0, 0, 0), turned(9, 9, 9));
    scene.nodes[bone].bone = Some(Role::Head);
    scene.nodes[bone].ik = Some(IkSpec {
        target: plain,
        chain_length: 1,
        iterations: 20,
        pole_target: None,
        pole_angle: 0,
        enabled: true,
    });
    // the constraint's target is not tagged as a head target, so nothing moves
    scene.copy_rotation_target_head();
    assert_eq!(scene.nodes[bone].rotation, turned(1, 1, 1));
}
