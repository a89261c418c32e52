use lux_retarget::role::{BindingKind, Role};
use lux_retarget::scene::{IkSpec, Orient, Scene, Vec3i};

fn at(x: i64, y: i64, z: i64) -> Vec3i {
    Vec3i { x, y, z }
}

fn still() -> Orient {
    Orient { yaw: 0, pitch: 0, roll: 0 }
}

fn add(scene: &mut Scene, parent: usize, name: &str) -> usize {
    scene.add_node(parent, name.to_owned(), at(0, 0, 0), still())
}

/// The standard-named rig used by the engine tests: a chain from the root
/// through the armature to the head, arms under the chest, legs under the
/// hips.
fn add_armature(scene: &mut Scene) -> usize {
    let root = scene.add_root("Root".to_owned(), at(0, 0, 0), still());
    let arma = add(scene, root, "Armature");
    let hips = add(scene, arma, "Hips");
    let spine = add(scene, hips, "Spine");
    let chest = add(scene, spine, "Chest");
    let neck = add(scene, chest, "Neck");
    let _head = add(scene, neck, "Head");

    let arm_l = add(scene, chest, "Arm.L");
    let forearm_l = add(scene, arm_l, "Forearm.L");
    let _hand_l = add(scene, forearm_l, "Hand.L");
    let arm_r = add(scene, chest, "Arm.R");
    let forearm_r = add(scene, arm_r, "Forearm.R");
    let _hand_r = add(scene, forearm_r, "Hand.R");

    let thigh_l = add(scene, hips, "Thigh.L");
    let leg_l = add(scene, thigh_l, "Leg.L");
    let _foot_l = add(scene, leg_l, "Foot.L");
    let thigh_r = add(scene, hips, "Thigh.R");
    let leg_r = add(scene, thigh_r, "Leg.R");
    let _foot_r = add(scene, leg_r, "Foot.R");

    root
}

fn check_bone_name(scene: &Scene, root: usize, role: Role, name: &str) -> usize {
    let bone = scene
        .registry_lookup(root, role, BindingKind::Bone)
        .unwrap_or_else(|| panic!("Expected Bone<> with Name: {}", name));
    assert_eq!(scene.nodes[bone].name, name, "While checking Bone<> for {}", name);
    assert_eq!(scene.nodes[bone].bone, Some(role));
    bone
}

fn check_target_name(scene: &Scene, root: usize, role: Role, name: &str) -> usize {
    let bone = check_bone_name(scene, root, role, name);
    // cannot have a target in the same bone of the bone, must be another entity
    assert!(scene.nodes[bone].target_role.is_none(), "target is in bone");
    let target = scene
        .registry_lookup(root, role, BindingKind::Target)
        .unwrap_or_else(|| panic!("target not found, name {}", name));
    assert_ne!(target, bone, "ComponentEntityRef for Target name: {}, wrong entity id: {}", name, target);
    assert_eq!(scene.nodes[target].target_role, Some(role));
    target
}

fn has_local_user(scene: &Scene, root: usize, role: Role, kind: BindingKind) -> bool {
    let id = scene.registry_lookup(root, role, kind).expect("role not in registry");
    scene.nodes[id].local_user
}

#[test]
fn mod_test() {
    let mut scene = Scene::new();
    let root = add_armature(&mut scene);
    scene.attach_avatar(root, 0);

    check_bone_name(&scene, root, Role::Root, "Armature");
    check_bone_name(&scene, root, Role::Hips, "Hips");
    check_bone_name(&scene, root, Role::Spine, "Spine");
    check_bone_name(&scene, root, Role::Chest, "Chest");
    check_bone_name(&scene, root, Role::Neck, "Neck");
    check_bone_name(&scene, root, Role::Head, "Head");
    check_bone_name(&scene, root, Role::ArmL, "Arm.L");
    check_bone_name(&scene, root, Role::ArmR, "Arm.R");
    check_bone_name(&scene, root, Role::ForearmL, "Forearm.L");
    check_bone_name(&scene, root, Role::ForearmR, "Forearm.R");
    check_bone_name(&scene, root, Role::HandL, "Hand.L");
    check_bone_name(&scene, root, Role::HandR, "Hand.R");
    check_bone_name(&scene, root, Role::ThighL, "Thigh.L");
    check_bone_name(&scene, root, Role::ThighR, "Thigh.R");
    check_bone_name(&scene, root, Role::LegL, "Leg.L");
    check_bone_name(&scene, root, Role::LegR, "Leg.R");
    check_bone_name(&scene, root, Role::FootL, "Foot.L");
    check_bone_name(&scene, root, Role::FootR, "Foot.R");

    check_target_name(&scene, root, Role::Head, "Head");
    check_target_name(&scene, root, Role::HandL, "Hand.L");
    check_target_name(&scene, root, Role::HandR, "Hand.R");
    check_target_name(&scene, root, Role::FootL, "Foot.L");
    check_target_name(&scene, root, Role::FootR, "Foot.R");

    scene.local_user_enters(root);

    assert!(
        has_local_user(&scene, root, Role::Root, BindingKind::Bone),
        "Bone<Root> missing LocalUser"
    );
    assert!(
        has_local_user(&scene, root, Role::Head, BindingKind::Target),
        "Target<Head> missing LocalUser"
    );
    assert!(
        has_local_user(&scene, root, Role::HandL, BindingKind::Target),
        "Target<HandL> missing LocalUser"
    );
    assert!(
        has_local_user(&scene, root, Role::HandR, BindingKind::Target),
        "Target<HandR> missing LocalUser"
    );
    assert!(
        has_local_user(&scene, root, Role::FootL, BindingKind::Target),
        "Target<FootR> missing LocalUser"
    );
    assert!(
        has_local_user(&scene, root, Role::FootR, BindingKind::Target),
        "Target<FootR> missing LocalUser"
    );

    scene.local_user_exits(root);

    assert!(
        !has_local_user(&scene, root, Role::Head, BindingKind::Target),
        "Bone<Root> has LocalUser"
    );
    assert!(
        !has_local_user(&scene, root, Role::Head, BindingKind::Target),
        "Target<Head> has LocalUser"
    );
    assert!(
        !has_local_user(&scene, root, Role::HandL, BindingKind::Target),
        "Target<HandL> has LocalUser"
    );
    assert!(
        !has_local_user(&scene, root, Role::HandR, BindingKind::Target),
        "Target<HandR> has LocalUser"
    );
    assert!(
        !has_local_user(&scene, root, Role::FootL, BindingKind::Target),
        "Target<FootR> has LocalUser"
    );
    assert!(
        !has_local_user(&scene, root, Role::FootR, BindingKind::Target),
        "Target<FootR> has LocalUser"
    );
}

#[test]
fn components_mod_test() {
    let mut scene = Scene::new();
    let root = add_armature(&mut scene);
    scene.attach_avatar(root, 0);

    check_bone_name(&scene, root, Role::Root, "Armature");
    check_bone_name(&scene, root, Role::Hips, "Hips");
    check_bone_name(&scene, root, Role::Spine, "Spine");
    check_bone_name(&scene, root, Role::Chest, "Chest");
    check_bone_name(&scene, root, Role::Neck, "Neck");
    check_bone_name(&scene, root, Role::Head, "Head");
    check_bone_name(&scene, root, Role::ArmL, "Arm.L");
    check_bone_name(&scene, root, Role::ArmR, "Arm.R");
    check_bone_name(&scene, root, Role::ForearmL, "Forearm.L");
    check_bone_name(&scene, root, Role::ForearmR, "Forearm.R");
    check_bone_name(&scene, root, Role::HandL, "Hand.L");
    check_bone_name(&scene, root, Role::HandR, "Hand.R");
    check_bone_name(&scene, root, Role::ThighL, "Thigh.L");
    check_bone_name(&scene, root, Role::ThighR, "Thigh.R");
    check_bone_name(&scene, root, Role::LegL, "Leg.L");
    check_bone_name(&scene, root, Role::LegR, "Leg.R");
    check_bone_name(&scene, root, Role::FootL, "Foot.L");
    check_bone_name(&scene, root, Role::FootR, "Foot.R");

    check_target_name(&scene, root, Role::Head, "Head");
    check_target_name(&scene, root, Role::HandL, "Hand.L");
    check_target_name(&scene, root, Role::HandR, "Hand.R");
    check_target_name(&scene, root, Role::FootL, "Foot.L");
    check_target_name(&scene, root, Role::FootR, "Foot.R");

    scene.local_user_enters(root);

    assert!(
        has_local_user(&scene, root, Role::Head, BindingKind::Target),
        "Target<Head> missing LocalUser"
    );
    assert!(
        has_local_user(&scene, root, Role::HandL, BindingKind::Target),
        "Target<HandL> missing LocalUser"
    );
    assert!(
        has_local_user(&scene, root, Role::HandR, BindingKind::Target),
        "Target<HandR> missing LocalUser"
    );
    assert!(
        has_local_user(&scene, root, Role::FootL, BindingKind::Target),
        "Target<FootR> missing LocalUser"
    );
    assert!(
        has_local_user(&scene, root, Role::FootR, BindingKind::Target),
        "Target<FootR> missing LocalUser"
    );

    scene.local_user_exits(root);

    assert!(
        !has_local_user(&scene, root, Role::Head, BindingKind::Target),
        "Target<Head> has LocalUser"
    );
    assert!(
        !has_local_user(&scene, root, Role::HandL, BindingKind::Target),
        "Target<HandL> has LocalUser"
    );
    assert!(
        !has_local_user(&scene, root, Role::HandR, BindingKind::Target),
        "Target<HandR> has LocalUser"
    );
    assert!(
        !has_local_user(&scene, root, Role::FootL, BindingKind::Target),
        "Target<FootR> has LocalUser"
    );
    assert!(
        !has_local_user(&scene, root, Role::FootR, BindingKind::Target),
        "Target<FootR> has LocalUser"
    );
}

#[test]
fn avatars_test() {
    let mut scene = Scene::new();
    let root = scene.add_root("Root".to_owned(), at(0, 0, 0), still());
    let arma = add(&mut scene, root, "Armature");
    let hips = add(&mut scene, arma, "Hips");
    let spine = add(&mut scene, hips, "Spine");
    let chest = add(&mut scene, spine, "Chest");
    let neck = add(&mut scene, chest, "Neck");
    let _head = add(&mut scene, neck, "Head");
    scene.attach_avatar(root, 0);

    check_bone_name(&scene, root, Role::Hips, "Hips");
    check_bone_name(&scene, root, Role::Spine, "Spine");
    check_bone_name(&scene, root, Role::Chest, "Chest");
    check_bone_name(&scene, root, Role::Neck, "Neck");
    check_bone_name(&scene, root, Role::Head, "Head");
}

#[test]
fn missing_armature_leaves_scene_untouched() {
    let mut scene = Scene::new();
    let root = scene.add_root("Root".to_owned(), at(0, 0, 0), still());
    let body = add(&mut scene, root, "Body");
    let _hips = add(&mut scene, body, "Hips");
    let before = scene.len();
    scene.retarget(root);
    assert_eq!(scene.len(), before);
    assert!(scene.nodes[root].registry.is_empty());
    for i in 0..scene.len() {
        assert!(scene.nodes[i].bone.is_none());
        assert!(scene.nodes[i].target_role.is_none());
        assert!(scene.nodes[i].ik.is_none());
    }
}

#[test]
fn missing_spine_binds_leg_branches_only() {
    let mut scene = Scene::new();
    let root = scene.add_root("Root".to_owned(), at(0, 0, 0), still());
    let arma = add(&mut scene, root, "Armature");
    let hips = add(&mut scene, arma, "Hips");
    // the spine node is absent; the chest chain hangs off the hips instead
    let chest = add(&mut scene, hips, "Chest");
    let neck = add(&mut scene, chest, "Neck");
    let _head = add(&mut scene, neck, "Head");
    let arm_l = add(&mut scene, chest, "Arm.L");
    let _hand_l = add(&mut scene, arm_l, "Hand.L");
    let thigh_l = add(&mut scene, hips, "Thigh.L");
    let leg_l = add(&mut scene, thigh_l, "Leg.L");
    let _foot_l = add(&mut scene, leg_l, "Foot.L");
    let thigh_r = add(&mut scene, hips, "Thigh.R");
    let leg_r = add(&mut scene, thigh_r, "Leg.R");
    let _foot_r = add(&mut scene, leg_r, "Foot.R");
    scene.attach_avatar(root, 0);

    check_bone_name(&scene, root, Role::Root, "Armature");
    check_bone_name(&scene, root, Role::Hips, "Hips");
    check_bone_name(&scene, root, Role::ThighL, "Thigh.L");
    check_bone_name(&scene, root, Role::ThighR, "Thigh.R");
    check_bone_name(&scene, root, Role::LegL, "Leg.L");
    check_bone_name(&scene, root, Role::LegR, "Leg.R");
    check_bone_name(&scene, root, Role::FootL, "Foot.L");
    check_bone_name(&scene, root, Role::FootR, "Foot.R");

    for role in [
        Role::Spine,
        Role::Chest,
        Role::Neck,
        Role::Head,
        Role::ArmL,
        Role::ArmR,
        Role::ForearmL,
        Role::ForearmR,
        Role::HandL,
        Role::HandR,
    ] {
        assert!(
            scene.registry_lookup(root, role, BindingKind::Bone).is_none(),
            "{:?} must stay unbound",
            role
        );
        assert!(
            scene.registry_lookup(root, role, BindingKind::Target).is_none(),
            "{:?} must have no target",
            role
        );
    }
    assert!(scene.registry_lookup(root, Role::Hips, BindingKind::Target).is_some());
    assert!(scene.registry_lookup(root, Role::FootL, BindingKind::Target).is_some());
    assert!(scene.registry_lookup(root, Role::FootR, BindingKind::Target).is_some());
}

#[test]
fn end_to_end_single_chain() {
    let mut scene = Scene::new();
    let root = scene.add_root("Root".to_owned(), at(0, 0, 0), still());
    let arma = add(&mut scene, root, "Armature");
    let hips = add(&mut scene, arma, "Hips");
    let spine = add(&mut scene, hips, "Spine");
    let chest = add(&mut scene, spine, "Chest");
    let neck = add(&mut scene, chest, "Neck");
    let head = scene.add_node(
        neck,
        "Head".to_owned(),
        at(5, 170, 2),
        Orient { yaw: 30, pitch: 10, roll: 0 },
    );
    scene.attach_avatar(root, 40);

    assert_eq!(scene.nodes[hips].bone, Some(Role::Hips));
    assert_eq!(scene.nodes[spine].bone, Some(Role::Spine));
    assert_eq!(scene.nodes[chest].bone, Some(Role::Chest));
    assert_eq!(scene.nodes[neck].bone, Some(Role::Neck));
    assert_eq!(scene.nodes[head].bone, Some(Role::Head));

    let head_target = scene
        .registry_lookup(root, Role::Head, BindingKind::Target)
        .expect("head target must exist");
    assert_eq!(scene.nodes[head_target].name, "Target:Head");
    assert!(
        scene.nodes[arma].children.contains(&head_target),
        "target must be parented under the armature"
    );
    assert_eq!(scene.nodes[head_target].translation, at(5, 170, 2));
    assert_eq!(
        scene.nodes[head].ik,
        Some(IkSpec {
            target: head_target,
            chain_length: 1,
            iterations: 20,
            pole_target: None,
            pole_angle: 0,
            enabled: true,
        })
    );
}

#[test]
fn hand_constraints_drive_two_segments() {
    let mut scene = Scene::new();
    let root = add_armature(&mut scene);
    scene.attach_avatar(root, 0);
    let hand = scene.registry_lookup(root, Role::HandL, BindingKind::Bone).unwrap();
    let target = scene.registry_lookup(root, Role::HandL, BindingKind::Target).unwrap();
    let ik = scene.nodes[hand].ik.expect("hand bone carries a constraint");
    assert_eq!(ik.chain_length, 2);
    assert_eq!(ik.iterations, 20);
    assert!(ik.enabled);
    assert_eq!(ik.target, target);
    // the hips get a target node but no constraint
    let hips = scene.registry_lookup(root, Role::Hips, BindingKind::Bone).unwrap();
    assert!(scene.registry_lookup(root, Role::Hips, BindingKind::Target).is_some());
    assert!(scene.nodes[hips].ik.is_none());
}

#[test]
fn target_ids_never_equal_bone_ids() {
    let mut scene = Scene::new();
    let root = add_armature(&mut scene);
    scene.attach_avatar(root, 0);
    for role in [Role::Hips, Role::Head, Role::HandL, Role::HandR, Role::FootL, Role::FootR] {
        let bone = scene.registry_lookup(root, role, BindingKind::Bone).unwrap();
        let target = scene.registry_lookup(root, role, BindingKind::Target).unwrap();
        assert_ne!(bone, target, "{:?} target must be a separate node", role);
    }
}

#[test]
fn ik_targets_match_registry_entries() {
    let mut scene = Scene::new();
    let root = add_armature(&mut scene);
    scene.attach_avatar(root, 0);
    for role in [Role::Head, Role::HandL, Role::HandR, Role::FootL, Role::FootR] {
        let bone = scene.registry_lookup(root, role, BindingKind::Bone).unwrap();
        let target = scene.registry_lookup(root, role, BindingKind::Target).unwrap();
        let ik = scene.nodes[bone].ik.expect("bound role with target carries a constraint");
        assert_eq!(ik.target, target);
    }
}

#[test]
fn search_explores_last_child_subtree_first() {
    let mut scene = Scene::new();
    let root = scene.add_root("Root".to_owned(), at(0, 0, 0), still());
    let a = add(&mut scene, root, "A");
    let b = add(&mut scene, root, "B");
    let _x_in_a = add(&mut scene, a, "X");
    let x_in_b = add(&mut scene, b, "X");
    let found = scene.find_by_name_in_childs(&"X".to_owned(), root);
    assert_eq!(found, Some(x_in_b));
}

#[test]
fn search_prefers_direct_children() {
    let mut scene = Scene::new();
    let root = scene.add_root("Root".to_owned(), at(0, 0, 0), still());
    let a = add(&mut scene, root, "A");
    let _deep = add(&mut scene, a, "X");
    let direct = add(&mut scene, root, "X");
    let found = scene.find_by_name_in_childs(&"X".to_owned(), root);
    assert_eq!(found, Some(direct));
    // the start node itself is never a candidate
    let self_named = scene.find_by_name_in_childs(&"Root".to_owned(), root);
    assert_eq!(self_named, None);
}

#[test]
fn local_user_skips_missing_registry_entries() {
    let mut scene = Scene::new();
    let root = scene.add_root("Root".to_owned(), at(0, 0, 0), still());
    let arma = add(&mut scene, root, "Armature");
    let hips = add(&mut scene, arma, "Hips");
    let spine = add(&mut scene, hips, "Spine");
    let chest = add(&mut scene, spine, "Chest");
    let neck = add(&mut scene, chest, "Neck");
    let _head = add(&mut scene, neck, "Head");
    scene.attach_avatar(root, 0);
    scene.local_user_enters(root);
    assert!(scene.nodes[root].local_user);
    assert!(has_local_user(&scene, root, Role::Root, BindingKind::Bone));
    assert!(has_local_user(&scene, root, Role::Head, BindingKind::Target));
    assert!(scene.registry_lookup(root, Role::HandL, BindingKind::Target).is_none());
}
