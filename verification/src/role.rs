//! The closed set of logical skeleton roles and their static properties.

use vstd::prelude::*;

verus! {

/// A logical skeleton position of the canonical humanoid topology.
///
/// The set is fixed at process start; every downstream structure (bone
/// bindings, target nodes, registry entries) is keyed by a `Role`.
#[derive(Clone, Copy, Debug, PartialEq, Eq, Structural)]
pub enum Role {
    Root,
    Hips,
    Spine,
    Chest,
    Neck,
    Head,
    ArmL,
    ArmR,
    ForearmL,
    ForearmR,
    HandL,
    HandR,
    ThighL,
    ThighR,
    LegL,
    LegR,
    FootL,
    FootR,
}

/// Whether a registry entry points at a matched bone node or at a synthetic
/// inverse-kinematics target node.
#[derive(Clone, Copy, Debug, PartialEq, Eq, Structural)]
pub enum BindingKind {
    Bone,
    Target,
}

/// Roles for which the retargeting pass synthesizes a target node.
pub open spec fn spec_generates_target(role: Role) -> bool {
    role is Hips || role is Head || role is HandL || role is HandR || role is FootL
        || role is FootR
}

pub fn generates_target(role: Role) -> (r: bool)
    ensures
        r == spec_generates_target(role),
{
    match role {
        Role::Hips | Role::Head | Role::HandL | Role::HandR | Role::FootL | Role::FootR => true,
        _ => false,
    }
}

/// Chain length of the inverse-kinematics constraint attached to the bone of
/// a target-generating role: one segment for the head, two for hands and
/// feet. The hips get a target node but no constraint.
pub open spec fn spec_ik_chain_length(role: Role) -> Option<u32> {
    if role is Head {
        Some(1u32)
    } else if role is HandL || role is HandR || role is FootL || role is FootR {
        Some(2u32)
    } else {
        None
    }
}

pub fn ik_chain_length(role: Role) -> (r: Option<u32>)
    ensures
        r == spec_ik_chain_length(role),
{
    match role {
        Role::Head => Some(1),
        Role::HandL | Role::HandR | Role::FootL | Role::FootR => Some(2),
        _ => None,
    }
}

/// Name given to the synthetic target node of a role.
pub open spec fn spec_target_name(role: Role) -> Seq<char> {
    match role {
        Role::Root => "Target:Root"@,
        Role::Hips => "Target:Hips"@,
        Role::Spine => "Target:Spine"@,
        Role::Chest => "Target:Chest"@,
        Role::Neck => "Target:Neck"@,
        Role::Head => "Target:Head"@,
        Role::ArmL => "Target:ArmL"@,
        Role::ArmR => "Target:ArmR"@,
        Role::ForearmL => "Target:ForearmL"@,
        Role::ForearmR => "Target:ForearmR"@,
        Role::HandL => "Target:HandL"@,
        Role::HandR => "Target:HandR"@,
        Role::ThighL => "Target:ThighL"@,
        Role::ThighR => "Target:ThighR"@,
        Role::LegL => "Target:LegL"@,
        Role::LegR => "Target:LegR"@,
        Role::FootL => "Target:FootL"@,
        Role::FootR => "Target:FootR"@,
    }
}

pub fn target_node_name(role: Role) -> (r: String)
    ensures
        r@ == spec_target_name(role),
{
    match role {
        Role::Root => "Target:Root".to_owned(),
        Role::Hips => "Target:Hips".to_owned(),
        Role::Spine => "Target:Spine".to_owned(),
        Role::Chest => "Target:Chest".to_owned(),
        Role::Neck => "Target:Neck".to_owned(),
        Role::Head => "Target:Head".to_owned(),
        Role::ArmL => "Target:ArmL".to_owned(),
        Role::ArmR => "Target:ArmR".to_owned(),
        Role::ForearmL => "Target:ForearmL".to_owned(),
        Role::ForearmR => "Target:ForearmR".to_owned(),
        Role::HandL => "Target:HandL".to_owned(),
        Role::HandR => "Target:HandR".to_owned(),
        Role::ThighL => "Target:ThighL".to_owned(),
        Role::ThighR => "Target:ThighR".to_owned(),
        Role::LegL => "Target:LegL".to_owned(),
        Role::LegR => "Target:LegR".to_owned(),
        Role::FootL => "Target:FootL".to_owned(),
        Role::FootR => "Target:FootR".to_owned(),
    }
}

/// Roles whose nodes mirror the local-user flag of the avatar root: the root
/// bone and the five tracked target roles.
pub open spec fn spec_local_user_tracked(role: Role) -> bool {
    role is Root || role is Head || role is HandL || role is HandR || role is FootL
        || role is FootR
}

/// Registry kind consulted for a tracked role: the root is tracked through
/// its bone binding, the others through their target nodes.
pub open spec fn spec_tracked_kind(role: Role) -> BindingKind {
    if role is Root {
        BindingKind::Bone
    } else {
        BindingKind::Target
    }
}

} // verus!
