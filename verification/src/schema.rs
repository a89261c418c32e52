//! The immutable role schema: the canonical humanoid topology of expected
//! bone names, built once and handed to the retargeting pass as data.

use vstd::prelude::*;

use crate::role::{spec_generates_target, spec_ik_chain_length, generates_target, ik_chain_length, Role};

verus! {

/// One node of the role schema tree.
pub struct SchemaNode {
    /// The logical role this schema node binds.
    pub role: Role,
    /// Exact scene-node name expected for the role.
    pub expected_name: String,
    /// Whether a synthetic target node is created for the matched bone.
    pub generates_target: bool,
    /// Chain length of the inverse-kinematics constraint, when one is
    /// attached.
    pub ik_chain_length: Option<u32>,
    /// Child roles, matched beneath the matched bone, in declared order.
    pub children: Vec<SchemaNode>,
}

/// Mathematical view of a schema tree.
pub struct SchemaView {
    pub role: Role,
    pub expected_name: Seq<char>,
    pub generates_target: bool,
    pub ik_chain_length: Option<u32>,
    pub children: Seq<SchemaView>,
}

pub open spec fn schema_view(n: SchemaNode) -> SchemaView
    decreases n, 0int,
{
    SchemaView {
        role: n.role,
        expected_name: n.expected_name@,
        generates_target: n.generates_target,
        ik_chain_length: n.ik_chain_length,
        children: schema_seq_view(n.children@, n.children@.len() as int),
    }
}

/// Views of the first `i` schema nodes of a list.
pub open spec fn schema_seq_view(cs: Seq<SchemaNode>, i: int) -> Seq<SchemaView>
    decreases cs, i
        when 0 <= i <= cs.len()
{
    if i <= 0 {
        Seq::empty()
    } else {
        schema_seq_view(cs, i - 1).push(schema_view(cs[i - 1]))
    }
}

/// Builds one schema node; target generation and chain length are derived
/// from the role.
fn schema_node(role: Role, expected_name: String, children: Vec<SchemaNode>) -> (n: SchemaNode)
    ensures
        schema_view(n) == (SchemaView {
            role: role,
            expected_name: expected_name@,
            generates_target: spec_generates_target(role),
            ik_chain_length: spec_ik_chain_length(role),
            children: schema_seq_view(children@, children@.len() as int),
        }),
{
    let gt = generates_target(role);
    let chain = ik_chain_length(role);
    let n = SchemaNode {
        role: role,
        expected_name: expected_name,
        generates_target: gt,
        ik_chain_length: chain,
        children: children,
    };
    n
}

/// The canonical humanoid topology, rooted at the hips. Targets are
/// generated for hips, head, hands and feet; the head constraint drives one
/// segment, hand and foot constraints drive two.
pub open spec fn spec_standard_schema() -> SchemaView {
    let foot_l = leaf_view(Role::FootL, "Foot.L"@);
    let leg_l = chain_view(Role::LegL, "Leg.L"@, foot_l);
    let thigh_l = chain_view(Role::ThighL, "Thigh.L"@, leg_l);
    let foot_r = leaf_view(Role::FootR, "Foot.R"@);
    let leg_r = chain_view(Role::LegR, "Leg.R"@, foot_r);
    let thigh_r = chain_view(Role::ThighR, "Thigh.R"@, leg_r);
    let head = leaf_view(Role::Head, "Head"@);
    let neck = chain_view(Role::Neck, "Neck"@, head);
    let hand_l = leaf_view(Role::HandL, "Hand.L"@);
    let forearm_l = chain_view(Role::ForearmL, "Forearm.L"@, hand_l);
    let arm_l = chain_view(Role::ArmL, "Arm.L"@, forearm_l);
    let hand_r = leaf_view(Role::HandR, "Hand.R"@);
    let forearm_r = chain_view(Role::ForearmR, "Forearm.R"@, hand_r);
    let arm_r = chain_view(Role::ArmR, "Arm.R"@, forearm_r);
    let chest = SchemaView {
        role: Role::Chest,
        expected_name: "Chest"@,
        generates_target: spec_generates_target(Role::Chest),
        ik_chain_length: spec_ik_chain_length(Role::Chest),
        children: seq![neck, arm_l, arm_r],
    };
    let spine = chain_view(Role::Spine, "Spine"@, chest);
    SchemaView {
        role: Role::Hips,
        expected_name: "Hips"@,
        generates_target: spec_generates_target(Role::Hips),
        ik_chain_length: spec_ik_chain_length(Role::Hips),
        children: seq![thigh_l, thigh_r, spine],
    }
}

/// A schema node without children.
pub open spec fn leaf_view(role: Role, expected_name: Seq<char>) -> SchemaView {
    SchemaView {
        role: role,
        expected_name: expected_name,
        generates_target: spec_generates_target(role),
        ik_chain_length: spec_ik_chain_length(role),
        children: Seq::empty(),
    }
}

/// A schema node with a single child.
pub open spec fn chain_view(role: Role, expected_name: Seq<char>, child: SchemaView) -> SchemaView {
    SchemaView {
        role: role,
        expected_name: expected_name,
        generates_target: spec_generates_target(role),
        ik_chain_length: spec_ik_chain_length(role),
        children: seq![child],
    }
}

fn leaf(role: Role, expected_name: String) -> (n: SchemaNode)
    ensures
        schema_view(n) == leaf_view(role, expected_name@),
{
    let ghost namev = expected_name@;
    let n = schema_node(role, expected_name, Vec::new());
    proof {
        assert(schema_view(n).children =~= Seq::<SchemaView>::empty());
        assert(schema_view(n) =~~= leaf_view(role, namev));
    }
    n
}

fn chain(role: Role, expected_name: String, child: SchemaNode) -> (n: SchemaNode)
    ensures
        schema_view(n) == chain_view(role, expected_name@, schema_view(child)),
{
    let ghost childv = schema_view(child);
    let ghost namev = expected_name@;
    let mut children: Vec<SchemaNode> = Vec::new();
    children.push(child);
    let n = schema_node(role, expected_name, children);
    proof {
        reveal_with_fuel(schema_seq_view, 2);
        assert(schema_view(n).children =~= seq![childv]);
        assert(schema_view(n) =~~= chain_view(role, namev, childv));
    }
    n
}

/// Constructs the standard humanoid role schema. The tree is immutable
/// data; building it afresh always yields the same schema.
pub fn standard_schema() -> (n: SchemaNode)
    ensures
        schema_view(n) == spec_standard_schema(),
{
    let foot_l = leaf(Role::FootL, "Foot.L".to_owned());
    let leg_l = chain(Role::LegL, "Leg.L".to_owned(), foot_l);
    let thigh_l = chain(Role::ThighL, "Thigh.L".to_owned(), leg_l);
    let foot_r = leaf(Role::FootR, "Foot.R".to_owned());
    let leg_r = chain(Role::LegR, "Leg.R".to_owned(), foot_r);
    let thigh_r = chain(Role::ThighR, "Thigh.R".to_owned(), leg_r);
    let head = leaf(Role::Head, "Head".to_owned());
    let neck = chain(Role::Neck, "Neck".to_owned(), head);
    let hand_l = leaf(Role::HandL, "Hand.L".to_owned());
    let forearm_l = chain(Role::ForearmL, "Forearm.L".to_owned(), hand_l);
    let arm_l = chain(Role::ArmL, "Arm.L".to_owned(), forearm_l);
    let hand_r = leaf(Role::HandR, "Hand.R".to_owned());
    let forearm_r = chain(Role::ForearmR, "Forearm.R".to_owned(), hand_r);
    let arm_r = chain(Role::ArmR, "Arm.R".to_owned(), forearm_r);
    let ghost neckv = schema_view(neck);
    let ghost arm_lv = schema_view(arm_l);
    let ghost arm_rv = schema_view(arm_r);
    let mut chest_children: Vec<SchemaNode> = Vec::new();
    chest_children.push(neck);
    chest_children.push(arm_l);
    chest_children.push(arm_r);
    let chest = schema_node(Role::Chest, "Chest".to_owned(), chest_children);
    proof {
        reveal_with_fuel(schema_seq_view, 4);
        assert(schema_view(chest).children =~= seq![neckv, arm_lv, arm_rv]);
    }
    let spine = chain(Role::Spine, "Spine".to_owned(), chest);
    let ghost thigh_lv = schema_view(thigh_l);
    let ghost thigh_rv = schema_view(thigh_r);
    let ghost spinev = schema_view(spine);
    let mut hips_children: Vec<SchemaNode> = Vec::new();
    hips_children.push(thigh_l);
    hips_children.push(thigh_r);
    hips_children.push(spine);
    let hips = schema_node(Role::Hips, "Hips".to_owned(), hips_children);
    proof {
        reveal_with_fuel(schema_seq_view, 4);
        assert(schema_view(hips).children =~= seq![thigh_lv, thigh_rv, spinev]);
        assert(schema_view(hips) =~~= spec_standard_schema());
    }
    hips
}

} // verus!
