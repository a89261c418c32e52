//! The retargeting engine: walks the role schema against a scene subtree,
//! tagging bones, synthesizing inverse-kinematics target nodes and
//! populating the role registry on the avatar root.

use vstd::prelude::*;

use crate::role::{spec_target_name, target_node_name, BindingKind, Role};
use crate::scene::{
    fresh_node_view, seq_wf, IkSpec, NodeView, Orient, RegistryEntry, Scene,
};
use crate::schema::{
    schema_seq_view, schema_view, spec_standard_schema, standard_schema, SchemaNode, SchemaView,
};
use crate::search::{lemma_subtree_search_found, subtree_search};

verus! {

/// The identity orientation given to freshly spawned target nodes.
pub open spec fn zero_orient() -> Orient {
    Orient { yaw: 0, pitch: 0, roll: 0 }
}

/// Scene after recording a bone binding: the found node is tagged with the
/// role and the avatar root's registry gains the `(role, Bone)` entry.
pub open spec fn bind_bone(s: Seq<NodeView>, av: int, role: Role, found: int) -> Seq<NodeView> {
    let s1 = s.update(found, (NodeView { bone: Some(role), ..s[found] }));
    s1.update(
        av,
        (NodeView {
            registry: s1[av].registry.push(
                RegistryEntry { role: role, kind: BindingKind::Bone, node: found as usize },
            ),
            ..s1[av]
        }),
    )
}

/// Scene after synthesizing the target node of a role: a fresh node named
/// after the role, parented under the armature at the bone's current
/// position, tagged with the role; the registry gains the `(role, Target)`
/// entry; and, when the role has a chain length, an inverse-kinematics
/// constraint pointing at the new node is attached to the bone.
pub open spec fn spawn_target(
    s: Seq<NodeView>,
    av: int,
    arm: int,
    role: Role,
    chain: Option<u32>,
    found: int,
) -> Seq<NodeView> {
    let tid = s.len() as int;
    let s1 = s.update(arm, (NodeView { children: s[arm].children.push(tid as usize), ..s[arm] }))
        .push(fresh_node_view(spec_target_name(role), s[found].translation, zero_orient()));
    let s2 = s1.update(tid, (NodeView { target_role: Some(role), ..s1[tid] }));
    let s3 = s2.update(
        av,
        (NodeView {
            registry: s2[av].registry.push(
                RegistryEntry { role: role, kind: BindingKind::Target, node: tid as usize },
            ),
            ..s2[av]
        }),
    );
    match chain {
        None => s3,
        Some(c) => s3.update(
            found,
            (NodeView {
                ik: Some(
                    IkSpec {
                        target: tid as usize,
                        chain_length: c,
                        iterations: 20,
                        pole_target: None,
                        pole_angle: 0,
                        enabled: true,
                    },
                ),
                ..s3[found]
            }),
        ),
    }
}

/// Scene after applying one schema node beneath `parent`: search the
/// descendants of `parent` for the expected name; on a miss the whole
/// schema subtree is skipped and the scene is unchanged; on a hit the bone
/// is bound, a target is synthesized when called for, and the schema
/// children are applied beneath the found node.
pub open spec fn apply_schema_spec(
    s: Seq<NodeView>,
    sc: SchemaView,
    av: int,
    arm: int,
    parent: int,
) -> Seq<NodeView>
    decreases sc, 0int,
{
    match subtree_search(s, sc.expected_name, parent) {
        None => s,
        Some(found) => {
            let s1 = bind_bone(s, av, sc.role, found as int);
            let s2 = if sc.generates_target {
                spawn_target(s1, av, arm, sc.role, sc.ik_chain_length, found as int)
            } else {
                s1
            };
            apply_children_spec(s2, sc.children, 0, av, arm, found as int)
        },
    }
}

/// Scene after applying the schema children from position `i` on, each
/// beneath the same matched parent, left to right.
pub open spec fn apply_children_spec(
    s: Seq<NodeView>,
    cs: Seq<SchemaView>,
    i: int,
    av: int,
    arm: int,
    parent: int,
) -> Seq<NodeView>
    decreases cs, cs.len() - i,
{
    if i < 0 || i >= cs.len() {
        s
    } else {
        apply_children_spec(apply_schema_spec(s, cs[i], av, arm, parent), cs, i + 1, av, arm, parent)
    }
}

/// Scene after one full retargeting pass on `root`: nothing changes when no
/// descendant of `root` is named `Armature`; otherwise the armature is
/// bound as the root bone and the standard schema is applied beneath it.
pub open spec fn retarget_spec(s: Seq<NodeView>, root: int) -> Seq<NodeView> {
    match subtree_search(s, "Armature"@, root) {
        None => s,
        Some(arm) => {
            let s1 = bind_bone(s, root, Role::Root, arm as int);
            apply_schema_spec(s1, spec_standard_schema(), root, arm as int, arm as int)
        },
    }
}

/// `bind_bone` keeps the scene's length and well-formedness.
proof fn lemma_bind_bone_wf(s: Seq<NodeView>, av: int, role: Role, found: int)
    requires
        seq_wf(s),
        0 <= av < s.len(),
        0 <= found < s.len(),
    ensures
        bind_bone(s, av, role, found).len() == s.len(),
        seq_wf(bind_bone(s, av, role, found)),
{
    let s2 = bind_bone(s, av, role, found);
    crate::scene::lemma_seq_wf_same_children(s, s2);
}

/// `spawn_target` appends exactly one childless node, keeps every other
/// node's children except for the armature gaining the new node, and
/// preserves well-formedness.
pub proof fn lemma_spawn_target_wf(
    s: Seq<NodeView>,
    av: int,
    arm: int,
    role: Role,
    chain: Option<u32>,
    found: int,
)
    requires
        seq_wf(s),
        s.len() < usize::MAX,
        0 <= av < s.len(),
        0 <= arm < s.len(),
        0 <= found < s.len(),
    ensures
        spawn_target(s, av, arm, role, chain, found).len() == s.len() + 1,
        seq_wf(spawn_target(s, av, arm, role, chain, found)),
{
    let s4 = spawn_target(s, av, arm, role, chain, found);
    assert forall|i: int, j: int|
        0 <= i < s4.len() && 0 <= j < s4[i].children.len() implies i < #[trigger] s4[i].children[j]
        && s4[i].children[j] < s4.len() by {
        if i < s.len() {
            if i == arm {
                if j < s[arm].children.len() {
                    assert(s4[i].children[j] == s[arm].children[j]);
                } else {
                    assert(s4[i].children[j] == s.len() as usize);
                }
            } else {
                assert(s4[i].children == s[i].children);
            }
        } else {
            assert(s4[i].children.len() == 0);
        }
    }
}

/// Number of nodes of a schema subtree: an upper bound on how many scene
/// nodes one application of it can add.
pub open spec fn schema_size(sc: SchemaView) -> nat
    decreases sc, 0int,
{
    1 + schema_list_size(sc.children, sc.children.len() as int)
}

/// Total size of the first `i` schema nodes of a list.
pub open spec fn schema_list_size(cs: Seq<SchemaView>, i: int) -> nat
    decreases cs, i,
{
    if i <= 0 || i > cs.len() {
        0
    } else {
        schema_size(cs[i - 1]) + schema_list_size(cs, i - 1)
    }
}

/// Size of the tail of a schema list, from position `i` on.
pub open spec fn schema_tail_size(cs: Seq<SchemaView>, i: int) -> nat {
    (schema_list_size(cs, cs.len() as int) - schema_list_size(cs, i)) as nat
}

pub proof fn lemma_schema_list_size_mono(cs: Seq<SchemaView>, i: int, j: int)
    requires
        0 <= i <= j <= cs.len(),
    ensures
        schema_list_size(cs, i) <= schema_list_size(cs, j),
    decreases j - i,
{
    if i < j {
        lemma_schema_list_size_mono(cs, i, j - 1);
    }
}

/// Applying a schema subtree never shrinks the scene, grows it by at most
/// the schema's size, and keeps it well-formed.
pub proof fn lemma_apply_schema_wf(s: Seq<NodeView>, sc: SchemaView, av: int, arm: int, parent: int)
    requires
        seq_wf(s),
        s.len() + schema_size(sc) <= usize::MAX,
        0 <= av < s.len(),
        0 <= arm < s.len(),
        0 <= parent < s.len(),
    ensures
        apply_schema_spec(s, sc, av, arm, parent).len() >= s.len(),
        apply_schema_spec(s, sc, av, arm, parent).len() <= s.len() + schema_size(sc),
        seq_wf(apply_schema_spec(s, sc, av, arm, parent)),
    decreases sc, 0int,
{
    match subtree_search(s, sc.expected_name, parent) {
        None => {},
        Some(found) => {
            lemma_subtree_search_found(s, sc.expected_name, parent, found);
            let s1 = bind_bone(s, av, sc.role, found as int);
            lemma_bind_bone_wf(s, av, sc.role, found as int);
            let s2 = if sc.generates_target {
                spawn_target(s1, av, arm, sc.role, sc.ik_chain_length, found as int)
            } else {
                s1
            };
            if sc.generates_target {
                lemma_spawn_target_wf(s1, av, arm, sc.role, sc.ik_chain_length, found as int);
            }
            lemma_apply_children_wf(s2, sc.children, 0, av, arm, found as int);
            lemma_schema_list_size_mono(sc.children, 0, sc.children.len() as int);
        },
    }
}

pub proof fn lemma_apply_children_wf(
    s: Seq<NodeView>,
    cs: Seq<SchemaView>,
    i: int,
    av: int,
    arm: int,
    parent: int,
)
    requires
        seq_wf(s),
        s.len() + schema_tail_size(cs, i) <= usize::MAX,
        0 <= i,
        0 <= av < s.len(),
        0 <= arm < s.len(),
        0 <= parent < s.len(),
    ensures
        apply_children_spec(s, cs, i, av, arm, parent).len() >= s.len(),
        apply_children_spec(s, cs, i, av, arm, parent).len() <= s.len() + schema_tail_size(cs, i),
        seq_wf(apply_children_spec(s, cs, i, av, arm, parent)),
    decreases cs, cs.len() - i,
{
    if 0 <= i < cs.len() {
        lemma_schema_list_size_mono(cs, i, i + 1);
        lemma_schema_list_size_mono(cs, i + 1, cs.len() as int);
        lemma_apply_schema_wf(s, cs[i], av, arm, parent);
        lemma_apply_children_wf(
            apply_schema_spec(s, cs[i], av, arm, parent),
            cs,
            i + 1,
            av,
            arm,
            parent,
        );
    }
}

/// `schema_seq_view` really is the element-wise view of the list.
pub proof fn lemma_schema_seq_view_index(cs: Seq<SchemaNode>, i: int, j: int)
    requires
        0 <= j < i <= cs.len(),
    ensures
        schema_seq_view(cs, i).len() == i,
        schema_seq_view(cs, i)[j] == schema_view(cs[j]),
    decreases i,
{
    lemma_schema_seq_view_len(cs, i - 1);
    if j < i - 1 {
        lemma_schema_seq_view_index(cs, i - 1, j);
    }
}

pub proof fn lemma_schema_seq_view_len(cs: Seq<SchemaNode>, i: int)
    requires
        0 <= i <= cs.len(),
    ensures
        schema_seq_view(cs, i).len() == i,
    decreases i,
{
    if i > 0 {
        lemma_schema_seq_view_len(cs, i - 1);
    }
}

impl Scene {
    /// Searches the descendants of an avatar root for the armature node,
    /// by its exact name.
    pub fn find_armature_entity_id(&self, root: usize) -> (r: Option<usize>)
        requires
            self.wf(),
            root < self@.len(),
        ensures
            r == subtree_search(self@, "Armature"@, root as int),
    {
        let target = "Armature".to_owned();
        self.find_by_name_in_childs(&target, root)
    }

    /// Applies one schema node and, beneath its match, the schema children:
    /// the executable mirror of [`apply_schema_spec`].
    pub fn apply_bone_tree(&mut self, sc: &SchemaNode, av: usize, arm: usize, parent: usize)
        requires
            old(self).wf(),
            av < old(self)@.len(),
            arm < old(self)@.len(),
            parent < old(self)@.len(),
        ensures
            final(self)@ == apply_schema_spec(
                old(self)@,
                schema_view(*sc),
                av as int,
                arm as int,
                parent as int,
            ),
            final(self)@.len() >= old(self)@.len(),
            final(self).wf(),
        decreases *sc,
    {
        let ghost s0 = self@;
        let ghost scv = schema_view(*sc);
        let found_opt = self.find_by_name_in_childs(&sc.expected_name, parent);
        let found: usize = match found_opt {
            None => {
                return ;
            },
            Some(f) => f,
        };
        proof {
            lemma_subtree_search_found(s0, scv.expected_name, parent as int, found);
        }
        self.set_bone(found, sc.role);
        self.push_registry(
            av,
            RegistryEntry { role: sc.role, kind: BindingKind::Bone, node: found },
        );
        proof {
            assert(self@ == bind_bone(s0, av as int, sc.role, found as int));
            lemma_bind_bone_wf(s0, av as int, sc.role, found as int);
        }
        if sc.generates_target {
            let ghost s1 = self@;
            let pos = self.nodes[found].translation;
            let tname = target_node_name(sc.role);
            let tid = self.add_node(arm, tname, pos, Orient { yaw: 0, pitch: 0, roll: 0 });
            self.set_target_role(tid, sc.role);
            self.push_registry(
                av,
                RegistryEntry { role: sc.role, kind: BindingKind::Target, node: tid },
            );
            match sc.ik_chain_length {
                None => {},
                Some(c) => {
                    self.set_ik(
                        found,
                        IkSpec {
                            target: tid,
                            chain_length: c,
                            iterations: 20,
                            pole_target: None,
                            pole_angle: 0,
                            enabled: true,
                        },
                    );
                },
            }
            proof {
                assert(self@ == spawn_target(
                    s1,
                    av as int,
                    arm as int,
                    sc.role,
                    sc.ik_chain_length,
                    found as int,
                ));
            }
        }
        let ghost s2 = self@;
        proof {
            assert(apply_schema_spec(s0, scv, av as int, arm as int, parent as int)
                == apply_children_spec(s2, scv.children, 0, av as int, arm as int, found as int));
        }
        let cs_len = sc.children.len();
        proof {
            lemma_schema_seq_view_len(sc.children@, sc.children@.len() as int);
        }
        let mut i: usize = 0;
        while i < cs_len
            invariant
                self.wf(),
                av < self@.len(),
                arm < self@.len(),
                found < self@.len(),
                s2.len() <= self@.len(),
                scv == schema_view(*sc),
                cs_len == sc.children@.len(),
                i <= cs_len,
                scv.children.len() == cs_len,
                apply_children_spec(s2, scv.children, 0, av as int, arm as int, found as int)
                    == apply_children_spec(
                    self@,
                    scv.children,
                    i as int,
                    av as int,
                    arm as int,
                    found as int,
                ),
            decreases cs_len - i,
        {
            proof {
                lemma_schema_seq_view_index(sc.children@, sc.children@.len() as int, i as int);
            }
            let child = &sc.children[i];
            self.apply_bone_tree(child, av, arm, found);
            i += 1;
        }
        proof {
            assert(apply_children_spec(
                self@,
                scv.children,
                cs_len as int,
                av as int,
                arm as int,
                found as int,
            ) == self@);
        }
    }

    /// One full retargeting pass over the subtree of `root`, triggered when
    /// an avatar marker is attached: locate the armature by name (aborting
    /// without any change when it is missing), bind it as the root bone,
    /// and walk the standard role schema beneath it.
    pub fn retarget(&mut self, root: usize)
        requires
            old(self).wf(),
            root < old(self)@.len(),
        ensures
            final(self)@ == retarget_spec(old(self)@, root as int),
            final(self)@.len() >= old(self)@.len(),
            final(self).wf(),
    {
        let ghost s0 = self@;
        let arm_opt = self.find_armature_entity_id(root);
        let arm: usize = match arm_opt {
            None => {
                return ;
            },
            Some(a) => a,
        };
        proof {
            lemma_subtree_search_found(s0, "Armature"@, root as int, arm);
        }
        self.set_bone(arm, Role::Root);
        self.push_registry(
            root,
            RegistryEntry { role: Role::Root, kind: BindingKind::Bone, node: arm },
        );
        proof {
            assert(self@ == bind_bone(s0, root as int, Role::Root, arm as int));
            lemma_bind_bone_wf(s0, root as int, Role::Root, arm as int);
        }
        let schema = standard_schema();
        self.apply_bone_tree(&schema, root, arm, arm);
    }

    /// Attaches the avatar marker to `root` and immediately runs the
    /// retargeting pass it triggers.
    pub fn attach_avatar(&mut self, root: usize, hips_to_head: i64)
        requires
            old(self).wf(),
            root < old(self)@.len(),
        ensures
            final(self)@ == retarget_spec(
                old(self)@.update(
                    root as int,
                    (NodeView {
                        avatar: Some(
                            crate::scene::AvatarInstance { hips_to_head: hips_to_head },
                        ),
                        ..old(self)@[root as int]
                    }),
                ),
                root as int,
            ),
            final(self).wf(),
    {
        self.set_avatar(root, crate::scene::AvatarInstance { hips_to_head: hips_to_head });
        self.retarget(root);
    }
}

} // verus!
