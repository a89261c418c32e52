//! Plain-data model of the scene graph consumed by the retargeting engine.
//!
//! A scene is a vector of nodes; a node refers to its children by index.
//! Nodes are only ever appended, and a child is always appended after its
//! parent, so every child index is strictly greater than the index of the
//! node that lists it. That ordering is the well-formedness invariant all
//! traversals rely on.

use vstd::prelude::*;

use crate::role::{BindingKind, Role};

verus! {

/// Position, in fixed-point world units.
#[derive(Clone, Copy, Debug, PartialEq, Eq, Structural)]
pub struct Vec3i {
    pub x: i64,
    pub y: i64,
    pub z: i64,
}

/// Orientation as Euler angles, in fixed-point angle units. The yaw
/// component is the rotation about the vertical axis.
#[derive(Clone, Copy, Debug, PartialEq, Eq, Structural)]
pub struct Orient {
    pub yaw: i64,
    pub pitch: i64,
    pub roll: i64,
}

/// Inverse-kinematics constraint attached to a bone node, pointing the
/// solver at a synthetic target node.
#[derive(Clone, Copy, Debug, PartialEq, Eq)]
pub struct IkSpec {
    pub target: usize,
    pub chain_length: u32,
    pub iterations: u32,
    pub pole_target: Option<usize>,
    pub pole_angle: i64,
    pub enabled: bool,
}

/// One entry of the per-avatar role registry: `(role, kind)` resolved to a
/// node index.
#[derive(Clone, Copy, Debug, PartialEq, Eq)]
pub struct RegistryEntry {
    pub role: Role,
    pub kind: BindingKind,
    pub node: usize,
}

/// Reference count of controlled-by claims over one attribute of one node.
#[derive(Clone, Copy, Debug, PartialEq, Eq)]
pub struct ClaimCounter {
    pub attr: u64,
    pub count: u64,
}

/// Marker that a node is an avatar root; its attachment triggers one
/// retargeting pass. Carries the vertical distance from the hips bone to the
/// head target used by pose composition.
#[derive(Clone, Copy, Debug, PartialEq, Eq, Structural)]
pub struct AvatarInstance {
    pub hips_to_head: i64,
}

/// A scene-graph node together with everything the engine may attach to it.
pub struct SceneNode {
    /// Node name; role matching is by exact name.
    pub name: String,
    /// Indices of the children, in declared order.
    pub children: Vec<usize>,
    pub translation: Vec3i,
    pub rotation: Orient,
    /// Bone binding: which role this node fulfils, if any.
    pub bone: Option<Role>,
    /// Set on synthetic target nodes: the role the target drives.
    pub target_role: Option<Role>,
    /// Inverse-kinematics constraint, attached to bound bone nodes of
    /// target-generating roles with a chain length.
    pub ik: Option<IkSpec>,
    /// Avatar marker, present on avatar root nodes.
    pub avatar: Option<AvatarInstance>,
    /// Local-user ownership flag.
    pub local_user: bool,
    /// Role registry, attached to avatar root nodes.
    pub registry: Vec<RegistryEntry>,
    /// Controlled-by claim counters, one per claimed attribute.
    pub claims: Vec<ClaimCounter>,
    /// Attributes currently excluded from inbound sync.
    pub sync_excluded: Vec<u64>,
}

/// Mathematical view of a [`SceneNode`].
pub struct NodeView {
    pub name: Seq<char>,
    pub children: Seq<usize>,
    pub translation: Vec3i,
    pub rotation: Orient,
    pub bone: Option<Role>,
    pub target_role: Option<Role>,
    pub ik: Option<IkSpec>,
    pub avatar: Option<AvatarInstance>,
    pub local_user: bool,
    pub registry: Seq<RegistryEntry>,
    pub claims: Seq<ClaimCounter>,
    pub sync_excluded: Seq<u64>,
}

impl View for SceneNode {
    type V = NodeView;

    open spec fn view(&self) -> NodeView {
        NodeView {
            name: self.name@,
            children: self.children@,
            translation: self.translation,
            rotation: self.rotation,
            bone: self.bone,
            target_role: self.target_role,
            ik: self.ik,
            avatar: self.avatar,
            local_user: self.local_user,
            registry: self.registry@,
            claims: self.claims@,
            sync_excluded: self.sync_excluded@,
        }
    }
}

/// The view of a node freshly added to a scene: no children and nothing
/// attached.
pub open spec fn fresh_node_view(name: Seq<char>, translation: Vec3i, rotation: Orient) -> NodeView {
    NodeView {
        name: name,
        children: Seq::empty(),
        translation: translation,
        rotation: rotation,
        bone: None,
        target_role: None,
        ik: None,
        avatar: None,
        local_user: false,
        registry: Seq::empty(),
        claims: Seq::empty(),
        sync_excluded: Seq::empty(),
    }
}

/// Child indices are in bounds and strictly greater than the index of the
/// listing node, so the child relation is acyclic.
pub open spec fn seq_wf(s: Seq<NodeView>) -> bool {
    forall|i: int, j: int|
        0 <= i < s.len() && 0 <= j < s[i].children.len() ==> i < #[trigger] s[i].children[j]
            && s[i].children[j] < s.len()
}

/// A scene graph: nodes referring to their children by index.
pub struct Scene {
    pub nodes: Vec<SceneNode>,
}

impl View for Scene {
    type V = Seq<NodeView>;

    open spec fn view(&self) -> Seq<NodeView> {
        Seq::new(self.nodes@.len(), |i: int| self.nodes@[i]@)
    }
}

impl Scene {
    pub open spec fn wf(self) -> bool {
        seq_wf(self@)
    }

    pub fn new() -> (s: Scene)
        ensures
            s@ == Seq::<NodeView>::empty(),
            s.wf(),
    {
        let s = Scene { nodes: Vec::new() };
        proof {
            assert(s@ =~= Seq::<NodeView>::empty());
        }
        s
    }

    pub fn len(&self) -> (n: usize)
        ensures
            n == self@.len(),
    {
        self.nodes.len()
    }

    /// Appends a parentless node.
    pub fn add_root(&mut self, name: String, translation: Vec3i, rotation: Orient) -> (id: usize)
        ensures
            id == old(self)@.len(),
            final(self)@ == old(self)@.push(fresh_node_view(name@, translation, rotation)),
            old(self).wf() ==> final(self).wf(),
    {
        let ghost namev = name@;
        let id = self.nodes.len();
        self.nodes.push(
            SceneNode {
                name: name,
                children: Vec::new(),
                translation: translation,
                rotation: rotation,
                bone: None,
                target_role: None,
                ik: None,
                avatar: None,
                local_user: false,
                registry: Vec::new(),
                claims: Vec::new(),
                sync_excluded: Vec::new(),
            },
        );
        proof {
            assert(self@ =~= old(self)@.push(fresh_node_view(namev, translation, rotation)));
            if seq_wf(old(self)@) {
                assert forall|i: int, j: int|
                    0 <= i < self@.len() && 0 <= j < self@[i].children.len() implies i
                    < #[trigger] self@[i].children[j] && self@[i].children[j] < self@.len() by {
                    if i < old(self)@.len() {
                        assert(self@[i] == old(self)@[i]);
                        assert(i < old(self)@[i].children[j] && old(self)@[i].children[j]
                            < old(self)@.len());
                    }
                }
            }
        }
        id
    }

    /// Appends a node as the last child of `parent`.
    pub fn add_node(&mut self, parent: usize, name: String, translation: Vec3i, rotation: Orient) -> (id: usize)
        requires
            parent < old(self)@.len(),
        ensures
            id == old(self)@.len(),
            final(self)@ == old(self)@.update(
                parent as int,
                (NodeView {
                    children: old(self)@[parent as int].children.push(id),
                    ..old(self)@[parent as int]
                }),
            ).push(fresh_node_view(name@, translation, rotation)),
            old(self).wf() ==> final(self).wf(),
    {
        let ghost namev = name@;
        let id = self.nodes.len();
        self.nodes.push(
            SceneNode {
                name: name,
                children: Vec::new(),
                translation: translation,
                rotation: rotation,
                bone: None,
                target_role: None,
                ik: None,
                avatar: None,
                local_user: false,
                registry: Vec::new(),
                claims: Vec::new(),
                sync_excluded: Vec::new(),
            },
        );
        self.nodes[parent].children.push(id);
        proof {
            let target = old(self)@.update(
                parent as int,
                (NodeView {
                    children: old(self)@[parent as int].children.push(id),
                    ..old(self)@[parent as int]
                }),
            ).push(fresh_node_view(namev, translation, rotation));
            assert(self@ =~= target);
            if seq_wf(old(self)@) {
                assert forall|i: int, j: int|
                    0 <= i < self@.len() && 0 <= j < self@[i].children.len() implies i
                    < #[trigger] self@[i].children[j] && self@[i].children[j] < self@.len() by {
                    if i < old(self)@.len() {
                        if i == parent as int && j == old(self)@[i].children.len() {
                            assert(self@[i].children[j] == id);
                        } else {
                            assert(self@[i].children[j] == old(self)@[i].children[j]);
                        }
                    }
                }
            }
        }
        id
    }

    pub fn set_bone(&mut self, i: usize, role: Role)
        requires
            i < old(self)@.len(),
        ensures
            final(self)@ == old(self)@.update(i as int, (NodeView { bone: Some(role), ..old(self)@[i as int] })),
            old(self).wf() ==> final(self).wf(),
    {
        self.nodes[i].bone = Some(role);
        proof {
            assert(self@ =~= old(self)@.update(
                i as int,
                (NodeView { bone: Some(role), ..old(self)@[i as int] }),
            ));
            lemma_seq_wf_same_children(old(self)@, self@);
        }
    }

    pub fn set_target_role(&mut self, i: usize, role: Role)
        requires
            i < old(self)@.len(),
        ensures
            final(self)@ == old(self)@.update(
                i as int,
                (NodeView { target_role: Some(role), ..old(self)@[i as int] }),
            ),
            old(self).wf() ==> final(self).wf(),
    {
        self.nodes[i].target_role = Some(role);
        proof {
            assert(self@ =~= old(self)@.update(
                i as int,
                (NodeView { target_role: Some(role), ..old(self)@[i as int] }),
            ));
            lemma_seq_wf_same_children(old(self)@, self@);
        }
    }

    pub fn set_ik(&mut self, i: usize, ik: IkSpec)
        requires
            i < old(self)@.len(),
        ensures
            final(self)@ == old(self)@.update(i as int, (NodeView { ik: Some(ik), ..old(self)@[i as int] })),
            old(self).wf() ==> final(self).wf(),
    {
        self.nodes[i].ik = Some(ik);
        proof {
            assert(self@ =~= old(self)@.update(
                i as int,
                (NodeView { ik: Some(ik), ..old(self)@[i as int] }),
            ));
            lemma_seq_wf_same_children(old(self)@, self@);
        }
    }

    pub fn set_avatar(&mut self, i: usize, avatar: AvatarInstance)
        requires
            i < old(self)@.len(),
        ensures
            final(self)@ == old(self)@.update(
                i as int,
                (NodeView { avatar: Some(avatar), ..old(self)@[i as int] }),
            ),
            old(self).wf() ==> final(self).wf(),
    {
        self.nodes[i].avatar = Some(avatar);
        proof {
            assert(self@ =~= old(self)@.update(
                i as int,
                (NodeView { avatar: Some(avatar), ..old(self)@[i as int] }),
            ));
            lemma_seq_wf_same_children(old(self)@, self@);
        }
    }

    pub fn set_local_user(&mut self, i: usize, flag: bool)
        requires
            i < old(self)@.len(),
        ensures
            final(self)@ == old(self)@.update(
                i as int,
                (NodeView { local_user: flag, ..old(self)@[i as int] }),
            ),
            old(self).wf() ==> final(self).wf(),
    {
        self.nodes[i].local_user = flag;
        proof {
            assert(self@ =~= old(self)@.update(
                i as int,
                (NodeView { local_user: flag, ..old(self)@[i as int] }),
            ));
            lemma_seq_wf_same_children(old(self)@, self@);
        }
    }

    pub fn set_translation(&mut self, i: usize, translation: Vec3i)
        requires
            i < old(self)@.len(),
        ensures
            final(self)@ == old(self)@.update(
                i as int,
                (NodeView { translation: translation, ..old(self)@[i as int] }),
            ),
            old(self).wf() ==> final(self).wf(),
    {
        self.nodes[i].translation = translation;
        proof {
            assert(self@ =~= old(self)@.update(
                i as int,
                (NodeView { translation: translation, ..old(self)@[i as int] }),
            ));
            lemma_seq_wf_same_children(old(self)@, self@);
        }
    }

    pub fn set_rotation(&mut self, i: usize, rotation: Orient)
        requires
            i < old(self)@.len(),
        ensures
            final(self)@ == old(self)@.update(
                i as int,
                (NodeView { rotation: rotation, ..old(self)@[i as int] }),
            ),
            old(self).wf() ==> final(self).wf(),
    {
        self.nodes[i].rotation = rotation;
        proof {
            assert(self@ =~= old(self)@.update(
                i as int,
                (NodeView { rotation: rotation, ..old(self)@[i as int] }),
            ));
            lemma_seq_wf_same_children(old(self)@, self@);
        }
    }

    pub fn push_registry(&mut self, i: usize, entry: RegistryEntry)
        requires
            i < old(self)@.len(),
        ensures
            final(self)@ == old(self)@.update(
                i as int,
                (NodeView {
                    registry: old(self)@[i as int].registry.push(entry),
                    ..old(self)@[i as int]
                }),
            ),
            old(self).wf() ==> final(self).wf(),
    {
        self.nodes[i].registry.push(entry);
        proof {
            assert(self@ =~= old(self)@.update(
                i as int,
                (NodeView {
                    registry: old(self)@[i as int].registry.push(entry),
                    ..old(self)@[i as int]
                }),
            ));
            lemma_seq_wf_same_children(old(self)@, self@);
        }
    }
}

/// Two equally long scenes whose nodes list the same children are equally
/// well-formed.
pub proof fn lemma_seq_wf_same_children(s1: Seq<NodeView>, s2: Seq<NodeView>)
    requires
        s1.len() == s2.len(),
        forall|i: int| 0 <= i < s1.len() ==> s1[i].children == #[trigger] s2[i].children,
    ensures
        seq_wf(s1) ==> seq_wf(s2),
{
    if seq_wf(s1) {
        assert forall|i: int, j: int|
            0 <= i < s2.len() && 0 <= j < s2[i].children.len() implies i
            < #[trigger] s2[i].children[j] && s2[i].children[j] < s2.len() by {
            assert(s1[i].children == s2[i].children);
            assert(i < s1[i].children[j] && s1[i].children[j] < s1.len());
        }
    }
}

/// First registry entry for `(role, kind)` at or after position `i`.
pub open spec fn reg_lookup_from(
    reg: Seq<RegistryEntry>,
    role: Role,
    kind: BindingKind,
    i: int,
) -> Option<usize>
    decreases reg.len() - i
        when 0 <= i <= reg.len()
{
    if i >= reg.len() {
        None
    } else if reg[i].role == role && reg[i].kind == kind {
        Some(reg[i].node)
    } else {
        reg_lookup_from(reg, role, kind, i + 1)
    }
}

/// Node recorded in the registry for `(role, kind)`: the first matching
/// entry, if any.
pub open spec fn reg_lookup(reg: Seq<RegistryEntry>, role: Role, kind: BindingKind) -> Option<usize> {
    reg_lookup_from(reg, role, kind, 0)
}

impl Scene {
    /// Looks `(role, kind)` up in the registry attached to `root`.
    pub fn registry_lookup(&self, root: usize, role: Role, kind: BindingKind) -> (r: Option<usize>)
        requires
            root < self@.len(),
        ensures
            r == reg_lookup(self@[root as int].registry, role, kind),
    {
        let reg = &self.nodes[root].registry;
        let ghost regv = self@[root as int].registry;
        let mut j: usize = 0;
        while j < reg.len()
            invariant
                root < self@.len(),
                regv == self@[root as int].registry,
                reg@ == regv,
                0 <= j <= regv.len(),
                reg_lookup(regv, role, kind) == reg_lookup_from(regv, role, kind, j as int),
            decreases regv.len() - j,
        {
            let e = reg[j];
            if e.role == role && e.kind == kind {
                return Some(e.node);
            }
            j += 1;
        }
        None
    }
}

} // verus!
