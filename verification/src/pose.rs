//! Live pose composition, run once per tick: first the cosmetic head
//! rotation copy, then the hips orientation derived from the head target.

use vstd::prelude::*;

use crate::role::{BindingKind, Role};
use crate::scene::{reg_lookup, NodeView, Orient, Scene, Vec3i};

verus! {

/// One head-copy step: when node `j` is a head bone carrying an
/// inverse-kinematics constraint whose target is a head target node (and
/// not itself a head bone), only `j`'s rotation is replaced by the
/// target's; in every other case the scene is unchanged.
pub open spec fn head_copy_step(s: Seq<NodeView>, j: int) -> Seq<NodeView> {
    match (s[j].bone, s[j].ik) {
        (Some(Role::Head), Some(k)) => {
            if k.target < s.len() && s[k.target as int].target_role == Some(Role::Head) && s[
                k.target as int
            ].bone != Some(Role::Head) {
                s.update(j, (NodeView { rotation: s[k.target as int].rotation, ..s[j] }))
            } else {
                s
            }
        },
        _ => s,
    }
}

/// Head-copy steps applied to the nodes `0 .. i`, in index order.
pub open spec fn head_copy_upto(s: Seq<NodeView>, i: int) -> Seq<NodeView>
    decreases i,
{
    if i <= 0 {
        s
    } else {
        head_copy_step(head_copy_upto(s, i - 1), i - 1)
    }
}

/// One hips-orientation step for a candidate avatar root `a`: when `a`
/// carries the avatar marker and its registry resolves both the hips bone
/// and the head target to live nodes, the hips bone takes a yaw-only copy
/// of the head target's rotation, and the head target's translation with
/// the avatar's hips-to-head distance subtracted from the vertical
/// component. A step whose subtraction would leave the machine integer
/// range is skipped like a missing registry entry.
pub open spec fn orient_step(s: Seq<NodeView>, a: int) -> Seq<NodeView> {
    match s[a].avatar {
        None => s,
        Some(av) => {
            let hips = reg_lookup(s[a].registry, Role::Hips, BindingKind::Bone);
            let head = reg_lookup(s[a].registry, Role::Head, BindingKind::Target);
            match (hips, head) {
                (Some(h), Some(ht)) => {
                    if h < s.len() && ht < s.len() && s[h as int].bone == Some(Role::Hips) && s[
                        ht as int
                    ].target_role == Some(Role::Head) && s[ht as int].bone != Some(Role::Hips)
                        && i64::MIN <= s[ht as int].translation.y - av.hips_to_head <= i64::MAX {
                        s.update(
                            h as int,
                            (NodeView {
                                rotation: Orient {
                                    yaw: s[ht as int].rotation.yaw,
                                    pitch: 0,
                                    roll: 0,
                                },
                                translation: Vec3i {
                                    x: s[ht as int].translation.x,
                                    y: (s[ht as int].translation.y - av.hips_to_head) as i64,
                                    z: s[ht as int].translation.z,
                                },
                                ..s[h as int]
                            }),
                        )
                    } else {
                        s
                    }
                },
                _ => s,
            }
        },
    }
}

/// Hips-orientation steps applied to the nodes `0 .. i`, in index order.
pub open spec fn orient_upto(s: Seq<NodeView>, i: int) -> Seq<NodeView>
    decreases i,
{
    if i <= 0 {
        s
    } else {
        orient_step(orient_upto(s, i - 1), i - 1)
    }
}

proof fn lemma_head_copy_frame(s: Seq<NodeView>, i: int)
    requires
        i <= s.len(),
    ensures
        head_copy_upto(s, i).len() == s.len(),
        forall|j: int|
            0 <= j < s.len() ==> #[trigger] head_copy_upto(s, i)[j].children == s[j].children,
    decreases i,
{
    if i > 0 {
        lemma_head_copy_frame(s, i - 1);
        let base = head_copy_upto(s, i - 1);
        assert(head_copy_upto(s, i) == head_copy_step(base, i - 1));
        assert forall|j: int|
            0 <= j < s.len() implies #[trigger] head_copy_upto(s, i)[j].children
            == s[j].children by {
            assert(base[j].children == s[j].children);
        }
    }
}

proof fn lemma_orient_frame(s: Seq<NodeView>, i: int)
    requires
        i <= s.len(),
    ensures
        orient_upto(s, i).len() == s.len(),
        forall|j: int|
            0 <= j < s.len() ==> #[trigger] orient_upto(s, i)[j].children == s[j].children,
    decreases i,
{
    if i > 0 {
        lemma_orient_frame(s, i - 1);
        let base = orient_upto(s, i - 1);
        assert(orient_upto(s, i) == orient_step(base, i - 1));
        assert forall|j: int|
            0 <= j < s.len() implies #[trigger] orient_upto(s, i)[j].children == s[j].children by {
            assert(base[j].children == s[j].children);
        }
    }
}

impl Scene {
    /// Cosmetic per-tick copy: every head bone with an inverse-kinematics
    /// constraint takes the rotation of its head target node, translation
    /// untouched.
    pub fn copy_rotation_target_head(&mut self)
        ensures
            final(self)@ == head_copy_upto(old(self)@, old(self)@.len() as int),
            final(self)@.len() == old(self)@.len(),
            old(self).wf() ==> final(self).wf(),
    {
        let ghost s0 = self@;
        let n = self.len();
        let mut i: usize = 0;
        while i < n
            invariant
                n == s0.len(),
                self@ == head_copy_upto(s0, i as int),
                self@.len() == s0.len(),
                i <= n,
            decreases n - i,
        {
            let ghost sprev = self@;
            let is_head = match self.nodes[i].bone {
                Some(Role::Head) => true,
                _ => false,
            };
            if is_head {
                match self.nodes[i].ik {
                    None => {},
                    Some(k) => {
                        let tid = k.target;
                        if tid < n {
                            let src_ok = match (self.nodes[tid].target_role, self.nodes[tid].bone) {
                                (Some(Role::Head), Some(Role::Head)) => false,
                                (Some(Role::Head), _) => true,
                                _ => false,
                            };
                            if src_ok {
                                let rot = self.nodes[tid].rotation;
                                self.set_rotation(i, rot);
                            }
                        }
                    },
                }
            }
            proof {
                assert(self@ == head_copy_step(sprev, i as int));
            }
            i += 1;
        }
        proof {
            lemma_head_copy_frame(s0, n as int);
            crate::scene::lemma_seq_wf_same_children(s0, self@);
        }
    }

    /// Per-tick hips derivation: for every avatar, the hips bone takes a
    /// yaw-only orientation from the head target and the head target's
    /// translation lowered by the avatar's hips-to-head distance. Avatars
    /// whose hips bone or head target is missing are skipped for the tick.
    pub fn orient_hips_to_head(&mut self)
        ensures
            final(self)@ == orient_upto(old(self)@, old(self)@.len() as int),
            final(self)@.len() == old(self)@.len(),
            old(self).wf() ==> final(self).wf(),
    {
        let ghost s0 = self@;
        let n = self.len();
        let mut i: usize = 0;
        while i < n
            invariant
                n == s0.len(),
                self@ == orient_upto(s0, i as int),
                self@.len() == s0.len(),
                i <= n,
            decreases n - i,
        {
            let ghost sprev = self@;
            let av = self.nodes[i].avatar;
            match av {
                None => {},
                Some(inst) => {
                    let hips = self.registry_lookup(i, Role::Hips, BindingKind::Bone);
                    let head = self.registry_lookup(i, Role::Head, BindingKind::Target);
                    match (hips, head) {
                        (Some(h), Some(ht)) => {
                            if h < n && ht < n {
                                let hips_ok = match self.nodes[h].bone {
                                    Some(Role::Hips) => true,
                                    _ => false,
                                };
                                let head_ok = match (
                                    self.nodes[ht].target_role,
                                    self.nodes[ht].bone,
                                ) {
                                    (Some(Role::Head), Some(Role::Hips)) => false,
                                    (Some(Role::Head), _) => true,
                                    _ => false,
                                };
                                if hips_ok && head_ok {
                                    let head_tf = self.nodes[ht].translation;
                                    let head_rot = self.nodes[ht].rotation;
                                    match head_tf.y.checked_sub(inst.hips_to_head) {
                                        None => {},
                                        Some(y) => {
                                            self.set_rotation(
                                                h,
                                                Orient { yaw: head_rot.yaw, pitch: 0, roll: 0 },
                                            );
                                            self.set_translation(
                                                h,
                                                Vec3i { x: head_tf.x, y: y, z: head_tf.z },
                                            );
                                        },
                                    }
                                }
                            }
                        },
                        _ => {},
                    }
                },
            }
            proof {
                assert(self@ =~= orient_step(sprev, i as int));
            }
            i += 1;
        }
        proof {
            lemma_orient_frame(s0, n as int);
            crate::scene::lemma_seq_wf_same_children(s0, self@);
        }
    }

    /// One pose-composition tick: the head rotation copy strictly precedes
    /// the hips orientation pass.
    pub fn pose_tick(&mut self)
        ensures
            final(self)@ == orient_upto(
                head_copy_upto(old(self)@, old(self)@.len() as int),
                old(self)@.len() as int,
            ),
            final(self)@.len() == old(self)@.len(),
            old(self).wf() ==> final(self).wf(),
    {
        self.copy_rotation_target_head();
        self.orient_hips_to_head();
    }
}

} // verus!
