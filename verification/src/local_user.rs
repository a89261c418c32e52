//! Local-user ownership propagation: the avatar root's local-user flag is
//! mirrored onto the registry-referenced nodes of the tracked roles — the
//! root bone and the head, hand and foot targets.

use vstd::prelude::*;

use crate::role::{
    spec_local_user_tracked, spec_tracked_kind, BindingKind, Role,
};
use crate::scene::{reg_lookup, NodeView, RegistryEntry, Scene};

verus! {

/// Node `j` is reachable from the registry through one of the tracked
/// roles, so its local-user flag mirrors the avatar root's.
pub open spec fn is_tracked_node(reg: Seq<RegistryEntry>, j: usize) -> bool {
    exists|role: Role|
        spec_local_user_tracked(role) && #[trigger] reg_lookup(reg, role, spec_tracked_kind(role))
            == Some(j)
}

impl Scene {
    /// Looks one tracked role up in the registry of `root` and writes the
    /// flag onto the referenced node when it exists. Missing registry
    /// entries and dangling references are skipped silently.
    fn propagate_tracked(&mut self, root: usize, role: Role, flag: bool)
        requires
            root < old(self)@.len(),
        ensures
            final(self)@.len() == old(self)@.len(),
            ({
                let looked = reg_lookup(
                    old(self)@[root as int].registry,
                    role,
                    spec_tracked_kind(role),
                );
                match looked {
                    Some(id) => {
                        if id < old(self)@.len() {
                            final(self)@ == old(self)@.update(
                                id as int,
                                (NodeView { local_user: flag, ..old(self)@[id as int] }),
                            )
                        } else {
                            final(self)@ == old(self)@
                        }
                    },
                    None => final(self)@ == old(self)@,
                }
            }),
    {
        let kind = if matches!(role, Role::Root) {
            BindingKind::Bone
        } else {
            BindingKind::Target
        };
        proof {
            assert(kind == spec_tracked_kind(role));
        }
        let looked = self.registry_lookup(root, role, kind);
        match looked {
            None => {},
            Some(id) => {
                if id < self.nodes.len() {
                    self.set_local_user(id, flag);
                }
            },
        }
    }

    /// Writes `flag` onto every node of the scene that the registry of
    /// `root` tracks for local-user propagation, leaving everything else
    /// unchanged.
    fn propagate_local_user(&mut self, root: usize, flag: bool)
        requires
            root < old(self)@.len(),
        ensures
            final(self)@.len() == old(self)@.len(),
            forall|j: int|
                0 <= j < old(self)@.len() ==> final(self)@[j] == (NodeView {
                    local_user: if is_tracked_node(old(self)@[root as int].registry, j as usize) {
                        flag
                    } else {
                        old(self)@[j].local_user
                    },
                    ..old(self)@[j]
                }),
            old(self).wf() ==> final(self).wf(),
    {
        let ghost s0 = self@;
        let ghost reg = self@[root as int].registry;
        let total = self.len();
        proof {
            assert(s0.len() == total);
        }
        let roles: [Role; 6] = [
            Role::Root,
            Role::Head,
            Role::HandL,
            Role::HandR,
            Role::FootL,
            Role::FootR,
        ];
        let mut i: usize = 0;
        while i < 6
            invariant
                root < self@.len(),
                self@.len() == s0.len(),
                s0.len() <= usize::MAX,
                s0 == old(self)@,
                reg == s0[root as int].registry,
                roles@ =~= seq![
                    Role::Root,
                    Role::Head,
                    Role::HandL,
                    Role::HandR,
                    Role::FootL,
                    Role::FootR,
                ],
                i <= 6,
                self@[root as int].registry == reg,
                forall|j: int|
                    0 <= j < s0.len() ==> self@[j] == (NodeView {
                        local_user: self@[j].local_user,
                        ..s0[j]
                    }),
                forall|j: int|
                    0 <= j < s0.len() ==> if (exists|q: int|
                        0 <= q < i && spec_local_user_tracked(roles@[q])
                            && #[trigger] reg_lookup(
                            reg,
                            roles@[q],
                            spec_tracked_kind(roles@[q]),
                        ) == Some(j as usize)) {
                        self@[j].local_user == flag
                    } else {
                        self@[j].local_user == s0[j].local_user
                    },
            decreases 6 - i,
        {
            let role = roles[i];
            proof {
                assert(role == roles@[i as int]);
                assert(spec_local_user_tracked(role));
            }
            let ghost sprev = self@;
            self.propagate_tracked(root, role, flag);
            proof {
                let looked = reg_lookup(reg, role, spec_tracked_kind(role));
                assert forall|j: int|
                    0 <= j < s0.len() implies (self@[j].local_user == if (exists|q: int|
                    0 <= q < i + 1 && spec_local_user_tracked(roles@[q])
                        && #[trigger] reg_lookup(reg, roles@[q], spec_tracked_kind(roles@[q]))
                        == Some(j as usize)) {
                    flag
                } else {
                    s0[j].local_user
                }) by {
                    if exists|q: int|
                        0 <= q < i + 1 && spec_local_user_tracked(roles@[q])
                            && #[trigger] reg_lookup(reg, roles@[q], spec_tracked_kind(roles@[q]))
                            == Some(j as usize) {
                        let q = choose|q: int|
                            0 <= q < i + 1 && spec_local_user_tracked(roles@[q])
                                && #[trigger] reg_lookup(
                                reg,
                                roles@[q],
                                spec_tracked_kind(roles@[q]),
                            ) == Some(j as usize);
                        if q == i {
                            assert(looked == Some(j as usize));
                            assert(reg_lookup(
                                sprev[root as int].registry,
                                role,
                                spec_tracked_kind(role),
                            ) == Some(j as usize));
                            assert((j as usize) < sprev.len());
                            assert(self@ == sprev.update(
                                j,
                                (NodeView { local_user: flag, ..sprev[j] }),
                            ));
                            assert(self@[j].local_user == flag);
                        } else {
                            assert(sprev[j].local_user == flag);
                        }
                    } else {
                        assert(!(exists|q: int|
                            0 <= q < i && spec_local_user_tracked(roles@[q])
                                && #[trigger] reg_lookup(
                                reg,
                                roles@[q],
                                spec_tracked_kind(roles@[q]),
                            ) == Some(j as usize)));
                        assert(sprev[j].local_user == s0[j].local_user);
                        assert(looked != Some(j as usize));
                    }
                }
            }
            i += 1;
        }
        proof {
            assert forall|j: int| 0 <= j < s0.len() implies self@[j] == (NodeView {
                local_user: if is_tracked_node(s0[root as int].registry, j as usize) {
                    flag
                } else {
                    s0[j].local_user
                },
                ..s0[j]
            }) by {
                if is_tracked_node(reg, j as usize) {
                    let role = choose|role: Role|
                        spec_local_user_tracked(role) && #[trigger] reg_lookup(
                            reg,
                            role,
                            spec_tracked_kind(role),
                        ) == Some(j as usize);
                    let q: int = match role {
                        Role::Root => 0,
                        Role::Head => 1,
                        Role::HandL => 2,
                        Role::HandR => 3,
                        Role::FootL => 4,
                        _ => 5,
                    };
                    assert(roles@[q] == role);
                } else {
                    assert forall|q: int| 0 <= q < 6 implies !(spec_local_user_tracked(roles@[q])
                        && reg_lookup(reg, roles@[q], spec_tracked_kind(roles@[q])) == Some(
                        j as usize,
                    )) by {
                        if spec_local_user_tracked(roles@[q]) && reg_lookup(
                            reg,
                            roles@[q],
                            spec_tracked_kind(roles@[q]),
                        ) == Some(j as usize) {
                            assert(is_tracked_node(reg, j as usize));
                        }
                    }
                }
            }
            crate::scene::lemma_seq_wf_same_children(s0, self@);
        }
    }

    /// Reaction to the local-user flag appearing on an avatar root: the
    /// flag is attached to the root and propagated onto the tracked
    /// registry nodes. Roles never bound are skipped silently.
    pub fn local_user_enters(&mut self, root: usize)
        requires
            root < old(self)@.len(),
        ensures
            final(self)@.len() == old(self)@.len(),
            final(self)@[root as int].local_user,
            forall|j: int|
                0 <= j < old(self)@.len() ==> final(self)@[j] == (NodeView {
                    local_user: if j == root as int || is_tracked_node(
                        old(self)@[root as int].registry,
                        j as usize,
                    ) {
                        true
                    } else {
                        old(self)@[j].local_user
                    },
                    ..old(self)@[j]
                }),
            (forall|j: int| 0 <= j < old(self)@.len() ==> !(#[trigger] old(self)@[j]).local_user)
                ==> forall|j: int|
                0 <= j < old(self)@.len() ==> ((#[trigger] final(self)@[j]).local_user <==> (j
                    == root as int || is_tracked_node(
                    old(self)@[root as int].registry,
                    j as usize,
                ))),
            old(self).wf() ==> final(self).wf(),
    {
        let ghost s0 = self@;
        self.set_local_user(root, true);
        proof {
            assert(self@[root as int].registry == s0[root as int].registry);
        }
        self.propagate_local_user(root, true);
    }

    /// Reaction to the local-user flag being removed from an avatar root:
    /// the flag is removed from the root and from the tracked registry
    /// nodes.
    pub fn local_user_exits(&mut self, root: usize)
        requires
            root < old(self)@.len(),
        ensures
            final(self)@.len() == old(self)@.len(),
            !final(self)@[root as int].local_user,
            forall|j: int|
                0 <= j < old(self)@.len() ==> final(self)@[j] == (NodeView {
                    local_user: if j == root as int || is_tracked_node(
                        old(self)@[root as int].registry,
                        j as usize,
                    ) {
                        false
                    } else {
                        old(self)@[j].local_user
                    },
                    ..old(self)@[j]
                }),
            (forall|j: int|
                0 <= j < old(self)@.len() ==> ((#[trigger] old(self)@[j]).local_user ==> j
                    == root as int || is_tracked_node(
                    old(self)@[root as int].registry,
                    j as usize,
                ))) ==> forall|j: int|
                0 <= j < old(self)@.len() ==> !(#[trigger] final(self)@[j]).local_user,
            old(self).wf() ==> final(self).wf(),
    {
        let ghost s0 = self@;
        self.set_local_user(root, false);
        proof {
            assert(self@[root as int].registry == s0[root as int].registry);
        }
        self.propagate_local_user(root, false);
    }
}

/// Law: whatever node the registry records for a tracked role is mirrored
/// by local-user propagation — attaching the flag to the avatar root marks
/// it, removing the flag clears it, as the contracts of
/// [`Scene::local_user_enters`] and [`Scene::local_user_exits`] state over
/// [`is_tracked_node`].
pub proof fn law_tracked_role_node_is_tracked(reg: Seq<RegistryEntry>, role: Role, t: usize)
    requires
        spec_local_user_tracked(role),
        reg_lookup(reg, role, spec_tracked_kind(role)) == Some(t),
    ensures
        is_tracked_node(reg, t),
{
}

} // verus!
