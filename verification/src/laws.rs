//! Properties of the retargeting pass, stated and proved over the
//! specification-level scene: what one pass records in the registry, how
//! bone bindings, target nodes and constraints relate, and what a missing
//! structural node leaves untouched.

use vstd::prelude::*;

use crate::role::{spec_target_name, BindingKind, Role};
use crate::scene::{reg_lookup, reg_lookup_from, seq_wf, NodeView, RegistryEntry};
use crate::schema::SchemaView;
use crate::search::{in_subtree, lemma_subtree_search_found, subtree_search};
use crate::retarget::{
    apply_children_spec, apply_schema_spec, bind_bone, retarget_spec, schema_size, spawn_target,
};

verus! {

/// A scene no retargeting pass has touched: no bone bindings, no target
/// nodes, no constraints, and empty registries everywhere.
pub open spec fn pristine(s: Seq<NodeView>) -> bool {
    forall|i: int|
        0 <= i < s.len() ==> (#[trigger] s[i]).bone is None && s[i].target_role is None
            && s[i].ik is None && s[i].registry.len() == 0
}

/// Law: a rig without an `Armature` descendant is left exactly as it was —
/// the pass aborts before creating any binding, and on a pristine scene
/// every registry therefore stays empty.
pub proof fn law_missing_armature(s: Seq<NodeView>, root: int)
    requires
        seq_wf(s),
        0 <= root < s.len(),
        forall|i: int| in_subtree(s, root, i) ==> (#[trigger] s[i]).name != "Armature"@,
    ensures
        retarget_spec(s, root) == s,
{
    match subtree_search(s, "Armature"@, root) {
        None => {},
        Some(arm) => {
            lemma_subtree_search_found(s, "Armature"@, root, arm);
        },
    }
}

/// Law: a schema node whose expected name has no match beneath its parent
/// is skipped together with its whole subtree of roles — the scene is
/// returned unchanged, so none of those roles is bound.
pub proof fn law_missing_role_skips_subtree(
    s: Seq<NodeView>,
    sc: SchemaView,
    av: int,
    arm: int,
    parent: int,
)
    requires
        seq_wf(s),
        0 <= parent < s.len(),
        forall|i: int| in_subtree(s, parent, i) ==> (#[trigger] s[i]).name != sc.expected_name,
    ensures
        apply_schema_spec(s, sc, av, arm, parent) == s,
{
    match subtree_search(s, sc.expected_name, parent) {
        None => {},
        Some(found) => {
            lemma_subtree_search_found(s, sc.expected_name, parent, found);
        },
    }
}

/// Roles bound anywhere within a schema subtree.
pub open spec fn schema_roles(sc: SchemaView) -> Set<Role>
    decreases sc, 0int,
{
    roles_from(sc.children, 0).insert(sc.role)
}

/// Roles of the schema children from position `i` on.
pub open spec fn roles_from(cs: Seq<SchemaView>, i: int) -> Set<Role>
    decreases cs, cs.len() - i,
{
    if i < 0 || i >= cs.len() {
        Set::empty()
    } else {
        roles_from(cs, i + 1).union(schema_roles(cs[i]))
    }
}

/// Expected names anywhere within a schema subtree.
pub open spec fn schema_names(sc: SchemaView) -> Set<Seq<char>>
    decreases sc, 0int,
{
    names_from(sc.children, 0).insert(sc.expected_name)
}

/// Expected names of the schema children from position `i` on.
pub open spec fn names_from(cs: Seq<SchemaView>, i: int) -> Set<Seq<char>>
    decreases cs, cs.len() - i,
{
    if i < 0 || i >= cs.len() {
        Set::empty()
    } else {
        names_from(cs, i + 1).union(schema_names(cs[i]))
    }
}

/// A schema a pass can be reasoned about: every role and every expected
/// name occurs once, and no expected name collides with the name given to
/// a synthetic target node.
pub open spec fn schema_wf(sc: SchemaView) -> bool
    decreases sc, 0int,
{
    &&& !roles_from(sc.children, 0).contains(sc.role)
    &&& !names_from(sc.children, 0).contains(sc.expected_name)
    &&& forall|r: Role| sc.expected_name != spec_target_name(r)
    &&& children_wf(sc.children, 0)
}

pub open spec fn children_wf(cs: Seq<SchemaView>, i: int) -> bool
    decreases cs, cs.len() - i,
{
    if i < 0 || i >= cs.len() {
        true
    } else {
        &&& schema_wf(cs[i])
        &&& schema_roles(cs[i]).disjoint(roles_from(cs, i + 1))
        &&& schema_names(cs[i]).disjoint(names_from(cs, i + 1))
        &&& children_wf(cs, i + 1)
    }
}

/// The bone binding of node `j` and its constraint agree with the
/// registry: a bound bone with a constraint points it at the node the
/// registry records as the role's target.
pub open spec fn ik_consistent_at(s: Seq<NodeView>, reg: Seq<RegistryEntry>, j: int) -> bool {
    match (s[j].bone, s[j].ik) {
        (Some(role), Some(k)) => reg_lookup(reg, role, BindingKind::Target) == Some(k.target)
            && k.target < s.len(),
        (None, Some(k)) => false,
        _ => true,
    }
}

/// No `(role, kind)` pair is recorded twice.
pub open spec fn no_dup_pairs(reg: Seq<RegistryEntry>) -> bool {
    forall|x: int, y: int|
        0 <= x < y < reg.len() ==> !((#[trigger] reg[x]).role == (#[trigger] reg[y]).role
            && reg[x].kind == reg[y].kind)
}

/// Invariant of a half-finished pass over avatar root `av`, with `bound`
/// the set of expected names already matched: registry pairs are unique
/// and point at live nodes; target entries point at synthetic target nodes
/// which never carry a bone binding; bone entries point at nodes bound to
/// that role; bones stand only on nodes whose name was matched; and every
/// constraint points at the registry's target for its bone's role.
pub open spec fn consistent(s: Seq<NodeView>, av: int, bound: Set<Seq<char>>) -> bool {
    let reg = s[av].registry;
    &&& no_dup_pairs(reg)
    &&& forall|e: int| 0 <= e < reg.len() ==> (#[trigger] reg[e]).node < s.len()
    &&& forall|e: int|
        0 <= e < reg.len() && (#[trigger] reg[e]).kind is Target ==> s[reg[e].node as int]
            .target_role == Some(reg[e].role) && s[reg[e].node as int].bone is None && s[
        reg[e].node as int].name == spec_target_name(reg[e].role)
    &&& forall|e: int|
        0 <= e < reg.len() && (#[trigger] reg[e]).kind is Bone ==> s[reg[e].node as int].bone
            == Some(reg[e].role)
    &&& forall|j: int|
        0 <= j < s.len() && (#[trigger] s[j]).bone is Some ==> bound.contains(s[j].name)
    &&& forall|j: int| 0 <= j < s.len() ==> #[trigger] ik_consistent_at(s, reg, j)
}

/// Consistency survives widening the set of matched names.
pub proof fn lemma_consistent_widen(s: Seq<NodeView>, av: int, b1: Set<Seq<char>>, b2: Set<
    Seq<char>,
>)
    requires
        consistent(s, av, b1),
        b1.subset_of(b2),
    ensures
        consistent(s, av, b2),
{
    assert forall|j: int|
        0 <= j < s.len() && (#[trigger] s[j]).bone is Some implies b2.contains(s[j].name) by {
        assert(b1.contains(s[j].name));
    }
}

/// Registry lookups are stable under appending an entry: an existing hit
/// stays, a miss is answered by the new entry alone.
pub proof fn lemma_reg_lookup_push(
    reg: Seq<RegistryEntry>,
    e: RegistryEntry,
    role: Role,
    kind: BindingKind,
    q: int,
)
    requires
        0 <= q <= reg.len(),
    ensures
        reg_lookup_from(reg.push(e), role, kind, q) == match reg_lookup_from(reg, role, kind, q) {
            Some(n) => Some(n),
            None => if e.role == role && e.kind == kind {
                Some(e.node)
            } else {
                None
            },
        },
    decreases reg.len() - q,
{
    let pushed = reg.push(e);
    if q < reg.len() {
        lemma_reg_lookup_push(reg, e, role, kind, q + 1);
        assert(pushed[q] == reg[q]);
    } else {
        assert(pushed[q] == e);
        assert(reg_lookup_from(pushed, role, kind, q + 1) == None::<usize>);
    }
}

/// A successful lookup names an entry of the registry.
pub proof fn lemma_reg_lookup_entry(reg: Seq<RegistryEntry>, role: Role, kind: BindingKind, q: int)
    requires
        0 <= q <= reg.len(),
        reg_lookup_from(reg, role, kind, q) is Some,
    ensures
        exists|e: int|
            q <= e < reg.len() && #[trigger] reg[e] == (RegistryEntry {
                role: role,
                kind: kind,
                node: reg_lookup_from(reg, role, kind, q)->0,
            }),
    decreases reg.len() - q,
{
    if q < reg.len() {
        if reg[q].role == role && reg[q].kind == kind {
            assert(reg[q] == (RegistryEntry { role: role, kind: kind, node: reg[q].node }));
        } else {
            lemma_reg_lookup_entry(reg, role, kind, q + 1);
        }
    }
}

/// A registry with no entry for the pair answers no lookup for it.
pub proof fn lemma_reg_lookup_absent(reg: Seq<RegistryEntry>, role: Role, kind: BindingKind, q: int)
    requires
        0 <= q <= reg.len(),
        forall|e: int|
            0 <= e < reg.len() ==> !((#[trigger] reg[e]).role == role && reg[e].kind == kind),
    ensures
        reg_lookup_from(reg, role, kind, q) is None,
    decreases reg.len() - q,
{
    if q < reg.len() {
        lemma_reg_lookup_absent(reg, role, kind, q + 1);
    }
}

/// Recording one bone binding preserves the pass invariant, adding the
/// matched name to the bound set.
proof fn lemma_bind_consistent(
    s: Seq<NodeView>,
    av: int,
    role: Role,
    found: int,
    bound: Set<Seq<char>>,
)
    requires
        seq_wf(s),
        s.len() <= usize::MAX,
        0 <= av < s.len(),
        0 <= found < s.len(),
        consistent(s, av, bound),
        !bound.contains(s[found].name),
        forall|r: Role| s[found].name != spec_target_name(r),
        forall|e: int| 0 <= e < s[av].registry.len() ==> (#[trigger] s[av].registry[e]).role != role,
    ensures
        bind_bone(s, av, role, found).len() == s.len(),
        seq_wf(bind_bone(s, av, role, found)),
        bind_bone(s, av, role, found)[av].registry == s[av].registry.push(
            RegistryEntry { role: role, kind: BindingKind::Bone, node: found as usize },
        ),
        consistent(bind_bone(s, av, role, found), av, bound.insert(s[found].name)),
        forall|j: int|
            0 <= j < s.len() ==> (#[trigger] bind_bone(s, av, role, found)[j]) == (NodeView {
                bone: if j == found {
                    Some(role)
                } else {
                    s[j].bone
                },
                registry: if j == av {
                    s[av].registry.push(
                        RegistryEntry { role: role, kind: BindingKind::Bone, node: found as usize },
                    )
                } else {
                    s[j].registry
                },
                ..s[j]
            }),
{
    let s1 = bind_bone(s, av, role, found);
    let reg = s[av].registry;
    let entry = RegistryEntry { role: role, kind: BindingKind::Bone, node: found as usize };
    let reg1 = reg.push(entry);
    let bound1 = bound.insert(s[found].name);
    crate::scene::lemma_seq_wf_same_children(s, s1);
    assert(s[found].bone is None);
    assert(ik_consistent_at(s, reg, found));
    assert(s[found].ik is None);
    assert forall|j: int| 0 <= j < s.len() implies (#[trigger] s1[j]) == (NodeView {
        bone: if j == found {
            Some(role)
        } else {
            s[j].bone
        },
        registry: if j == av {
            reg1
        } else {
            s[j].registry
        },
        ..s[j]
    }) by {}
    assert forall|x: int, y: int|
        0 <= x < y < reg1.len() implies !((#[trigger] reg1[x]).role == (#[trigger] reg1[y]).role
            && reg1[x].kind == reg1[y].kind) by {
        if y == reg.len() {
            assert(reg1[x] == reg[x]);
        } else {
            assert(reg1[x] == reg[x] && reg1[y] == reg[y]);
        }
    }
    assert forall|e: int|
        0 <= e < reg1.len() && (#[trigger] reg1[e]).kind is Target implies s1[reg1[e].node as int]
            .target_role == Some(reg1[e].role) && s1[reg1[e].node as int].bone is None && s1[
        reg1[e].node as int].name == spec_target_name(reg1[e].role) by {
        if e < reg.len() {
            assert(reg1[e] == reg[e]);
            let t = reg[e].node as int;
            assert(s[t].name == spec_target_name(reg[e].role));
            assert(t != found);
        }
    }
    assert forall|e: int|
        0 <= e < reg1.len() && (#[trigger] reg1[e]).kind is Bone implies s1[reg1[e].node as int]
            .bone == Some(reg1[e].role) by {
        if e < reg.len() {
            assert(reg1[e] == reg[e]);
            let b = reg[e].node as int;
            assert(s[b].bone == Some(reg[e].role));
            assert(b != found);
        } else {
            assert(reg1[e] == entry);
        }
    }
    assert forall|j: int|
        0 <= j < s1.len() && (#[trigger] s1[j]).bone is Some implies bound1.contains(
        s1[j].name,
    ) by {
        if j != found {
            assert(bound.contains(s[j].name));
        }
    }
    assert forall|j: int| 0 <= j < s1.len() implies #[trigger] ik_consistent_at(s1, reg1, j) by {
        assert(ik_consistent_at(s, reg, j));
        assert(s1[j].ik == s[j].ik);
        match (s1[j].bone, s1[j].ik) {
            (Some(r2), Some(k)) => {
                assert(j != found);
                assert(reg_lookup(reg, r2, BindingKind::Target) == Some(k.target));
                lemma_reg_lookup_push(reg, entry, r2, BindingKind::Target, 0);
            },
            _ => {},
        }
    }
}

/// Synthesizing the target node of a freshly bound role preserves the pass
/// invariant.
proof fn lemma_spawn_consistent(
    s: Seq<NodeView>,
    av: int,
    arm: int,
    role: Role,
    chain: Option<u32>,
    found: int,
    bound: Set<Seq<char>>,
)
    requires
        seq_wf(s),
        s.len() < usize::MAX,
        0 <= av < s.len(),
        0 <= arm < s.len(),
        0 <= found < s.len(),
        consistent(s, av, bound),
        s[found].bone == Some(role),
        s[found].ik is None,
        forall|e: int|
            0 <= e < s[av].registry.len() ==> !((#[trigger] s[av].registry[e]).role == role
                && s[av].registry[e].kind is Target),
    ensures
        spawn_target(s, av, arm, role, chain, found).len() == s.len() + 1,
        seq_wf(spawn_target(s, av, arm, role, chain, found)),
        spawn_target(s, av, arm, role, chain, found)[av].registry == s[av].registry.push(
            RegistryEntry { role: role, kind: BindingKind::Target, node: s.len() as usize },
        ),
        consistent(spawn_target(s, av, arm, role, chain, found), av, bound),
{
    let s2 = spawn_target(s, av, arm, role, chain, found);
    let reg = s[av].registry;
    let tid = s.len() as int;
    let entry = RegistryEntry { role: role, kind: BindingKind::Target, node: s.len() as usize };
    let reg1 = reg.push(entry);
    crate::retarget::lemma_spawn_target_wf(s, av, arm, role, chain, found);
    assert forall|j: int| 0 <= j < s.len() implies (#[trigger] s2[j]).registry == (if j == av {
        reg1
    } else {
        s[j].registry
    }) && s2[j].bone == s[j].bone && s2[j].target_role == s[j].target_role && s2[j].name == s[
        j].name && s2[j].ik == (if j == found && chain is Some {
        s2[j].ik
    } else {
        s[j].ik
    }) by {}
    assert(s2[tid].target_role == Some(role));
    assert(s2[tid].bone is None);
    assert(s2[tid].ik is None);
    assert(s2[tid].name == spec_target_name(role));
    assert forall|x: int, y: int|
        0 <= x < y < reg1.len() implies !((#[trigger] reg1[x]).role == (#[trigger] reg1[y]).role
            && reg1[x].kind == reg1[y].kind) by {
        if y == reg.len() {
            assert(reg1[x] == reg[x]);
        } else {
            assert(reg1[x] == reg[x] && reg1[y] == reg[y]);
        }
    }
    assert(reg_lookup(reg, role, BindingKind::Target) is None) by {
        lemma_reg_lookup_absent(reg, role, BindingKind::Target, 0);
    }
    assert forall|e: int|
        0 <= e < reg1.len() && (#[trigger] reg1[e]).kind is Target implies s2[reg1[e].node as int]
            .target_role == Some(reg1[e].role) && s2[reg1[e].node as int].bone is None && s2[
        reg1[e].node as int].name == spec_target_name(reg1[e].role) by {
        if e < reg.len() {
            assert(reg1[e] == reg[e]);
        } else {
            assert(reg1[e] == entry);
        }
    }
    assert forall|e: int|
        0 <= e < reg1.len() && (#[trigger] reg1[e]).kind is Bone implies s2[reg1[e].node as int]
            .bone == Some(reg1[e].role) by {
        if e < reg.len() {
            assert(reg1[e] == reg[e]);
        }
    }
    assert forall|j: int|
        0 <= j < s2.len() && (#[trigger] s2[j]).bone is Some implies bound.contains(
        s2[j].name,
    ) by {
        assert(j != tid);
    }
    assert forall|j: int| 0 <= j < s2.len() implies #[trigger] ik_consistent_at(s2, reg1, j) by {
        if j == tid {
        } else {
            assert(ik_consistent_at(s, reg, j));
            if j == found && chain is Some {
                lemma_reg_lookup_push(reg, entry, role, BindingKind::Target, 0);
                assert(reg_lookup(reg1, role, BindingKind::Target) == Some(s.len() as usize));
            } else {
                match (s2[j].bone, s2[j].ik) {
                    (Some(r2), Some(k)) => {
                        assert(reg_lookup(reg, r2, BindingKind::Target) == Some(k.target));
                        lemma_reg_lookup_push(reg, entry, r2, BindingKind::Target, 0);
                    },
                    _ => {},
                }
            }
        }
    }
}

/// Applying a schema subtree preserves the pass invariant: every added
/// registry entry carries a role of that subtree, earlier entries are
/// untouched, and consistency now also covers the subtree's names.
pub proof fn lemma_apply_schema_consistent(
    s: Seq<NodeView>,
    sc: SchemaView,
    av: int,
    arm: int,
    parent: int,
    bound: Set<Seq<char>>,
)
    requires
        seq_wf(s),
        s.len() + schema_size(sc) <= usize::MAX,
        0 <= av < s.len(),
        0 <= arm < s.len(),
        0 <= parent < s.len(),
        schema_wf(sc),
        consistent(s, av, bound),
        forall|e: int|
            0 <= e < s[av].registry.len() ==> !schema_roles(sc).contains(
                (#[trigger] s[av].registry[e]).role,
            ),
        schema_names(sc).disjoint(bound),
    ensures
        ({
            let s3 = apply_schema_spec(s, sc, av, arm, parent);
            let reg = s[av].registry;
            let reg3 = s3[av].registry;
            &&& s.len() <= s3.len() <= s.len() + schema_size(sc)
            &&& seq_wf(s3)
            &&& consistent(s3, av, bound.union(schema_names(sc)))
            &&& reg.len() <= reg3.len()
            &&& forall|x: int| 0 <= x < reg.len() ==> #[trigger] reg3[x] == reg[x]
            &&& forall|x: int|
                reg.len() <= x < reg3.len() ==> schema_roles(sc).contains(
                    (#[trigger] reg3[x]).role,
                )
        }),
    decreases sc, 0int,
{
    let reg = s[av].registry;
    let target_bound = bound.union(schema_names(sc));
    match subtree_search(s, sc.expected_name, parent) {
        None => {
            assert(bound.subset_of(target_bound));
            lemma_consistent_widen(s, av, bound, target_bound);
        },
        Some(found) => {
            lemma_subtree_search_found(s, sc.expected_name, parent, found);
            assert(schema_names(sc).contains(sc.expected_name));
            assert(!bound.contains(sc.expected_name));
            assert forall|e: int| 0 <= e < reg.len() implies (#[trigger] reg[e]).role
                != sc.role by {
                assert(schema_roles(sc).contains(sc.role));
            }
            lemma_bind_consistent(s, av, sc.role, found as int, bound);
            let s1 = bind_bone(s, av, sc.role, found as int);
            let bound1 = bound.insert(sc.expected_name);
            let reg1 = s1[av].registry;
            let s2 = if sc.generates_target {
                spawn_target(s1, av, arm, sc.role, sc.ik_chain_length, found as int)
            } else {
                s1
            };
            let reg2 = s2[av].registry;
            if sc.generates_target {
                assert(s1[found as int].bone == Some(sc.role));
                assert(s[found as int].bone is None);
                assert(ik_consistent_at(s, reg, found as int));
                assert(s[found as int].ik is None);
                assert(s1[found as int].ik == s[found as int].ik);
                assert forall|e: int|
                    0 <= e < reg1.len() implies !((#[trigger] reg1[e]).role == sc.role && reg1[e]
                    .kind is Target) by {
                    if e < reg.len() {
                        assert(reg1[e] == reg[e]);
                    }
                }
                lemma_spawn_consistent(
                    s1,
                    av,
                    arm,
                    sc.role,
                    sc.ik_chain_length,
                    found as int,
                    bound1,
                );
            }
            assert(consistent(s2, av, bound1));
            assert(s2.len() <= s.len() + 1);
            assert(reg2.len() <= reg.len() + 2);
            assert forall|x: int| 0 <= x < reg.len() implies #[trigger] reg2[x] == reg[x] by {}
            assert forall|x: int|
                reg.len() <= x < reg2.len() implies (#[trigger] reg2[x]).role == sc.role by {}
            // the children are applied beneath the found node
            assert(crate::retarget::schema_list_size(sc.children, 0) == 0);
            crate::retarget::lemma_schema_list_size_mono(
                sc.children,
                0,
                sc.children.len() as int,
            );
            assert(crate::retarget::schema_tail_size(sc.children, 0) + 1 == schema_size(sc));
            assert forall|e: int|
                0 <= e < reg2.len() implies !roles_from(sc.children, 0).contains(
                (#[trigger] reg2[e]).role,
            ) by {
                if e < reg.len() {
                    assert(reg2[e] == reg[e]);
                    if roles_from(sc.children, 0).contains(reg2[e].role) {
                        assert(schema_roles(sc).contains(reg2[e].role));
                    }
                } else {
                    assert(reg2[e].role == sc.role);
                }
            }
            assert(names_from(sc.children, 0).disjoint(bound1)) by {
                assert forall|n: Seq<char>|
                    names_from(sc.children, 0).contains(n) implies !bound1.contains(n) by {
                    assert(schema_names(sc).contains(n));
                }
            }
            lemma_apply_children_consistent(s2, sc.children, 0, av, arm, found as int, bound1);
            let s3 = apply_children_spec(s2, sc.children, 0, av, arm, found as int);
            let reg3 = s3[av].registry;
            assert(s3 == apply_schema_spec(s, sc, av, arm, parent));
            assert(bound1.union(names_from(sc.children, 0)) =~= target_bound);
            assert forall|x: int|
                reg.len() <= x < reg3.len() implies schema_roles(sc).contains(
                (#[trigger] reg3[x]).role,
            ) by {
                if x < reg2.len() {
                    assert(reg3[x] == reg2[x]);
                    assert(reg2[x].role == sc.role);
                    assert(schema_roles(sc).contains(sc.role));
                } else {
                    assert(roles_from(sc.children, 0).contains(reg3[x].role));
                }
            }
        },
    }
}

/// Applying the schema children from position `i` on preserves the pass
/// invariant in the same way.
pub proof fn lemma_apply_children_consistent(
    s: Seq<NodeView>,
    cs: Seq<SchemaView>,
    i: int,
    av: int,
    arm: int,
    parent: int,
    bound: Set<Seq<char>>,
)
    requires
        seq_wf(s),
        s.len() + crate::retarget::schema_tail_size(cs, i) <= usize::MAX,
        0 <= i,
        0 <= av < s.len(),
        0 <= arm < s.len(),
        0 <= parent < s.len(),
        children_wf(cs, i),
        consistent(s, av, bound),
        forall|e: int|
            0 <= e < s[av].registry.len() ==> !roles_from(cs, i).contains(
                (#[trigger] s[av].registry[e]).role,
            ),
        names_from(cs, i).disjoint(bound),
    ensures
        ({
            let s3 = apply_children_spec(s, cs, i, av, arm, parent);
            let reg = s[av].registry;
            let reg3 = s3[av].registry;
            &&& s.len() <= s3.len() <= s.len() + crate::retarget::schema_tail_size(cs, i)
            &&& seq_wf(s3)
            &&& consistent(s3, av, bound.union(names_from(cs, i)))
            &&& reg.len() <= reg3.len()
            &&& forall|x: int| 0 <= x < reg.len() ==> #[trigger] reg3[x] == reg[x]
            &&& forall|x: int|
                reg.len() <= x < reg3.len() ==> roles_from(cs, i).contains(
                    (#[trigger] reg3[x]).role,
                )
        }),
    decreases cs, cs.len() - i,
{
    let reg = s[av].registry;
    if i >= cs.len() {
        assert(bound.union(names_from(cs, i)) =~= bound);
    } else {
        crate::retarget::lemma_schema_list_size_mono(cs, 0, i);
        crate::retarget::lemma_schema_list_size_mono(cs, i + 1, cs.len() as int);
        assert(crate::retarget::schema_list_size(cs, i + 1) == schema_size(cs[i])
            + crate::retarget::schema_list_size(cs, i));
        assert forall|e: int| 0 <= e < reg.len() implies !schema_roles(cs[i]).contains(
            (#[trigger] reg[e]).role,
        ) by {
            if schema_roles(cs[i]).contains(reg[e].role) {
                assert(roles_from(cs, i).contains(reg[e].role));
            }
        }
        assert(schema_names(cs[i]).disjoint(bound)) by {
            assert forall|n: Seq<char>|
                schema_names(cs[i]).contains(n) implies !bound.contains(n) by {
                assert(names_from(cs, i).contains(n));
            }
        }
        lemma_apply_schema_consistent(s, cs[i], av, arm, parent, bound);
        let s2 = apply_schema_spec(s, cs[i], av, arm, parent);
        let reg2 = s2[av].registry;
        let bound2 = bound.union(schema_names(cs[i]));
        assert forall|e: int| 0 <= e < reg2.len() implies !roles_from(cs, i + 1).contains(
            (#[trigger] reg2[e]).role,
        ) by {
            if e < reg.len() {
                assert(reg2[e] == reg[e]);
                if roles_from(cs, i + 1).contains(reg2[e].role) {
                    assert(roles_from(cs, i).contains(reg2[e].role));
                }
            } else {
                assert(schema_roles(cs[i]).contains(reg2[e].role));
                assert(schema_roles(cs[i]).disjoint(roles_from(cs, i + 1)));
            }
        }
        assert(names_from(cs, i + 1).disjoint(bound2)) by {
            assert forall|n: Seq<char>|
                names_from(cs, i + 1).contains(n) implies !bound2.contains(n) by {
                assert(names_from(cs, i).contains(n));
                assert(schema_names(cs[i]).disjoint(names_from(cs, i + 1)));
            }
        }
        lemma_apply_children_consistent(s2, cs, i + 1, av, arm, parent, bound2);
        let s3 = apply_children_spec(s2, cs, i + 1, av, arm, parent);
        let reg3 = s3[av].registry;
        assert(s3 == apply_children_spec(s, cs, i, av, arm, parent));
        assert(bound2.union(names_from(cs, i + 1)) =~= bound.union(names_from(cs, i)));
        assert forall|x: int|
            reg.len() <= x < reg3.len() implies roles_from(cs, i).contains(
            (#[trigger] reg3[x]).role,
        ) by {
            if x < reg2.len() {
                assert(reg3[x] == reg2[x]);
                assert(schema_roles(cs[i]).contains(reg2[x].role));
            } else {
                assert(roles_from(cs, i + 1).contains(reg3[x].role));
            }
        }
    }
}


/// No expected bone name of fewer than eleven characters can collide with
/// a target-node name.
proof fn lemma_short_name_not_target(nm: Seq<char>)
    requires
        nm.len() < 11,
    ensures
        forall|r: Role| nm != spec_target_name(r),
{
    reveal_strlit("Target:Root");
    reveal_strlit("Target:Hips");
    reveal_strlit("Target:Spine");
    reveal_strlit("Target:Chest");
    reveal_strlit("Target:Neck");
    reveal_strlit("Target:Head");
    reveal_strlit("Target:ArmL");
    reveal_strlit("Target:ArmR");
    reveal_strlit("Target:ForearmL");
    reveal_strlit("Target:ForearmR");
    reveal_strlit("Target:HandL");
    reveal_strlit("Target:HandR");
    reveal_strlit("Target:ThighL");
    reveal_strlit("Target:ThighR");
    reveal_strlit("Target:LegL");
    reveal_strlit("Target:LegR");
    reveal_strlit("Target:FootL");
    reveal_strlit("Target:FootR");
    assert forall|r: Role| nm != spec_target_name(r) by {
        assert(spec_target_name(r).len() >= 11);
    }
}


/// The registry records some `(role, kind)` binding.
pub open spec fn reg_contains(reg: Seq<RegistryEntry>, role: Role, kind: BindingKind) -> bool {
    exists|e: int| 0 <= e < reg.len() && (#[trigger] reg[e]).role == role && reg[e].kind == kind
}

/// Roles of a schema subtree that generate a target node.
pub open spec fn schema_gen_roles(sc: SchemaView) -> Set<Role>
    decreases sc, 0int,
{
    if sc.generates_target {
        gen_from(sc.children, 0).insert(sc.role)
    } else {
        gen_from(sc.children, 0)
    }
}

pub open spec fn gen_from(cs: Seq<SchemaView>, i: int) -> Set<Role>
    decreases cs, cs.len() - i,
{
    if i < 0 || i >= cs.len() {
        Set::empty()
    } else {
        gen_from(cs, i + 1).union(schema_gen_roles(cs[i]))
    }
}

/// The name of a synthetic target node of some role.
pub open spec fn is_target_name(nm: Seq<char>) -> bool {
    exists|r: Role| nm == #[trigger] spec_target_name(r)
}

/// Every node has its own name.
pub open spec fn distinct_names(s: Seq<NodeView>) -> bool {
    forall|i: int, j: int|
        0 <= i < j < s.len() ==> (#[trigger] s[i]).name != (#[trigger] s[j]).name
}

/// No scene node is named like a synthetic target node.
pub open spec fn no_target_names(s: Seq<NodeView>) -> bool {
    forall|i: int| 0 <= i < s.len() ==> !is_target_name((#[trigger] s[i]).name)
}

/// Mid-pass relation between the original scene and the current one: old
/// nodes keep names and child prefixes, and every appended node bears a
/// target name.
pub open spec fn pass_extension(s0: Seq<NodeView>, s: Seq<NodeView>) -> bool {
    &&& crate::search::scene_extends(s, s0)
    &&& forall|q: int| s0.len() <= q < s.len() ==> is_target_name((#[trigger] s[q]).name)
}

/// The rig beneath `p` carries a complete match for the schema subtree:
/// a descendant with the expected name whose own subtree is complete for
/// the schema children in turn.
pub open spec fn rig_complete(s0: Seq<NodeView>, sc: SchemaView, p: int) -> bool
    decreases sc, 0int,
{
    exists|f: int|
        0 <= f < s0.len() && #[trigger] in_subtree(s0, p, f) && s0[f].name == sc.expected_name
            && rig_children_complete(s0, sc.children, 0, f)
}

pub open spec fn rig_children_complete(s0: Seq<NodeView>, cs: Seq<SchemaView>, i: int, p: int) -> bool
    decreases cs, cs.len() - i,
{
    if i < 0 || i >= cs.len() {
        true
    } else {
        rig_complete(s0, cs[i], p) && rig_children_complete(s0, cs, i + 1, p)
    }
}

/// Set characterizations of a childless schema node.
proof fn lemma_leaf_sets(role: Role, nm: Seq<char>)
    ensures
        schema_roles(crate::schema::leaf_view(role, nm)) =~= Set::empty().insert(role),
        schema_names(crate::schema::leaf_view(role, nm)) =~= Set::<Seq<char>>::empty().insert(nm),
        schema_size(crate::schema::leaf_view(role, nm)) == 1,
        schema_gen_roles(crate::schema::leaf_view(role, nm)) =~= if crate::role::spec_generates_target(
            role,
        ) {
            Set::empty().insert(role)
        } else {
            Set::<Role>::empty()
        },
        (forall|r: Role| nm != spec_target_name(r)) ==> schema_wf(
            crate::schema::leaf_view(role, nm),
        ),
{
    let sc = crate::schema::leaf_view(role, nm);
    assert(roles_from(sc.children, 0) =~= Set::<Role>::empty());
    assert(names_from(sc.children, 0) =~= Set::<Seq<char>>::empty());
    assert(gen_from(sc.children, 0) =~= Set::<Role>::empty());
    assert(crate::retarget::schema_list_size(sc.children, 0) == 0);
    assert(children_wf(sc.children, 0));
}

/// Set characterizations of a schema node with one child.
proof fn lemma_chain_sets(role: Role, nm: Seq<char>, child: SchemaView)
    ensures
        schema_roles(crate::schema::chain_view(role, nm, child)) =~= schema_roles(child).insert(
            role,
        ),
        schema_names(crate::schema::chain_view(role, nm, child)) =~= schema_names(child).insert(
            nm,
        ),
        schema_size(crate::schema::chain_view(role, nm, child)) == 1 + schema_size(child),
        schema_gen_roles(crate::schema::chain_view(role, nm, child)) =~= if crate::role::spec_generates_target(
            role,
        ) {
            schema_gen_roles(child).insert(role)
        } else {
            schema_gen_roles(child)
        },
        (schema_wf(child) && !schema_roles(child).contains(role) && !schema_names(child).contains(
            nm,
        ) && (forall|r: Role| nm != spec_target_name(r))) ==> schema_wf(
            crate::schema::chain_view(role, nm, child),
        ),
{
    let sc = crate::schema::chain_view(role, nm, child);
    assert(sc.children[0] == child);
    assert(roles_from(sc.children, 1) =~= Set::<Role>::empty());
    assert(names_from(sc.children, 1) =~= Set::<Seq<char>>::empty());
    assert(gen_from(sc.children, 1) =~= Set::<Role>::empty());
    assert(roles_from(sc.children, 0) =~= schema_roles(child));
    assert(names_from(sc.children, 0) =~= schema_names(child));
    assert(gen_from(sc.children, 0) =~= schema_gen_roles(child));
    assert(crate::retarget::schema_list_size(sc.children, 0) == 0);
    assert(crate::retarget::schema_list_size(sc.children, 1) == schema_size(child));
    if schema_wf(child) && !schema_roles(child).contains(role) && !schema_names(child).contains(nm)
        && (forall|r: Role| nm != spec_target_name(r)) {
        assert(children_wf(sc.children, 1));
        assert(schema_roles(child).disjoint(roles_from(sc.children, 1)));
        assert(schema_names(child).disjoint(names_from(sc.children, 1)));
        assert(children_wf(sc.children, 0));
    }
}

/// The matched-name set of a finished standard pass: the armature name and
/// every expected bone name of the standard schema.
pub open spec fn standard_bound() -> Set<Seq<char>> {
    schema_names(crate::schema::spec_standard_schema()).insert("Armature"@)
}

/// Facts about the standard schema: it is well-formed, it binds neither
/// the root role nor any node named like the armature or a target node.
pub proof fn lemma_standard_schema_facts()
    ensures
        schema_wf(crate::schema::spec_standard_schema()),
        !schema_roles(crate::schema::spec_standard_schema()).contains(Role::Root),
        !schema_names(crate::schema::spec_standard_schema()).contains("Armature"@),
        forall|r: Role| "Armature"@ != spec_target_name(r),
        forall|r: Role|
            !(r is Root) ==> schema_roles(crate::schema::spec_standard_schema()).contains(r),
        forall|r: Role|
            schema_gen_roles(crate::schema::spec_standard_schema()).contains(r)
                <==> crate::role::spec_generates_target(r),
{
    reveal_strlit("Armature");
    reveal_strlit("Hips");
    reveal_strlit("Spine");
    reveal_strlit("Chest");
    reveal_strlit("Neck");
    reveal_strlit("Head");
    reveal_strlit("Arm.L");
    reveal_strlit("Arm.R");
    reveal_strlit("Forearm.L");
    reveal_strlit("Forearm.R");
    reveal_strlit("Hand.L");
    reveal_strlit("Hand.R");
    reveal_strlit("Thigh.L");
    reveal_strlit("Thigh.R");
    reveal_strlit("Leg.L");
    reveal_strlit("Leg.R");
    reveal_strlit("Foot.L");
    reveal_strlit("Foot.R");
    reveal_strlit("Target:Root");
    reveal_strlit("Target:Hips");
    reveal_strlit("Target:Spine");
    reveal_strlit("Target:Chest");
    reveal_strlit("Target:Neck");
    reveal_strlit("Target:Head");
    reveal_strlit("Target:ArmL");
    reveal_strlit("Target:ArmR");
    reveal_strlit("Target:ForearmL");
    reveal_strlit("Target:ForearmR");
    reveal_strlit("Target:HandL");
    reveal_strlit("Target:HandR");
    reveal_strlit("Target:ThighL");
    reveal_strlit("Target:ThighR");
    reveal_strlit("Target:LegL");
    reveal_strlit("Target:LegR");
    reveal_strlit("Target:FootL");
    reveal_strlit("Target:FootR");
    lemma_short_name_not_target("Hips"@);
    lemma_short_name_not_target("Spine"@);
    lemma_short_name_not_target("Chest"@);
    lemma_short_name_not_target("Neck"@);
    lemma_short_name_not_target("Head"@);
    lemma_short_name_not_target("Arm.L"@);
    lemma_short_name_not_target("Arm.R"@);
    lemma_short_name_not_target("Forearm.L"@);
    lemma_short_name_not_target("Forearm.R"@);
    lemma_short_name_not_target("Hand.L"@);
    lemma_short_name_not_target("Hand.R"@);
    lemma_short_name_not_target("Thigh.L"@);
    lemma_short_name_not_target("Thigh.R"@);
    lemma_short_name_not_target("Leg.L"@);
    lemma_short_name_not_target("Leg.R"@);
    lemma_short_name_not_target("Foot.L"@);
    lemma_short_name_not_target("Foot.R"@);
    lemma_short_name_not_target("Armature"@);
    assert("Hips"@ != "Neck"@) by {
        assert(("Hips"@)[0] != ("Neck"@)[0]);
    }
    assert("Hips"@ != "Head"@) by {
        assert(("Hips"@)[1] != ("Head"@)[1]);
    }
    assert("Neck"@ != "Head"@) by {
        assert(("Neck"@)[0] != ("Head"@)[0]);
    }
    assert("Spine"@ != "Chest"@) by {
        assert(("Spine"@)[0] != ("Chest"@)[0]);
    }
    assert("Spine"@ != "Arm.L"@) by {
        assert(("Spine"@)[0] != ("Arm.L"@)[0]);
    }
    assert("Spine"@ != "Arm.R"@) by {
        assert(("Spine"@)[0] != ("Arm.R"@)[0]);
    }
    assert("Spine"@ != "Leg.L"@) by {
        assert(("Spine"@)[0] != ("Leg.L"@)[0]);
    }
    assert("Spine"@ != "Leg.R"@) by {
        assert(("Spine"@)[0] != ("Leg.R"@)[0]);
    }
    assert("Chest"@ != "Arm.L"@) by {
        assert(("Chest"@)[0] != ("Arm.L"@)[0]);
    }
    assert("Chest"@ != "Arm.R"@) by {
        assert(("Chest"@)[0] != ("Arm.R"@)[0]);
    }
    assert("Chest"@ != "Leg.L"@) by {
        assert(("Chest"@)[0] != ("Leg.L"@)[0]);
    }
    assert("Chest"@ != "Leg.R"@) by {
        assert(("Chest"@)[0] != ("Leg.R"@)[0]);
    }
    assert("Arm.L"@ != "Arm.R"@) by {
        assert(("Arm.L"@)[4] != ("Arm.R"@)[4]);
    }
    assert("Arm.L"@ != "Leg.L"@) by {
        assert(("Arm.L"@)[0] != ("Leg.L"@)[0]);
    }
    assert("Arm.L"@ != "Leg.R"@) by {
        assert(("Arm.L"@)[0] != ("Leg.R"@)[0]);
    }
    assert("Arm.R"@ != "Leg.L"@) by {
        assert(("Arm.R"@)[0] != ("Leg.L"@)[0]);
    }
    assert("Arm.R"@ != "Leg.R"@) by {
        assert(("Arm.R"@)[0] != ("Leg.R"@)[0]);
    }
    assert("Leg.L"@ != "Leg.R"@) by {
        assert(("Leg.L"@)[4] != ("Leg.R"@)[4]);
    }
    assert("Hand.L"@ != "Hand.R"@) by {
        assert(("Hand.L"@)[5] != ("Hand.R"@)[5]);
    }
    assert("Hand.L"@ != "Foot.L"@) by {
        assert(("Hand.L"@)[0] != ("Foot.L"@)[0]);
    }
    assert("Hand.L"@ != "Foot.R"@) by {
        assert(("Hand.L"@)[0] != ("Foot.R"@)[0]);
    }
    assert("Hand.R"@ != "Foot.L"@) by {
        assert(("Hand.R"@)[0] != ("Foot.L"@)[0]);
    }
    assert("Hand.R"@ != "Foot.R"@) by {
        assert(("Hand.R"@)[0] != ("Foot.R"@)[0]);
    }
    assert("Foot.L"@ != "Foot.R"@) by {
        assert(("Foot.L"@)[5] != ("Foot.R"@)[5]);
    }
    assert("Thigh.L"@ != "Thigh.R"@) by {
        assert(("Thigh.L"@)[6] != ("Thigh.R"@)[6]);
    }
    assert("Forearm.L"@ != "Forearm.R"@) by {
        assert(("Forearm.L"@)[8] != ("Forearm.R"@)[8]);
    }
    let foot_l = crate::schema::leaf_view(Role::FootL, "Foot.L"@);
    lemma_leaf_sets(Role::FootL, "Foot.L"@);
    let leg_l = crate::schema::chain_view(Role::LegL, "Leg.L"@, foot_l);
    lemma_chain_sets(Role::LegL, "Leg.L"@, foot_l);
    let thigh_l = crate::schema::chain_view(Role::ThighL, "Thigh.L"@, leg_l);
    lemma_chain_sets(Role::ThighL, "Thigh.L"@, leg_l);
    let foot_r = crate::schema::leaf_view(Role::FootR, "Foot.R"@);
    lemma_leaf_sets(Role::FootR, "Foot.R"@);
    let leg_r = crate::schema::chain_view(Role::LegR, "Leg.R"@, foot_r);
    lemma_chain_sets(Role::LegR, "Leg.R"@, foot_r);
    let thigh_r = crate::schema::chain_view(Role::ThighR, "Thigh.R"@, leg_r);
    lemma_chain_sets(Role::ThighR, "Thigh.R"@, leg_r);
    let head = crate::schema::leaf_view(Role::Head, "Head"@);
    lemma_leaf_sets(Role::Head, "Head"@);
    let neck = crate::schema::chain_view(Role::Neck, "Neck"@, head);
    lemma_chain_sets(Role::Neck, "Neck"@, head);
    let hand_l = crate::schema::leaf_view(Role::HandL, "Hand.L"@);
    lemma_leaf_sets(Role::HandL, "Hand.L"@);
    let forearm_l = crate::schema::chain_view(Role::ForearmL, "Forearm.L"@, hand_l);
    lemma_chain_sets(Role::ForearmL, "Forearm.L"@, hand_l);
    let arm_l = crate::schema::chain_view(Role::ArmL, "Arm.L"@, forearm_l);
    lemma_chain_sets(Role::ArmL, "Arm.L"@, forearm_l);
    let hand_r = crate::schema::leaf_view(Role::HandR, "Hand.R"@);
    lemma_leaf_sets(Role::HandR, "Hand.R"@);
    let forearm_r = crate::schema::chain_view(Role::ForearmR, "Forearm.R"@, hand_r);
    lemma_chain_sets(Role::ForearmR, "Forearm.R"@, hand_r);
    let arm_r = crate::schema::chain_view(Role::ArmR, "Arm.R"@, forearm_r);
    lemma_chain_sets(Role::ArmR, "Arm.R"@, forearm_r);
    let sc = crate::schema::spec_standard_schema();
    let chest = sc.children[2].children[0];
    let spine = sc.children[2];
    assert(chest.children[0] == neck && chest.children[1] == arm_l && chest.children[2] == arm_r);
    assert(roles_from(chest.children, 3) =~= Set::<Role>::empty());
    assert(names_from(chest.children, 3) =~= Set::<Seq<char>>::empty());
    assert(roles_from(chest.children, 2) =~= schema_roles(arm_r));
    assert(names_from(chest.children, 2) =~= schema_names(arm_r));
    assert(roles_from(chest.children, 1) =~= schema_roles(arm_r).union(schema_roles(arm_l)));
    assert(names_from(chest.children, 1) =~= schema_names(arm_r).union(schema_names(arm_l)));
    assert(roles_from(chest.children, 0) =~= schema_roles(arm_r).union(schema_roles(arm_l)).union(
        schema_roles(neck),
    ));
    assert(names_from(chest.children, 0) =~= schema_names(arm_r).union(schema_names(arm_l)).union(
        schema_names(neck),
    ));
    assert(schema_roles(neck).disjoint(roles_from(chest.children, 1)));
    assert(schema_names(neck).disjoint(names_from(chest.children, 1))) by {
        assert forall|n: Seq<char>|
            schema_names(neck).contains(n) implies !names_from(chest.children, 1).contains(
            n,
        ) by {
            assert(n == "Neck"@ || n == "Head"@);
            assert(n.len() == 4);
            if names_from(chest.children, 1).contains(n) {
                assert(n.len() >= 5);
            }
        }
    }
    assert(schema_roles(arm_l).disjoint(roles_from(chest.children, 2)));
    assert(schema_names(arm_l).disjoint(names_from(chest.children, 2))) by {
        assert forall|n: Seq<char>|
            schema_names(arm_l).contains(n) implies !names_from(chest.children, 2).contains(
            n,
        ) by {
            assert(n == "Arm.L"@ || n == "Forearm.L"@ || n == "Hand.L"@);
            if names_from(chest.children, 2).contains(n) {
                assert(n == "Arm.R"@ || n == "Forearm.R"@ || n == "Hand.R"@);
            }
        }
    }
    assert(schema_wf(head) && schema_wf(neck));
    assert(schema_wf(hand_l) && schema_wf(forearm_l) && schema_wf(arm_l));
    assert(schema_wf(hand_r) && schema_wf(forearm_r) && schema_wf(arm_r));
    assert(schema_wf(foot_l) && schema_wf(leg_l) && schema_wf(thigh_l));
    assert(schema_wf(foot_r) && schema_wf(leg_r) && schema_wf(thigh_r));
    assert(children_wf(chest.children, 3));
    assert(children_wf(chest.children, 2));
    assert(children_wf(chest.children, 1));
    assert(children_wf(chest.children, 0));
    assert(!names_from(chest.children, 0).contains("Chest"@)) by {
        if names_from(chest.children, 0).contains("Chest"@) {
            let n = "Chest"@;
            assert(n == "Neck"@ || n == "Head"@ || n == "Arm.L"@ || n == "Forearm.L"@ || n
                == "Hand.L"@ || n == "Arm.R"@ || n == "Forearm.R"@ || n == "Hand.R"@);
        }
    }
    assert(schema_wf(chest));
    assert(schema_roles(chest) =~= roles_from(chest.children, 0).insert(Role::Chest));
    assert(schema_names(chest) =~= names_from(chest.children, 0).insert("Chest"@));
    assert(!schema_names(chest).contains("Spine"@)) by {
        if schema_names(chest).contains("Spine"@) {
            let n = "Spine"@;
            assert(n == "Chest"@ || n == "Neck"@ || n == "Head"@ || n == "Arm.L"@ || n
                == "Forearm.L"@ || n == "Hand.L"@ || n == "Arm.R"@ || n == "Forearm.R"@ || n
                == "Hand.R"@);
        }
    }
    lemma_chain_sets(Role::Spine, "Spine"@, chest);
    assert(schema_wf(spine));
    assert(sc.children[0] == thigh_l && sc.children[1] == thigh_r && sc.children[2] == spine);
    assert(roles_from(sc.children, 3) =~= Set::<Role>::empty());
    assert(names_from(sc.children, 3) =~= Set::<Seq<char>>::empty());
    assert(roles_from(sc.children, 2) =~= schema_roles(spine));
    assert(names_from(sc.children, 2) =~= schema_names(spine));
    assert(roles_from(sc.children, 1) =~= schema_roles(spine).union(schema_roles(thigh_r)));
    assert(names_from(sc.children, 1) =~= schema_names(spine).union(schema_names(thigh_r)));
    assert(roles_from(sc.children, 0) =~= schema_roles(spine).union(schema_roles(thigh_r)).union(
        schema_roles(thigh_l),
    ));
    assert(names_from(sc.children, 0) =~= schema_names(spine).union(schema_names(thigh_r)).union(
        schema_names(thigh_l),
    ));
    assert(schema_roles(thigh_l).disjoint(roles_from(sc.children, 1)));
    assert(schema_names(thigh_l).disjoint(names_from(sc.children, 1))) by {
        assert forall|n: Seq<char>|
            schema_names(thigh_l).contains(n) implies !names_from(sc.children, 1).contains(
            n,
        ) by {
            assert(n == "Thigh.L"@ || n == "Leg.L"@ || n == "Foot.L"@);
            if names_from(sc.children, 1).contains(n) {
                assert(n == "Thigh.R"@ || n == "Leg.R"@ || n == "Foot.R"@ || n == "Spine"@ || n
                    == "Chest"@ || n == "Neck"@ || n == "Head"@ || n == "Arm.L"@ || n
                    == "Forearm.L"@ || n == "Hand.L"@ || n == "Arm.R"@ || n == "Forearm.R"@ || n
                    == "Hand.R"@);
            }
        }
    }
    assert(schema_roles(thigh_r).disjoint(roles_from(sc.children, 2)));
    assert(schema_names(thigh_r).disjoint(names_from(sc.children, 2))) by {
        assert forall|n: Seq<char>|
            schema_names(thigh_r).contains(n) implies !names_from(sc.children, 2).contains(
            n,
        ) by {
            assert(n == "Thigh.R"@ || n == "Leg.R"@ || n == "Foot.R"@);
            if names_from(sc.children, 2).contains(n) {
                assert(n == "Spine"@ || n == "Chest"@ || n == "Neck"@ || n == "Head"@ || n
                    == "Arm.L"@ || n == "Forearm.L"@ || n == "Hand.L"@ || n == "Arm.R"@ || n
                    == "Forearm.R"@ || n == "Hand.R"@);
            }
        }
    }
    assert(children_wf(sc.children, 3));
    assert(children_wf(sc.children, 2));
    assert(children_wf(sc.children, 1));
    assert(children_wf(sc.children, 0));
    assert(!names_from(sc.children, 0).contains("Hips"@)) by {
        if names_from(sc.children, 0).contains("Hips"@) {
            let n = "Hips"@;
            assert(n == "Thigh.L"@ || n == "Leg.L"@ || n == "Foot.L"@ || n == "Thigh.R"@ || n
                == "Leg.R"@ || n == "Foot.R"@ || n == "Spine"@ || n == "Chest"@ || n == "Neck"@
                || n == "Head"@ || n == "Arm.L"@ || n == "Forearm.L"@ || n == "Hand.L"@ || n
                == "Arm.R"@ || n == "Forearm.R"@ || n == "Hand.R"@);
        }
    }
    assert(schema_wf(sc));
    assert(!roles_from(sc.children, 0).contains(Role::Root));
    assert(!schema_roles(sc).contains(Role::Root));
    assert(!names_from(sc.children, 0).contains("Armature"@)) by {
        if names_from(sc.children, 0).contains("Armature"@) {
            let n = "Armature"@;
            assert(n == "Thigh.L"@ || n == "Leg.L"@ || n == "Foot.L"@ || n == "Thigh.R"@ || n
                == "Leg.R"@ || n == "Foot.R"@ || n == "Spine"@ || n == "Chest"@ || n == "Neck"@
                || n == "Head"@ || n == "Arm.L"@ || n == "Forearm.L"@ || n == "Hand.L"@ || n
                == "Arm.R"@ || n == "Forearm.R"@ || n == "Hand.R"@);
        }
    }
    assert(!schema_names(sc).contains("Armature"@));
    assert(gen_from(chest.children, 3) =~= Set::<Role>::empty());
    assert(gen_from(chest.children, 2) =~= schema_gen_roles(arm_r));
    assert(gen_from(chest.children, 1) =~= schema_gen_roles(arm_r).union(schema_gen_roles(arm_l)));
    assert(gen_from(chest.children, 0) =~= schema_gen_roles(arm_r).union(
        schema_gen_roles(arm_l),
    ).union(schema_gen_roles(neck)));
    assert(schema_gen_roles(chest) =~= gen_from(chest.children, 0));
    assert(gen_from(sc.children, 3) =~= Set::<Role>::empty());
    assert(gen_from(sc.children, 2) =~= schema_gen_roles(spine));
    assert(gen_from(sc.children, 1) =~= schema_gen_roles(spine).union(schema_gen_roles(thigh_r)));
    assert(gen_from(sc.children, 0) =~= schema_gen_roles(spine).union(
        schema_gen_roles(thigh_r),
    ).union(schema_gen_roles(thigh_l)));
    assert(schema_gen_roles(sc) =~= gen_from(sc.children, 0).insert(Role::Hips));
    assert forall|r: Role| !(r is Root) implies schema_roles(sc).contains(r) by {
        match r {
            Role::Root => {},
            Role::Hips => assert(schema_roles(sc).contains(Role::Hips)),
            Role::Spine => assert(schema_roles(spine).contains(Role::Spine)),
            Role::Chest => assert(schema_roles(chest).contains(Role::Chest)),
            Role::Neck => assert(schema_roles(neck).contains(Role::Neck)),
            Role::Head => assert(schema_roles(neck).contains(Role::Head)),
            Role::ArmL => assert(schema_roles(arm_l).contains(Role::ArmL)),
            Role::ArmR => assert(schema_roles(arm_r).contains(Role::ArmR)),
            Role::ForearmL => assert(schema_roles(arm_l).contains(Role::ForearmL)),
            Role::ForearmR => assert(schema_roles(arm_r).contains(Role::ForearmR)),
            Role::HandL => assert(schema_roles(arm_l).contains(Role::HandL)),
            Role::HandR => assert(schema_roles(arm_r).contains(Role::HandR)),
            Role::ThighL => assert(schema_roles(thigh_l).contains(Role::ThighL)),
            Role::ThighR => assert(schema_roles(thigh_r).contains(Role::ThighR)),
            Role::LegL => assert(schema_roles(thigh_l).contains(Role::LegL)),
            Role::LegR => assert(schema_roles(thigh_r).contains(Role::LegR)),
            Role::FootL => assert(schema_roles(thigh_l).contains(Role::FootL)),
            Role::FootR => assert(schema_roles(thigh_r).contains(Role::FootR)),
        }
    }
    assert forall|r: Role|
        schema_gen_roles(sc).contains(r) <==> crate::role::spec_generates_target(r) by {
        match r {
            Role::Hips => assert(schema_gen_roles(sc).contains(Role::Hips)),
            Role::Head => assert(schema_gen_roles(neck).contains(Role::Head)),
            Role::HandL => assert(schema_gen_roles(arm_l).contains(Role::HandL)),
            Role::HandR => assert(schema_gen_roles(arm_r).contains(Role::HandR)),
            Role::FootL => assert(schema_gen_roles(thigh_l).contains(Role::FootL)),
            Role::FootR => assert(schema_gen_roles(thigh_r).contains(Role::FootR)),
            _ => assert(!schema_gen_roles(sc).contains(r)),
        }
    }
}

/// One standard retargeting pass over a pristine scene leaves a consistent
/// scene: unique registry pairs pointing at live nodes, target entries at
/// unbound synthetic nodes, bone entries at nodes bound to the role, and
/// every constraint aimed at its role's registered target.
pub proof fn lemma_retarget_consistent(s: Seq<NodeView>, root: int)
    requires
        seq_wf(s),
        pristine(s),
        0 <= root < s.len(),
        s.len() + schema_size(crate::schema::spec_standard_schema()) <= usize::MAX,
    ensures
        retarget_spec(s, root).len() >= s.len(),
        seq_wf(retarget_spec(s, root)),
        consistent(retarget_spec(s, root), root, standard_bound()),
{
    lemma_standard_schema_facts();
    let std = crate::schema::spec_standard_schema();
    let empty_bound = Set::<Seq<char>>::empty();
    assert(consistent(s, root, empty_bound)) by {
        assert(s[root].registry.len() == 0);
        assert forall|j: int| 0 <= j < s.len() implies #[trigger] ik_consistent_at(
            s,
            s[root].registry,
            j,
        ) by {
            assert(s[j].ik is None);
        }
    }
    match subtree_search(s, "Armature"@, root) {
        None => {
            lemma_consistent_widen(s, root, empty_bound, standard_bound());
        },
        Some(arm) => {
            lemma_subtree_search_found(s, "Armature"@, root, arm);
            assert(s[arm as int].name == "Armature"@);
            lemma_bind_consistent(s, root, Role::Root, arm as int, empty_bound);
            let s1 = bind_bone(s, root, Role::Root, arm as int);
            let bound1 = empty_bound.insert("Armature"@);
            let reg1 = s1[root].registry;
            assert forall|e: int| 0 <= e < reg1.len() implies !schema_roles(std).contains(
                (#[trigger] reg1[e]).role,
            ) by {
                assert(reg1[e].role == Role::Root);
            }
            assert(schema_names(std).disjoint(bound1)) by {
                assert forall|n: Seq<char>|
                    schema_names(std).contains(n) implies !bound1.contains(n) by {}
            }
            lemma_apply_schema_consistent(s1, std, root, arm as int, arm as int, bound1);
            assert(bound1.union(schema_names(std)) =~= standard_bound());
        },
    }
}

/// Law: for every role, the registry never records the same node as both
/// the role's bone and the role's target — the synthetic target is a
/// separate node.
pub proof fn law_bone_and_target_are_distinct(
    s: Seq<NodeView>,
    root: int,
    role: Role,
    b: usize,
    t: usize,
)
    requires
        seq_wf(s),
        pristine(s),
        0 <= root < s.len(),
        s.len() + schema_size(crate::schema::spec_standard_schema()) <= usize::MAX,
        reg_lookup(retarget_spec(s, root)[root].registry, role, BindingKind::Bone) == Some(b),
        reg_lookup(retarget_spec(s, root)[root].registry, role, BindingKind::Target) == Some(t),
    ensures
        b != t,
{
    lemma_retarget_consistent(s, root);
    let s2 = retarget_spec(s, root);
    let reg = s2[root].registry;
    lemma_reg_lookup_entry(reg, role, BindingKind::Bone, 0);
    lemma_reg_lookup_entry(reg, role, BindingKind::Target, 0);
    let eb = choose|e: int|
        0 <= e < reg.len() && #[trigger] reg[e] == (RegistryEntry {
            role: role,
            kind: BindingKind::Bone,
            node: b,
        });
    let et = choose|e: int|
        0 <= e < reg.len() && #[trigger] reg[e] == (RegistryEntry {
            role: role,
            kind: BindingKind::Target,
            node: t,
        });
    assert(s2[b as int].bone == Some(role));
    assert(s2[t as int].bone is None);
}

/// Law: every target node recorded on a bone's constraint is exactly the
/// registry's target entry for that bone's role.
pub proof fn law_ik_target_matches_registry(
    s: Seq<NodeView>,
    root: int,
    j: int,
    role: Role,
    k: crate::scene::IkSpec,
)
    requires
        seq_wf(s),
        pristine(s),
        0 <= root < s.len(),
        s.len() + schema_size(crate::schema::spec_standard_schema()) <= usize::MAX,
        0 <= j < retarget_spec(s, root).len(),
        retarget_spec(s, root)[j].bone == Some(role),
        retarget_spec(s, root)[j].ik == Some(k),
    ensures
        reg_lookup(retarget_spec(s, root)[root].registry, role, BindingKind::Target) == Some(
            k.target,
        ),
{
    lemma_retarget_consistent(s, root);
    let s2 = retarget_spec(s, root);
    assert(ik_consistent_at(s2, s2[root].registry, j));
}

/// Applying a schema subtree beneath a completely matched parent binds
/// every role of the subtree and synthesizes a target for every
/// target-generating role — and for no other.
pub proof fn lemma_apply_complete(
    s0: Seq<NodeView>,
    s: Seq<NodeView>,
    sc: SchemaView,
    av: int,
    arm: int,
    parent: int,
)
    requires
        seq_wf(s0),
        seq_wf(s),
        distinct_names(s0),
        pass_extension(s0, s),
        s.len() + schema_size(sc) <= usize::MAX,
        0 <= av < s.len(),
        0 <= arm < s.len(),
        0 <= parent < s0.len(),
        schema_wf(sc),
        rig_complete(s0, sc, parent),
    ensures
        ({
            let s2 = apply_schema_spec(s, sc, av, arm, parent);
            let reg = s[av].registry;
            let reg2 = s2[av].registry;
            &&& seq_wf(s2)
            &&& pass_extension(s0, s2)
            &&& s.len() <= s2.len() <= s.len() + schema_size(sc)
            &&& reg.len() <= reg2.len()
            &&& forall|x: int| 0 <= x < reg.len() ==> #[trigger] reg2[x] == reg[x]
            &&& forall|role: Role|
                schema_roles(sc).contains(role) ==> reg_contains(reg2, role, BindingKind::Bone)
            &&& forall|role: Role|
                schema_gen_roles(sc).contains(role) ==> reg_contains(
                    reg2,
                    role,
                    BindingKind::Target,
                )
            &&& forall|x: int|
                reg.len() <= x < reg2.len() && (#[trigger] reg2[x]).kind is Target
                    ==> schema_gen_roles(sc).contains(reg2[x].role)
        }),
    decreases sc, 0int,
{
    let reg = s[av].registry;
    let f = choose|f: int|
        0 <= f < s0.len() && #[trigger] in_subtree(s0, parent, f) && s0[f].name
            == sc.expected_name && rig_children_complete(s0, sc.children, 0, f);
    crate::search::lemma_in_subtree_mono(s0, s, parent, f);
    assert(s[f].name == sc.expected_name);
    crate::search::lemma_subtree_search_complete(s, sc.expected_name, parent, f);
    let found = subtree_search(s, sc.expected_name, parent)->0;
    lemma_subtree_search_found(s, sc.expected_name, parent, found);
    assert(found < s0.len()) by {
        if found >= s0.len() {
            assert(is_target_name(s[found as int].name));
            let r = choose|r: Role| s[found as int].name == spec_target_name(r);
        }
    }
    assert(found == f) by {
        if (found as int) < f {
            assert(s0[found as int].name == s0[f].name);
        } else if f < (found as int) {
            assert(s0[f].name == s0[found as int].name);
        }
    }
    lemma_bind_bone_wf_ext(s, av, sc.role, found as int);
    let s1 = bind_bone(s, av, sc.role, found as int);
    let reg1 = s1[av].registry;
    assert(reg1 == reg.push(
        RegistryEntry { role: sc.role, kind: BindingKind::Bone, node: found },
    ));
    assert(pass_extension(s0, s1)) by {
        assert forall|q: int| 0 <= q < s0.len() implies (#[trigger] s1[q]).name == s0[q].name
            && s1[q].children == s[q].children by {}
    }
    let s2 = if sc.generates_target {
        spawn_target(s1, av, arm, sc.role, sc.ik_chain_length, found as int)
    } else {
        s1
    };
    let reg2 = s2[av].registry;
    if sc.generates_target {
        crate::retarget::lemma_spawn_target_wf(
            s1,
            av,
            arm,
            sc.role,
            sc.ik_chain_length,
            found as int,
        );
        assert(reg2 == reg1.push(
            RegistryEntry { role: sc.role, kind: BindingKind::Target, node: s1.len() as usize },
        ));
        assert(pass_extension(s0, s2)) by {
            assert forall|q: int| 0 <= q < s0.len() implies (#[trigger] s2[q]).name == s0[
                q].name by {}
            assert forall|q: int, x: int|
                0 <= q < s0.len() && 0 <= x < s0[q].children.len() implies #[trigger] s2[
                q].children[x] == s0[q].children[x] by {
                assert(s1[q].children[x] == s0[q].children[x]);
            }
            assert forall|q: int| 0 <= q < s0.len() implies (#[trigger] s2[q]).children.len()
                >= s0[q].children.len() by {
                assert(s1[q].children.len() >= s0[q].children.len());
            }
            assert forall|q: int| s0.len() <= q < s2.len() implies is_target_name(
                (#[trigger] s2[q]).name,
            ) by {
                if q < s1.len() {
                    assert(s2[q].name == s1[q].name);
                } else {
                    assert(s2[q].name == spec_target_name(sc.role));
                }
            }
        }
    }
    assert(crate::retarget::schema_list_size(sc.children, 0) == 0);
    crate::retarget::lemma_schema_list_size_mono(sc.children, 0, sc.children.len() as int);
    lemma_children_complete(s0, s2, sc.children, 0, av, arm, f);
    let s3 = apply_children_spec(s2, sc.children, 0, av, arm, found as int);
    let reg3 = s3[av].registry;
    assert(s3 == apply_schema_spec(s, sc, av, arm, parent));
    assert(reg_contains(reg3, sc.role, BindingKind::Bone)) by {
        assert(reg3[reg.len() as int] == reg1[reg.len() as int]);
        assert(reg1[reg.len() as int].role == sc.role && reg1[reg.len() as int].kind
            == BindingKind::Bone);
    }
    if sc.generates_target {
        assert(reg_contains(reg3, sc.role, BindingKind::Target)) by {
            assert(reg3[reg1.len() as int] == reg2[reg1.len() as int]);
            assert(reg2[reg1.len() as int].role == sc.role && reg2[reg1.len() as int].kind
                == BindingKind::Target);
        }
    }
    assert forall|role: Role| schema_roles(sc).contains(role) implies reg_contains(
        reg3,
        role,
        BindingKind::Bone,
    ) by {
        if role == sc.role {
        } else {
            assert(roles_from(sc.children, 0).contains(role));
        }
    }
    assert forall|role: Role| schema_gen_roles(sc).contains(role) implies reg_contains(
        reg3,
        role,
        BindingKind::Target,
    ) by {
        if sc.generates_target && role == sc.role {
        } else {
            assert(gen_from(sc.children, 0).contains(role));
        }
    }
    assert forall|x: int|
        reg.len() <= x < reg3.len() && (#[trigger] reg3[x]).kind is Target implies schema_gen_roles(
        sc,
    ).contains(reg3[x].role) by {
        if x < reg2.len() {
            assert(reg3[x] == reg2[x]);
            if x >= reg1.len() {
                assert(sc.generates_target && reg2[x].role == sc.role);
            }
        } else {
            assert(gen_from(sc.children, 0).contains(reg3[x].role));
        }
    }
}

/// Companion induction over the schema children.
pub proof fn lemma_children_complete(
    s0: Seq<NodeView>,
    s: Seq<NodeView>,
    cs: Seq<SchemaView>,
    i: int,
    av: int,
    arm: int,
    parent: int,
)
    requires
        seq_wf(s0),
        seq_wf(s),
        distinct_names(s0),
        pass_extension(s0, s),
        s.len() + crate::retarget::schema_tail_size(cs, i) <= usize::MAX,
        0 <= i,
        0 <= av < s.len(),
        0 <= arm < s.len(),
        0 <= parent < s0.len(),
        children_wf(cs, i),
        rig_children_complete(s0, cs, i, parent),
    ensures
        ({
            let s3 = apply_children_spec(s, cs, i, av, arm, parent);
            let reg = s[av].registry;
            let reg3 = s3[av].registry;
            &&& seq_wf(s3)
            &&& pass_extension(s0, s3)
            &&& s.len() <= s3.len() <= s.len() + crate::retarget::schema_tail_size(cs, i)
            &&& reg.len() <= reg3.len()
            &&& forall|x: int| 0 <= x < reg.len() ==> #[trigger] reg3[x] == reg[x]
            &&& forall|role: Role|
                roles_from(cs, i).contains(role) ==> reg_contains(reg3, role, BindingKind::Bone)
            &&& forall|role: Role|
                gen_from(cs, i).contains(role) ==> reg_contains(reg3, role, BindingKind::Target)
            &&& forall|x: int|
                reg.len() <= x < reg3.len() && (#[trigger] reg3[x]).kind is Target ==> gen_from(
                    cs,
                    i,
                ).contains(reg3[x].role)
        }),
    decreases cs, cs.len() - i,
{
    let reg = s[av].registry;
    if i >= cs.len() {
    } else {
        crate::retarget::lemma_schema_list_size_mono(cs, 0, i);
        crate::retarget::lemma_schema_list_size_mono(cs, i + 1, cs.len() as int);
        assert(crate::retarget::schema_list_size(cs, i + 1) == schema_size(cs[i])
            + crate::retarget::schema_list_size(cs, i));
        lemma_apply_complete(s0, s, cs[i], av, arm, parent);
        let s2 = apply_schema_spec(s, cs[i], av, arm, parent);
        let reg2 = s2[av].registry;
        lemma_children_complete(s0, s2, cs, i + 1, av, arm, parent);
        let s3 = apply_children_spec(s2, cs, i + 1, av, arm, parent);
        let reg3 = s3[av].registry;
        assert(s3 == apply_children_spec(s, cs, i, av, arm, parent));
        assert forall|role: Role| roles_from(cs, i).contains(role) implies reg_contains(
            reg3,
            role,
            BindingKind::Bone,
        ) by {
            if schema_roles(cs[i]).contains(role) {
                assert(reg_contains(reg2, role, BindingKind::Bone));
                let e = choose|e: int|
                    0 <= e < reg2.len() && (#[trigger] reg2[e]).role == role && reg2[e].kind
                        == BindingKind::Bone;
                assert(reg3[e] == reg2[e]);
            } else {
                assert(roles_from(cs, i + 1).contains(role));
            }
        }
        assert forall|role: Role| gen_from(cs, i).contains(role) implies reg_contains(
            reg3,
            role,
            BindingKind::Target,
        ) by {
            if schema_gen_roles(cs[i]).contains(role) {
                assert(reg_contains(reg2, role, BindingKind::Target));
                let e = choose|e: int|
                    0 <= e < reg2.len() && (#[trigger] reg2[e]).role == role && reg2[e].kind
                        == BindingKind::Target;
                assert(reg3[e] == reg2[e]);
            } else {
                assert(gen_from(cs, i + 1).contains(role));
            }
        }
        assert forall|x: int|
            reg.len() <= x < reg3.len() && (#[trigger] reg3[x]).kind is Target implies gen_from(
            cs,
            i,
        ).contains(reg3[x].role) by {
            if x < reg2.len() {
                assert(reg3[x] == reg2[x]);
                assert(schema_gen_roles(cs[i]).contains(reg2[x].role));
            } else {
                assert(gen_from(cs, i + 1).contains(reg3[x].role));
            }
        }
    }
}

/// Well-formedness and shape of a bone binding, for the completeness
/// argument.
proof fn lemma_bind_bone_wf_ext(s: Seq<NodeView>, av: int, role: Role, found: int)
    requires
        seq_wf(s),
        s.len() <= usize::MAX,
        0 <= av < s.len(),
        0 <= found < s.len(),
    ensures
        bind_bone(s, av, role, found).len() == s.len(),
        seq_wf(bind_bone(s, av, role, found)),
        bind_bone(s, av, role, found)[av].registry == s[av].registry.push(
            RegistryEntry { role: role, kind: BindingKind::Bone, node: found as usize },
        ),
        forall|j: int|
            0 <= j < s.len() ==> (#[trigger] bind_bone(s, av, role, found)[j]).name == s[j].name
                && bind_bone(s, av, role, found)[j].children == s[j].children,
{
    crate::scene::lemma_seq_wf_same_children(s, bind_bone(s, av, role, found));
}

/// A rig whose nodes are uniquely named, none like a target node, and
/// which carries a complete standard armature beneath `root`.
pub open spec fn standard_rig_complete(s: Seq<NodeView>, root: int) -> bool {
    exists|a: int|
        0 <= a < s.len() && #[trigger] in_subtree(s, root, a) && s[a].name == "Armature"@
            && rig_complete(s, crate::schema::spec_standard_schema(), a)
}

/// Law: on a complete, uniquely named standard rig, one retargeting pass
/// binds all eighteen roles, and the registry holds a target entry for
/// exactly the target-generating roles.
pub proof fn law_complete_rig_binds_all_roles(s: Seq<NodeView>, root: int)
    requires
        seq_wf(s),
        pristine(s),
        distinct_names(s),
        no_target_names(s),
        0 <= root < s.len(),
        s.len() + schema_size(crate::schema::spec_standard_schema()) <= usize::MAX,
        standard_rig_complete(s, root),
    ensures
        forall|role: Role|
            reg_contains(
                retarget_spec(s, root)[root].registry,
                role,
                BindingKind::Bone,
            ),
        forall|role: Role|
            reg_contains(retarget_spec(s, root)[root].registry, role, BindingKind::Target)
                <==> crate::role::spec_generates_target(role),
{
    lemma_standard_schema_facts();
    let std = crate::schema::spec_standard_schema();
    let a = choose|a: int|
        0 <= a < s.len() && #[trigger] in_subtree(s, root, a) && s[a].name == "Armature"@
            && rig_complete(s, std, a);
    crate::search::lemma_subtree_search_complete(s, "Armature"@, root, a);
    let arm = subtree_search(s, "Armature"@, root)->0;
    lemma_subtree_search_found(s, "Armature"@, root, arm);
    assert(arm == a) by {
        if (arm as int) < a {
            assert(s[arm as int].name == s[a].name);
        } else if a < (arm as int) {
            assert(s[a].name == s[arm as int].name);
        }
    }
    lemma_bind_bone_wf_ext(s, root, Role::Root, arm as int);
    let s1 = bind_bone(s, root, Role::Root, arm as int);
    let reg1 = s1[root].registry;
    assert(pass_extension(s, s1)) by {
        assert(crate::search::scene_extends(s1, s));
    }
    lemma_apply_complete(s, s1, std, root, arm as int, a);
    let s2 = apply_schema_spec(s1, std, root, arm as int, arm as int);
    let reg2 = s2[root].registry;
    assert(s2 == retarget_spec(s, root));
    assert forall|role: Role| reg_contains(reg2, role, BindingKind::Bone) by {
        if role is Root {
            assert(reg2[0] == reg1[0]);
            assert(reg1[0] == (RegistryEntry {
                role: Role::Root,
                kind: BindingKind::Bone,
                node: arm,
            }));
        } else {
            assert(schema_roles(std).contains(role));
        }
    }
    assert forall|role: Role|
        reg_contains(reg2, role, BindingKind::Target) <==> crate::role::spec_generates_target(
        role,
    ) by {
        if crate::role::spec_generates_target(role) {
            assert(schema_gen_roles(std).contains(role));
        } else {
            if reg_contains(reg2, role, BindingKind::Target) {
                let e = choose|e: int|
                    0 <= e < reg2.len() && (#[trigger] reg2[e]).role == role && reg2[e].kind
                        == BindingKind::Target;
                assert(s[root].registry.len() == 0);
                assert(reg1.len() == 1);
                assert(e >= 1);
                assert(schema_gen_roles(std).contains(role));
            }
        }
    }
}

/// Binding a bone changes no name and no child list, so the mid-pass
/// extension relation survives it.
proof fn lemma_bind_preserves_extension(
    s0: Seq<NodeView>,
    s: Seq<NodeView>,
    av: int,
    role: Role,
    found: int,
)
    requires
        pass_extension(s0, s),
        0 <= av < s.len(),
        0 <= found < s.len(),
    ensures
        pass_extension(s0, bind_bone(s, av, role, found)),
{
    let s1 = bind_bone(s, av, role, found);
    assert forall|q: int| 0 <= q < s.len() implies (#[trigger] s1[q]).name == s[q].name && s1[
        q].children == s[q].children by {}
}

/// Synthesizing a target node appends one node bearing a target name and
/// only extends the armature's child list, so the mid-pass extension
/// relation survives it.
proof fn lemma_spawn_preserves_extension(
    s0: Seq<NodeView>,
    s: Seq<NodeView>,
    av: int,
    arm: int,
    role: Role,
    chain: Option<u32>,
    found: int,
)
    requires
        pass_extension(s0, s),
        seq_wf(s),
        s.len() < usize::MAX,
        0 <= av < s.len(),
        0 <= arm < s.len(),
        0 <= found < s.len(),
    ensures
        pass_extension(s0, spawn_target(s, av, arm, role, chain, found)),
{
    let s2 = spawn_target(s, av, arm, role, chain, found);
    crate::retarget::lemma_spawn_target_wf(s, av, arm, role, chain, found);
    assert forall|q: int| 0 <= q < s0.len() implies (#[trigger] s2[q]).name == s0[q].name by {
        assert(s2[q].name == s[q].name);
    }
    assert forall|q: int, x: int|
        0 <= q < s0.len() && 0 <= x < s0[q].children.len() implies #[trigger] s2[q].children[x]
        == s0[q].children[x] by {
        assert(s[q].children[x] == s0[q].children[x]);
        if q == arm {
            assert(s2[q].children[x] == s[q].children[x]);
        } else {
            assert(s2[q].children == s[q].children);
        }
    }
    assert forall|q: int| 0 <= q < s0.len() implies (#[trigger] s2[q]).children.len() >= s0[
        q].children.len() by {
        if q == arm {
            assert(s2[q].children.len() == s[q].children.len() + 1);
        } else {
            assert(s2[q].children == s[q].children);
        }
    }
    assert forall|q: int| s0.len() <= q < s2.len() implies is_target_name(
        (#[trigger] s2[q]).name,
    ) by {
        if q < s.len() {
            assert(s2[q].name == s[q].name);
        } else {
            assert(s2[q].name == spec_target_name(role));
        }
    }
}

/// An otherwise-complete standard rig whose spine is missing: the armature
/// and hips match, both leg branches are complete, and no node anywhere is
/// named `Spine`.
pub open spec fn spine_missing_rig(s: Seq<NodeView>, root: int) -> bool {
    &&& exists|a: int|
        0 <= a < s.len() && #[trigger] in_subtree(s, root, a) && s[a].name == "Armature"@ && (
        exists|h: int|
            0 <= h < s.len() && #[trigger] in_subtree(s, a, h) && s[h].name == "Hips"@
                && rig_complete(s, crate::schema::spec_standard_schema().children[0], h)
                && rig_complete(s, crate::schema::spec_standard_schema().children[1], h))
    &&& forall|i: int| 0 <= i < s.len() ==> (#[trigger] s[i]).name != "Spine"@
}

/// Law: a missing spine skips exactly its own branch. The hips and both
/// leg branches still bind (with targets for the hips and the feet), while
/// the spine, chest, neck, head, arm, forearm and hand roles stay out of
/// the registry entirely.
#[verifier::rlimit(80)]
#[verifier::spinoff_prover]
pub proof fn law_missing_spine(s: Seq<NodeView>, root: int)
    requires
        seq_wf(s),
        pristine(s),
        distinct_names(s),
        no_target_names(s),
        0 <= root < s.len(),
        s.len() + schema_size(crate::schema::spec_standard_schema()) <= usize::MAX,
        spine_missing_rig(s, root),
    ensures
        ({
            let reg = retarget_spec(s, root)[root].registry;
            &&& reg_contains(reg, Role::Root, BindingKind::Bone)
            &&& reg_contains(reg, Role::Hips, BindingKind::Bone)
            &&& reg_contains(reg, Role::Hips, BindingKind::Target)
            &&& reg_contains(reg, Role::ThighL, BindingKind::Bone)
            &&& reg_contains(reg, Role::ThighR, BindingKind::Bone)
            &&& reg_contains(reg, Role::LegL, BindingKind::Bone)
            &&& reg_contains(reg, Role::LegR, BindingKind::Bone)
            &&& reg_contains(reg, Role::FootL, BindingKind::Bone)
            &&& reg_contains(reg, Role::FootR, BindingKind::Bone)
            &&& reg_contains(reg, Role::FootL, BindingKind::Target)
            &&& reg_contains(reg, Role::FootR, BindingKind::Target)
            &&& forall|role: Role, kind: BindingKind|
                (role is Spine || role is Chest || role is Neck || role is Head || role is ArmL
                    || role is ArmR || role is ForearmL || role is ForearmR || role is HandL
                    || role is HandR) ==> !reg_contains(reg, role, kind)
        }),
{
    reveal_strlit("Armature");
    reveal_strlit("Hips");
    reveal_strlit("Spine");
    reveal_strlit("Thigh.L");
    reveal_strlit("Thigh.R");
    reveal_strlit("Leg.L");
    reveal_strlit("Leg.R");
    reveal_strlit("Foot.L");
    reveal_strlit("Foot.R");
    lemma_standard_schema_facts();
    let std = crate::schema::spec_standard_schema();
    let thigh_l = std.children[0];
    let thigh_r = std.children[1];
    let spine = std.children[2];
    assert(schema_wf(thigh_l) && schema_wf(thigh_r)) by {
        assert(children_wf(std.children, 0));
        assert(children_wf(std.children, 1));
    }
    lemma_leaf_sets(Role::FootL, "Foot.L"@);
    lemma_chain_sets(Role::LegL, "Leg.L"@, crate::schema::leaf_view(Role::FootL, "Foot.L"@));
    lemma_chain_sets(
        Role::ThighL,
        "Thigh.L"@,
        crate::schema::chain_view(
            Role::LegL,
            "Leg.L"@,
            crate::schema::leaf_view(Role::FootL, "Foot.L"@),
        ),
    );
    lemma_leaf_sets(Role::FootR, "Foot.R"@);
    lemma_chain_sets(Role::LegR, "Leg.R"@, crate::schema::leaf_view(Role::FootR, "Foot.R"@));
    lemma_chain_sets(
        Role::ThighR,
        "Thigh.R"@,
        crate::schema::chain_view(
            Role::LegR,
            "Leg.R"@,
            crate::schema::leaf_view(Role::FootR, "Foot.R"@),
        ),
    );
    let roles_l = schema_roles(thigh_l);
    let roles_r = schema_roles(thigh_r);
    let a0 = choose|a: int|
        0 <= a < s.len() && #[trigger] in_subtree(s, root, a) && s[a].name == "Armature"@ && (
        exists|h: int|
            0 <= h < s.len() && #[trigger] in_subtree(s, a, h) && s[h].name == "Hips"@
                && rig_complete(s, std.children[0], h) && rig_complete(s, std.children[1], h));
    let h0 = choose|h: int|
        0 <= h < s.len() && #[trigger] in_subtree(s, a0, h) && s[h].name == "Hips"@
            && rig_complete(s, std.children[0], h) && rig_complete(s, std.children[1], h);
    // the armature is found, and it is the named armature node
    crate::search::lemma_subtree_search_complete(s, "Armature"@, root, a0);
    let arm = subtree_search(s, "Armature"@, root)->0;
    lemma_subtree_search_found(s, "Armature"@, root, arm);
    assert(arm == a0) by {
        if (arm as int) < a0 {
            assert(s[arm as int].name == s[a0].name);
        } else if a0 < (arm as int) {
            assert(s[a0].name == s[arm as int].name);
        }
    }
    let empty_bound = Set::<Seq<char>>::empty();
    assert(consistent(s, root, empty_bound)) by {
        assert(s[root].registry.len() == 0);
        assert forall|j: int| 0 <= j < s.len() implies #[trigger] ik_consistent_at(
            s,
            s[root].registry,
            j,
        ) by {
            assert(s[j].ik is None);
        }
    }
    // bind the armature as the root bone
    lemma_bind_consistent(s, root, Role::Root, arm as int, empty_bound);
    lemma_bind_bone_wf_ext(s, root, Role::Root, arm as int);
    let s1 = bind_bone(s, root, Role::Root, arm as int);
    let bound1 = empty_bound.insert("Armature"@);
    assert(pass_extension(s, s1)) by {
        assert(crate::search::scene_extends(s1, s));
    }
    // the hips are found beneath the armature, and they are the named node
    crate::search::lemma_in_subtree_mono(s, s1, a0, h0);
    assert(s1[h0].name == "Hips"@);
    crate::search::lemma_subtree_search_complete(s1, "Hips"@, arm as int, h0);
    let hf = subtree_search(s1, "Hips"@, arm as int)->0;
    lemma_subtree_search_found(s1, "Hips"@, arm as int, hf);
    assert(hf == h0) by {
        assert(s1[hf as int].name == s[hf as int].name);
        if (hf as int) < h0 {
            assert(s[hf as int].name == s[h0].name);
        } else if h0 < (hf as int) {
            assert(s[h0].name == s[hf as int].name);
        }
    }
    // bind the hips and synthesize their target
    assert(!bound1.contains(s1[hf as int].name));
    lemma_short_name_not_target("Hips"@);
    assert forall|e: int| 0 <= e < s1[root].registry.len() implies (#[trigger] s1[
        root].registry[e]).role != Role::Hips by {}
    lemma_bind_consistent(s1, root, Role::Hips, hf as int, bound1);
    lemma_bind_bone_wf_ext(s1, root, Role::Hips, hf as int);
    lemma_bind_preserves_extension(s, s1, root, Role::Hips, hf as int);
    let s2 = bind_bone(s1, root, Role::Hips, hf as int);
    let bound2 = bound1.insert("Hips"@);
    assert(s2[hf as int].bone == Some(Role::Hips));
    assert(s1[hf as int].bone is None);
    assert(ik_consistent_at(s1, s1[root].registry, hf as int));
    assert(s1[hf as int].ik is None);
    assert(s2[hf as int].ik is None);
    assert forall|e: int|
        0 <= e < s2[root].registry.len() implies !((#[trigger] s2[root].registry[e]).role
        == Role::Hips && s2[root].registry[e].kind is Target) by {
        if e < s1[root].registry.len() {
            assert(s2[root].registry[e] == s1[root].registry[e]);
        }
    }
    lemma_spawn_consistent(s2, root, arm as int, Role::Hips, std.ik_chain_length, hf as int, bound2);
    crate::retarget::lemma_spawn_target_wf(
        s2,
        root,
        arm as int,
        Role::Hips,
        std.ik_chain_length,
        hf as int,
    );
    lemma_spawn_preserves_extension(
        s,
        s2,
        root,
        arm as int,
        Role::Hips,
        std.ik_chain_length,
        hf as int,
    );
    let s3 = spawn_target(s2, root, arm as int, Role::Hips, std.ik_chain_length, hf as int);
    let reg3 = s3[root].registry;
    assert(reg3.len() == 3);
    assert(reg3[0] == (RegistryEntry { role: Role::Root, kind: BindingKind::Bone, node: arm }));
    assert(reg3[1] == (RegistryEntry { role: Role::Hips, kind: BindingKind::Bone, node: hf }));
    assert(reg3[2] == (RegistryEntry {
        role: Role::Hips,
        kind: BindingKind::Target,
        node: s2.len() as usize,
    }));
    // the left leg branch binds completely
    assert(crate::retarget::schema_list_size(std.children, 0) == 0);
    assert(crate::retarget::schema_list_size(std.children, 1) == schema_size(thigh_l));
    assert(crate::retarget::schema_list_size(std.children, 2) == schema_size(thigh_l)
        + schema_size(thigh_r));
    assert(crate::retarget::schema_list_size(std.children, 3) == schema_size(thigh_l)
        + schema_size(thigh_r) + schema_size(spine));
    crate::retarget::lemma_schema_list_size_mono(std.children, 0, std.children.len() as int);
    lemma_apply_complete(s, s3, thigh_l, root, arm as int, hf as int);
    assert forall|e: int| 0 <= e < reg3.len() implies !roles_l.contains(
        (#[trigger] reg3[e]).role,
    ) by {}
    assert(schema_names(thigh_l).disjoint(bound2)) by {
        assert forall|n: Seq<char>| schema_names(thigh_l).contains(n) implies !bound2.contains(
            n,
        ) by {
            assert(n == "Thigh.L"@ || n == "Leg.L"@ || n == "Foot.L"@);
        }
    }
    lemma_apply_schema_consistent(s3, thigh_l, root, arm as int, hf as int, bound2);
    let s4 = apply_schema_spec(s3, thigh_l, root, arm as int, hf as int);
    let reg4 = s4[root].registry;
    let bound4 = bound2.union(schema_names(thigh_l));
    // the right leg branch binds completely
    lemma_apply_complete(s, s4, thigh_r, root, arm as int, hf as int);
    assert forall|e: int| 0 <= e < reg4.len() implies !roles_r.contains(
        (#[trigger] reg4[e]).role,
    ) by {
        if e < 3 {
            assert(reg4[e] == reg3[e]);
        } else {
            assert(roles_l.contains(reg4[e].role));
        }
    }
    assert(schema_names(thigh_r).disjoint(bound4)) by {
        assert forall|n: Seq<char>| schema_names(thigh_r).contains(n) implies !bound4.contains(
            n,
        ) by {
            assert(n == "Thigh.R"@ || n == "Leg.R"@ || n == "Foot.R"@);
        }
    }
    lemma_apply_schema_consistent(s4, thigh_r, root, arm as int, hf as int, bound4);
    let s5 = apply_schema_spec(s4, thigh_r, root, arm as int, hf as int);
    let reg5 = s5[root].registry;
    // the spine has no match anywhere, so its whole branch is skipped
    assert(spine.expected_name == "Spine"@);
    assert forall|i: int| in_subtree(s5, hf as int, i) implies (#[trigger] s5[i]).name
        != "Spine"@ by {
        crate::search::lemma_in_subtree_index(s5, hf as int, i);
        if i < s.len() {
            assert(s5[i].name == s[i].name);
        } else {
            assert(is_target_name(s5[i].name));
            let r = choose|r: Role| s5[i].name == spec_target_name(r);
            lemma_short_name_not_target("Spine"@);
        }
    }
    law_missing_role_skips_subtree(s5, spine, root as int, arm as int, hf as int);
    let s6 = apply_schema_spec(s5, spine, root as int, arm as int, hf as int);
    assert(s6 == s5);
    // assemble the full pass
    assert(apply_children_spec(s6, std.children, 3, root as int, arm as int, hf as int) == s6);
    assert(apply_children_spec(s5, std.children, 2, root as int, arm as int, hf as int) == s6);
    assert(apply_children_spec(s4, std.children, 1, root as int, arm as int, hf as int) == s6);
    assert(apply_children_spec(s3, std.children, 0, root as int, arm as int, hf as int) == s6);
    assert(retarget_spec(s, root) == s6);
    let reg = s6[root].registry;
    assert(reg == reg5);
    // positive bindings
    assert(reg_contains(reg, Role::Root, BindingKind::Bone)) by {
        assert(reg[0] == reg3[0]);
    }
    assert(reg_contains(reg, Role::Hips, BindingKind::Bone)) by {
        assert(reg[1] == reg3[1]);
    }
    assert(reg_contains(reg, Role::Hips, BindingKind::Target)) by {
        assert(reg[2] == reg3[2]);
    }
    assert(reg_contains(reg4, Role::ThighL, BindingKind::Bone) && reg_contains(
        reg4,
        Role::LegL,
        BindingKind::Bone,
    ) && reg_contains(reg4, Role::FootL, BindingKind::Bone) && reg_contains(
        reg4,
        Role::FootL,
        BindingKind::Target,
    )) by {
        assert(roles_l.contains(Role::ThighL) && roles_l.contains(Role::LegL)
            && roles_l.contains(Role::FootL));
        assert(schema_gen_roles(thigh_l).contains(Role::FootL));
    }
    assert forall|role: Role, kind: BindingKind|
        reg_contains(reg4, role, kind) implies reg_contains(reg5, role, kind) by {
        if reg_contains(reg4, role, kind) {
            let e = choose|e: int|
                0 <= e < reg4.len() && (#[trigger] reg4[e]).role == role && reg4[e].kind == kind;
            assert(reg5[e] == reg4[e]);
        }
    }
    assert(reg_contains(reg5, Role::ThighR, BindingKind::Bone) && reg_contains(
        reg5,
        Role::LegR,
        BindingKind::Bone,
    ) && reg_contains(reg5, Role::FootR, BindingKind::Bone) && reg_contains(
        reg5,
        Role::FootR,
        BindingKind::Target,
    )) by {
        assert(roles_r.contains(Role::ThighR) && roles_r.contains(Role::LegR)
            && roles_r.contains(Role::FootR));
        assert(schema_gen_roles(thigh_r).contains(Role::FootR));
    }
    // the spine branch stays out of the registry
    assert forall|role: Role, kind: BindingKind|
        (role is Spine || role is Chest || role is Neck || role is Head || role is ArmL
            || role is ArmR || role is ForearmL || role is ForearmR || role is HandL
            || role is HandR) implies !reg_contains(reg, role, kind) by {
        if reg_contains(reg, role, kind) {
            let e = choose|e: int|
                0 <= e < reg.len() && (#[trigger] reg[e]).role == role && reg[e].kind == kind;
            if e < 3 {
                assert(reg[e] == reg3[e]);
            } else if e < reg4.len() {
                assert(reg[e] == reg4[e]);
                assert(roles_l.contains(role));
            } else {
                assert(roles_r.contains(role));
            }
        }
    }
}

} // verus!
