//! Name-search traversal: locating a descendant node by exact name.
//!
//! The executable search keeps an explicit work-stack. It pops the most
//! recently pushed node, then pushes that node's children in declared order,
//! returning as soon as a pushed child carries the searched name. When a
//! whole child list is scanned without a match, the stack therefore explores
//! the *last* child's subtree before the subtrees of its earlier siblings.
//! With duplicate names the returned node is determined by exactly this
//! order, which the specification functions below pin down.

use vstd::prelude::*;

use crate::scene::{seq_wf, NodeView, Scene};

verus! {

/// `a` if it holds a value, else `b`: the first hit of two search phases.
pub open spec fn opt_or(a: Option<usize>, b: Option<usize>) -> Option<usize> {
    match a {
        Some(r) => Some(r),
        None => b,
    }
}

/// First child of `n`, at child position `j` or later, whose name is `t`.
pub open spec fn first_named(s: Seq<NodeView>, t: Seq<char>, n: int, j: int) -> Option<usize>
    decreases s[n].children.len() - j
        when 0 <= n < s.len() && 0 <= j
{
    if j >= s[n].children.len() {
        None
    } else if s[s[n].children[j] as int].name == t {
        Some(s[n].children[j])
    } else {
        first_named(s, t, n, j + 1)
    }
}

/// Search of the subtrees below the children of `n` in stack order: the
/// subtree of child `i - 1` first, then down to the subtree of child `lo`.
pub open spec fn search_range(s: Seq<NodeView>, t: Seq<char>, n: int, lo: int, i: int) -> Option<
    usize,
>
    decreases s.len() - n, i
        when seq_wf(s) && 0 <= n < s.len() && 0 <= lo && i <= s[n].children.len()
{
    if i <= lo {
        None
    } else {
        opt_or(
            subtree_search(s, t, s[n].children[i - 1] as int),
            search_range(s, t, n, lo, i - 1),
        )
    }
}

/// Node found by the work-stack traversal started at `n`: the first child of
/// `n` named `t` in declared order if there is one, otherwise the first hit
/// while exploring the children's subtrees from the last child backwards.
/// `n` itself is never a candidate.
pub open spec fn subtree_search(s: Seq<NodeView>, t: Seq<char>, n: int) -> Option<usize>
    decreases s.len() - n, s[n].children.len() + 1
        when seq_wf(s) && 0 <= n < s.len()
{
    opt_or(first_named(s, t, n, 0), search_range(s, t, n, 0, s[n].children.len() as int))
}

/// Result of running the traversal to completion on a whole work-stack: the
/// top entry's subtree is searched before the entries below it.
pub open spec fn stack_search(s: Seq<NodeView>, t: Seq<char>, stack: Seq<usize>) -> Option<usize>
    decreases stack.len(),
{
    if stack.len() == 0 {
        None
    } else {
        opt_or(
            subtree_search(s, t, stack.last() as int),
            stack_search(s, t, stack.drop_last()),
        )
    }
}

/// Number of nodes in the subtree rooted at `n` (counting duplicates once
/// per child edge).
pub open spec fn subtree_size(s: Seq<NodeView>, n: int) -> nat
    decreases s.len() - n, s[n].children.len() + 1
        when seq_wf(s) && 0 <= n < s.len()
{
    1 + size_range(s, n, s[n].children.len() as int)
}

/// Total size of the subtrees of the first `i` children of `n`.
pub open spec fn size_range(s: Seq<NodeView>, n: int, i: int) -> nat
    decreases s.len() - n, i
        when seq_wf(s) && 0 <= n < s.len() && i <= s[n].children.len()
{
    if i <= 0 {
        0
    } else {
        subtree_size(s, s[n].children[i - 1] as int) + size_range(s, n, i - 1)
    }
}

/// Work still ahead of the traversal: total size of the subtrees on the
/// stack.
pub open spec fn stack_measure(s: Seq<NodeView>, stack: Seq<usize>) -> nat
    decreases stack.len(),
{
    if stack.len() == 0 {
        0
    } else {
        subtree_size(s, stack.last() as int) + stack_measure(s, stack.drop_last())
    }
}

/// Peels the *last*-searched subtree off a stack-order range search: the
/// range down to `lo` is the range down to `lo + 1` followed by the subtree
/// of child `lo`.
proof fn lemma_search_range_peel(s: Seq<NodeView>, t: Seq<char>, n: int, lo: int, i: int)
    requires
        seq_wf(s),
        0 <= n < s.len(),
        0 <= lo < i <= s[n].children.len(),
    ensures
        search_range(s, t, n, lo, i) == opt_or(
            search_range(s, t, n, lo + 1, i),
            subtree_search(s, t, s[n].children[lo] as int),
        ),
    decreases i,
{
    if i == lo + 1 {
        assert(search_range(s, t, n, lo + 1, i) is None);
        assert(search_range(s, t, n, lo, lo) is None);
    } else {
        lemma_search_range_peel(s, t, n, lo, i - 1);
    }
}

impl Scene {
    /// Searches the descendants of `start` for a node named exactly
    /// `target`, in work-stack order: children are examined in declared
    /// order, and an unmatched node's last child has its subtree explored
    /// before the subtrees of its earlier siblings. `start` itself is not a
    /// candidate. Returns `None` exactly when the traversal finds no match.
    pub fn find_by_name_in_childs(&self, target: &String, start: usize) -> (r: Option<usize>)
        requires
            self.wf(),
            start < self@.len(),
        ensures
            r == subtree_search(self@, target@, start as int),
    {
        let ghost s = self@;
        let ghost t = target@;
        let ghost answer = subtree_search(s, t, start as int);
        let mut stack: Vec<usize> = Vec::new();
        stack.push(start);
        proof {
            assert(stack@.last() == start);
            assert(stack@.drop_last() =~= Seq::<usize>::empty());
            assert(stack_search(s, t, Seq::<usize>::empty()) is None);
            assert(stack_search(s, t, stack@) == opt_or(
                subtree_search(s, t, start as int),
                stack_search(s, t, Seq::<usize>::empty()),
            ));
        }
        while stack.len() > 0
            invariant
                seq_wf(s),
                s == self@,
                t == target@,
                forall|q: int| 0 <= q < stack@.len() ==> #[trigger] stack@[q] < s.len(),
                answer == stack_search(s, t, stack@),
                answer == subtree_search(s, t, start as int),
            decreases stack_measure(s, stack@),
        {
            let ghost stack0 = stack@;
            let n = stack.pop().unwrap();
            let ghost rest = stack@;
            proof {
                assert(stack0.last() == n && stack0.drop_last() == rest);
                assert(answer == opt_or(
                    subtree_search(s, t, n as int),
                    stack_search(s, t, rest),
                ));
                assert(stack_measure(s, stack0) == subtree_size(s, n as int) + stack_measure(
                    s,
                    rest,
                ));
            }
            let k = self.nodes[n].children.len();
            let mut j: usize = 0;
            proof {
                assert(size_range(s, n as int, 0) == 0);
            }
            while j < k
                invariant
                    seq_wf(s),
                    s == self@,
                    t == target@,
                    n < s.len(),
                    k == s[n as int].children.len(),
                    0 <= j <= k,
                    forall|q: int| 0 <= q < stack@.len() ==> #[trigger] stack@[q] < s.len(),
                    answer == subtree_search(s, t, start as int),
                    answer == opt_or(
                        first_named(s, t, n as int, j as int),
                        opt_or(
                            search_range(s, t, n as int, j as int, k as int),
                            stack_search(s, t, stack@),
                        ),
                    ),
                    stack_measure(s, stack@) == stack_measure(s, rest) + size_range(
                        s,
                        n as int,
                        j as int,
                    ),
                    stack_measure(s, stack0) == subtree_size(s, n as int) + stack_measure(s, rest),
                decreases k - j,
            {
                let ghost stack_in = stack@;
                let c = self.nodes[n].children[j];
                stack.push(c);
                proof {
                    assert(stack@.last() == c);
                    assert(stack@.drop_last() =~= stack_in);
                    assert(stack_search(s, t, stack@) == opt_or(
                        subtree_search(s, t, c as int),
                        stack_search(s, t, stack_in),
                    ));
                    assert(stack_measure(s, stack@) == subtree_size(s, c as int) + stack_measure(
                        s,
                        stack_in,
                    ));
                    assert(size_range(s, n as int, j + 1) == subtree_size(s, c as int)
                        + size_range(s, n as int, j as int));
                }
                if self.nodes[c].name == *target {
                    proof {
                        assert(first_named(s, t, n as int, j as int) == Some(c));
                    }
                    return Some(c);
                }
                proof {
                    assert(s[c as int].name != t);
                    assert(first_named(s, t, n as int, j as int) == first_named(
                        s,
                        t,
                        n as int,
                        j as int + 1,
                    ));
                    lemma_search_range_peel(s, t, n as int, j as int, k as int);
                }
                j += 1;
            }
            proof {
                assert(first_named(s, t, n as int, k as int) is None);
                assert(search_range(s, t, n as int, k as int, k as int) is None);
                assert(answer == stack_search(s, t, stack@));
                assert(subtree_size(s, n as int) == 1 + size_range(s, n as int, k as int));
                assert(stack_measure(s, stack@) < stack_measure(s, stack0));
            }
        }
        proof {
            assert(stack@ =~= Seq::<usize>::empty());
            assert(stack_search(s, t, stack@) is None);
        }
        None
    }
}

/// `i` appears among the first `j` children of `n` or in one of their
/// subtrees.
pub open spec fn in_child_list(s: Seq<NodeView>, n: int, j: int, i: int) -> bool
    decreases s.len() - n, j
        when seq_wf(s) && 0 <= n < s.len() && j <= s[n].children.len()
{
    if j <= 0 {
        false
    } else {
        s[n].children[j - 1] == i || in_subtree(s, s[n].children[j - 1] as int, i)
            || in_child_list(s, n, j - 1, i)
    }
}

/// `i` is a strict descendant of `n`: a child of `n`, or a descendant of a
/// child.
pub open spec fn in_subtree(s: Seq<NodeView>, n: int, i: int) -> bool
    decreases s.len() - n, s[n].children.len() + 1
        when seq_wf(s) && 0 <= n < s.len()
{
    in_child_list(s, n, s[n].children.len() as int, i)
}

/// Membership among the first `j` children persists as `j` grows.
proof fn lemma_in_child_list_mono(s: Seq<NodeView>, n: int, j: int, jj: int, i: int)
    requires
        seq_wf(s),
        0 <= n < s.len(),
        0 <= j <= jj <= s[n].children.len(),
        in_child_list(s, n, j, i),
    ensures
        in_child_list(s, n, jj, i),
    decreases jj - j,
{
    if j < jj {
        lemma_in_child_list_mono(s, n, j + 1, jj, i);
    }
}

/// A child of `n` is in `n`'s subtree.
proof fn lemma_child_in_subtree(s: Seq<NodeView>, n: int, p: int)
    requires
        seq_wf(s),
        0 <= n < s.len(),
        0 <= p < s[n].children.len(),
    ensures
        in_subtree(s, n, s[n].children[p] as int),
{
    assert(in_child_list(s, n, p + 1, s[n].children[p] as int));
    lemma_in_child_list_mono(s, n, p + 1, s[n].children.len() as int, s[n].children[p] as int);
}

/// A descendant of a child of `n` is in `n`'s subtree.
proof fn lemma_desc_in_subtree(s: Seq<NodeView>, n: int, p: int, i: int)
    requires
        seq_wf(s),
        0 <= n < s.len(),
        0 <= p < s[n].children.len(),
        in_subtree(s, s[n].children[p] as int, i),
    ensures
        in_subtree(s, n, i),
{
    assert(in_child_list(s, n, p + 1, i));
    lemma_in_child_list_mono(s, n, p + 1, s[n].children.len() as int, i);
}

/// Whatever `first_named` returns is a child of `n` bearing the searched
/// name.
proof fn lemma_first_named_found(s: Seq<NodeView>, t: Seq<char>, n: int, j: int, r: usize)
    requires
        seq_wf(s),
        0 <= n < s.len(),
        0 <= j <= s[n].children.len(),
        first_named(s, t, n, j) == Some(r),
    ensures
        n < r < s.len(),
        s[r as int].name == t,
        in_subtree(s, n, r as int),
    decreases s[n].children.len() - j,
{
    if j < s[n].children.len() {
        if s[s[n].children[j] as int].name == t {
            lemma_child_in_subtree(s, n, j);
        } else {
            lemma_first_named_found(s, t, n, j + 1, r);
        }
    }
}

/// Whatever a stack-order range search returns is a strict descendant of
/// `n` bearing the searched name.
proof fn lemma_search_range_found(s: Seq<NodeView>, t: Seq<char>, n: int, lo: int, i: int, r: usize)
    requires
        seq_wf(s),
        0 <= n < s.len(),
        0 <= lo,
        i <= s[n].children.len(),
        search_range(s, t, n, lo, i) == Some(r),
    ensures
        n < r < s.len(),
        s[r as int].name == t,
        in_subtree(s, n, r as int),
    decreases s.len() - n, i,
{
    if i > lo {
        let c = s[n].children[i - 1] as int;
        if subtree_search(s, t, c) == Some(r) {
            lemma_subtree_search_found(s, t, c, r);
            lemma_desc_in_subtree(s, n, i - 1, r as int);
        } else {
            lemma_search_range_found(s, t, n, lo, i - 1, r);
        }
    }
}

/// Whatever the traversal returns is a strict descendant of the start node
/// bearing the searched name; in particular it is never the start node.
pub proof fn lemma_subtree_search_found(s: Seq<NodeView>, t: Seq<char>, n: int, r: usize)
    requires
        seq_wf(s),
        0 <= n < s.len(),
        subtree_search(s, t, n) == Some(r),
    ensures
        n < r < s.len(),
        s[r as int].name == t,
        in_subtree(s, n, r as int),
    decreases s.len() - n, s[n].children.len() + 1,
{
    if first_named(s, t, n, 0) == Some(r) {
        lemma_first_named_found(s, t, n, 0, r);
    } else {
        lemma_search_range_found(s, t, n, 0, s[n].children.len() as int, r);
    }
}

/// If some child of `n` at position `p >= j` bears the searched name, the
/// child scan from `j` hits.
proof fn lemma_first_named_exists(s: Seq<NodeView>, t: Seq<char>, n: int, j: int, p: int)
    requires
        seq_wf(s),
        0 <= n < s.len(),
        0 <= j <= p < s[n].children.len(),
        s[s[n].children[p] as int].name == t,
    ensures
        first_named(s, t, n, j) is Some,
    decreases p - j,
{
    if j < p {
        if s[s[n].children[j] as int].name != t {
            lemma_first_named_exists(s, t, n, j + 1, p);
        }
    }
}

/// If the subtree of some child in range hits, the range search hits.
proof fn lemma_search_range_exists(s: Seq<NodeView>, t: Seq<char>, n: int, lo: int, i: int, p: int)
    requires
        seq_wf(s),
        0 <= n < s.len(),
        0 <= lo <= p < i <= s[n].children.len(),
        subtree_search(s, t, s[n].children[p] as int) is Some,
    ensures
        search_range(s, t, n, lo, i) is Some,
    decreases i,
{
    if p < i - 1 {
        lemma_search_range_exists(s, t, n, lo, i - 1, p);
    }
}

/// The traversal is complete: if any strict descendant of `n` bears the
/// searched name, the search returns a node.
pub proof fn lemma_subtree_search_complete(s: Seq<NodeView>, t: Seq<char>, n: int, i: int)
    requires
        seq_wf(s),
        0 <= n < s.len(),
        in_subtree(s, n, i),
        0 <= i < s.len(),
        s[i].name == t,
    ensures
        subtree_search(s, t, n) is Some,
    decreases s.len() - n, s[n].children.len() + 1,
{
    lemma_in_child_list_complete(s, t, n, s[n].children.len() as int, i);
}

/// Helper for completeness: membership among the first `j` children.
proof fn lemma_in_child_list_complete(s: Seq<NodeView>, t: Seq<char>, n: int, j: int, i: int)
    requires
        seq_wf(s),
        0 <= n < s.len(),
        0 < j <= s[n].children.len(),
        in_child_list(s, n, j, i),
        0 <= i < s.len(),
        s[i].name == t,
    ensures
        subtree_search(s, t, n) is Some,
    decreases s.len() - n, j,
{
    let c = s[n].children[j - 1];
    if c == i {
        lemma_first_named_exists(s, t, n, 0, j - 1);
    } else if in_subtree(s, c as int, i) {
        lemma_subtree_search_complete(s, t, c as int, i);
        lemma_search_range_exists(s, t, n, 0, s[n].children.len() as int, j - 1);
    } else {
        assert(in_child_list(s, n, j - 1, i)) by {
            reveal_with_fuel(in_child_list, 2);
        }
        lemma_in_child_list_complete(s, t, n, j - 1, i);
    }
}

/// Every strict descendant has a strictly larger index than its ancestor.
pub proof fn lemma_in_subtree_index(s: Seq<NodeView>, n: int, i: int)
    requires
        seq_wf(s),
        0 <= n < s.len(),
        in_subtree(s, n, i),
    ensures
        n < i < s.len(),
    decreases s.len() - n, s[n].children.len() + 1,
{
    lemma_in_child_list_index(s, n, s[n].children.len() as int, i);
}

proof fn lemma_in_child_list_index(s: Seq<NodeView>, n: int, j: int, i: int)
    requires
        seq_wf(s),
        0 <= n < s.len(),
        0 < j <= s[n].children.len(),
        in_child_list(s, n, j, i),
    ensures
        n < i < s.len(),
    decreases s.len() - n, j,
{
    let c = s[n].children[j - 1];
    if c == i {
    } else if in_subtree(s, c as int, i) {
        lemma_in_subtree_index(s, c as int, i);
    } else {
        assert(in_child_list(s, n, j - 1, i)) by {
            reveal_with_fuel(in_child_list, 2);
        }
        lemma_in_child_list_index(s, n, j - 1, i);
    }
}

/// `s` extends `s0`: old nodes keep their names and child lists (new
/// children may be appended after the old ones), and nodes may be added at
/// the end.
pub open spec fn scene_extends(s: Seq<NodeView>, s0: Seq<NodeView>) -> bool {
    &&& s0.len() <= s.len()
    &&& forall|q: int| 0 <= q < s0.len() ==> (#[trigger] s[q]).name == s0[q].name
    &&& forall|q: int|
        0 <= q < s0.len() ==> (#[trigger] s[q]).children.len() >= s0[q].children.len()
    &&& forall|q: int, x: int|
        0 <= q < s0.len() && 0 <= x < s0[q].children.len() ==> #[trigger] s[q].children[x] == s0[
        q].children[x]
}

/// Descendants survive a scene extension: whatever is in a subtree stays in
/// it when children and nodes are appended.
pub proof fn lemma_in_subtree_mono(s0: Seq<NodeView>, s: Seq<NodeView>, n: int, i: int)
    requires
        seq_wf(s0),
        seq_wf(s),
        scene_extends(s, s0),
        0 <= n < s0.len(),
        in_subtree(s0, n, i),
    ensures
        in_subtree(s, n, i),
    decreases s0.len() - n, s0[n].children.len() + 1,
{
    lemma_in_child_list_mono_ext(s0, s, n, s0[n].children.len() as int, i);
}

proof fn lemma_in_child_list_mono_ext(s0: Seq<NodeView>, s: Seq<NodeView>, n: int, j: int, i: int)
    requires
        seq_wf(s0),
        seq_wf(s),
        scene_extends(s, s0),
        0 <= n < s0.len(),
        0 < j <= s0[n].children.len(),
        in_child_list(s0, n, j, i),
    ensures
        in_subtree(s, n, i),
    decreases s0.len() - n, j,
{
    let c = s0[n].children[j - 1];
    assert(s[n].children[j - 1] == c);
    if c == i {
        lemma_child_in_subtree(s, n, j - 1);
    } else if in_subtree(s0, c as int, i) {
        lemma_in_subtree_mono(s0, s, c as int, i);
        lemma_desc_in_subtree(s, n, j - 1, i);
    } else {
        assert(in_child_list(s0, n, j - 1, i)) by {
            reveal_with_fuel(in_child_list, 2);
        }
        lemma_in_child_list_mono_ext(s0, s, n, j - 1, i);
    }
}

} // verus!
