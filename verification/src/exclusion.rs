//! Controlled-by exclusion refcounting: a generic, reference-counted claim
//! that a node attribute is locally driven, keeping a sync-exclusion flag
//! on the node for as long as any claim over that attribute is held.
//!
//! Counters are kept per `(node, attribute)` pair: claims over distinct
//! attributes of one node are counted independently.

use vstd::prelude::*;

use crate::scene::{ClaimCounter, NodeView, Scene};

verus! {

/// Number of claims held over `attr`: the count of the first (and, under
/// [`claims_wf`], only) counter entry for it, zero when there is none.
pub open spec fn claim_count_from(claims: Seq<ClaimCounter>, attr: u64, i: int) -> u64
    decreases claims.len() - i
        when 0 <= i <= claims.len()
{
    if i >= claims.len() {
        0
    } else if claims[i].attr == attr {
        claims[i].count
    } else {
        claim_count_from(claims, attr, i + 1)
    }
}

pub open spec fn claim_count(claims: Seq<ClaimCounter>, attr: u64) -> u64 {
    claim_count_from(claims, attr, 0)
}

/// Some counter entry is held over attribute `a`.
pub open spec fn has_claim_attr(claims: Seq<ClaimCounter>, a: u64) -> bool {
    exists|j: int| 0 <= j < claims.len() && (#[trigger] claims[j]).attr == a
}

/// Well-formed claim state of one node: one counter per attribute, every
/// counter positive, no duplicate flag entries, and the sync-exclusion
/// flag present for exactly the claimed attributes.
pub open spec fn claims_wf(node: NodeView) -> bool {
    &&& forall|i: int, j: int|
        0 <= i < j < node.claims.len() ==> (#[trigger] node.claims[i]).attr != (
        #[trigger] node.claims[j]).attr
    &&& forall|i: int| 0 <= i < node.claims.len() ==> (#[trigger] node.claims[i]).count >= 1
    &&& forall|i: int, j: int|
        0 <= i < j < node.sync_excluded.len() ==> #[trigger] node.sync_excluded[i]
            != #[trigger] node.sync_excluded[j]
    &&& forall|i: int|
        0 <= i < node.claims.len() ==> node.sync_excluded.contains(
            (#[trigger] node.claims[i]).attr,
        )
    &&& forall|i: int|
        0 <= i < node.sync_excluded.len() ==> has_claim_attr(
            node.claims,
            #[trigger] node.sync_excluded[i],
        )
}

/// After an update of entry `i` (same attribute), only that attribute's
/// count changes.
proof fn lemma_claim_count_update(claims: Seq<ClaimCounter>, i: int, c: u64, attr: u64, a: u64, q: int)
    requires
        0 <= i < claims.len(),
        claims[i].attr == attr,
        0 <= q <= claims.len(),
        forall|x: int, y: int|
            0 <= x < y < claims.len() ==> (#[trigger] claims[x]).attr != (
            #[trigger] claims[y]).attr,
    ensures
        claim_count_from(claims.update(i, ClaimCounter { attr: attr, count: c }), a, q) == if a
            == attr && q <= i {
            c
        } else {
            claim_count_from(claims, a, q)
        },
    decreases claims.len() - q,
{
    if q < claims.len() {
        lemma_claim_count_update(claims, i, c, attr, a, q + 1);
    }
}

/// A pushed counter for a fresh attribute changes only that attribute's
/// count.
proof fn lemma_claim_count_push(claims: Seq<ClaimCounter>, c: u64, attr: u64, a: u64, q: int)
    requires
        0 <= q <= claims.len(),
        forall|x: int| 0 <= x < claims.len() ==> (#[trigger] claims[x]).attr != attr,
    ensures
        claim_count_from(claims.push(ClaimCounter { attr: attr, count: c }), a, q) == if a == attr {
            c
        } else {
            claim_count_from(claims, a, q)
        },
    decreases claims.len() - q,
{
    let pushed = claims.push(ClaimCounter { attr: attr, count: c });
    if q < claims.len() {
        lemma_claim_count_push(claims, c, attr, a, q + 1);
        assert(pushed[q] == claims[q]);
    } else {
        assert(pushed[q] == ClaimCounter { attr: attr, count: c });
        assert(claim_count_from(pushed, a, q + 1) == 0);
    }
}

/// Removing the entry of an attribute zeroes its count and nothing else.
proof fn lemma_claim_count_remove(claims: Seq<ClaimCounter>, i: int, a: u64, q: int)
    requires
        0 <= i < claims.len(),
        0 <= q <= claims.len(),
        forall|x: int, y: int|
            0 <= x < y < claims.len() ==> (#[trigger] claims[x]).attr != (
            #[trigger] claims[y]).attr,
    ensures
        claim_count_from(claims.remove(i), a, if q <= i {
            q
        } else {
            q - 1
        }) == if a == claims[i].attr && q <= i {
            0
        } else {
            claim_count_from(claims, a, q)
        },
    decreases claims.len() - q,
{
    let rem = claims.remove(i);
    assert(rem.len() == claims.len() - 1);
    if q < claims.len() {
        lemma_claim_count_remove(claims, i, a, q + 1);
        if q == i {
            if a == claims[i].attr {
                assert forall|x: int| q + 1 <= x < claims.len() implies (
                #[trigger] claims[x]).attr != a by {}
                lemma_claim_count_absent_from(claims, a, q + 1);
            }
        } else {
            if q < i {
                assert(rem[q] == claims[q]);
            } else {
                assert(rem[q - 1] == claims[q]);
            }
        }
    }
}

proof fn lemma_claim_count_absent_from(claims: Seq<ClaimCounter>, attr: u64, q: int)
    requires
        0 <= q <= claims.len(),
        forall|x: int| q <= x < claims.len() ==> (#[trigger] claims[x]).attr != attr,
    ensures
        claim_count_from(claims, attr, q) == 0,
    decreases claims.len() - q,
{
    if q < claims.len() {
        lemma_claim_count_absent_from(claims, attr, q + 1);
    }
}

impl Scene {
    /// Position of the counter entry for `attr` on `node`, if any.
    fn find_claim(&self, node: usize, attr: u64) -> (r: Option<usize>)
        requires
            node < self@.len(),
        ensures
            match r {
                Some(i) => i < self@[node as int].claims.len() && self@[node as int].claims[
                    i as int
                ].attr == attr && claim_count_le(self@[node as int].claims, attr, i as int),
                None => forall|i: int|
                    0 <= i < self@[node as int].claims.len() ==> (#[trigger] self@[
                    node as int].claims[i]).attr != attr,
            },
    {
        let claims = &self.nodes[node].claims;
        let ghost cv = self@[node as int].claims;
        let n = claims.len();
        let mut i: usize = 0;
        while i < n
            invariant
                node < self@.len(),
                cv == self@[node as int].claims,
                claims@ == cv,
                n == cv.len(),
                i <= n,
                forall|q: int| 0 <= q < i ==> (#[trigger] cv[q]).attr != attr,
            decreases n - i,
        {
            if claims[i].attr == attr {
                return Some(i);
            }
            i += 1;
        }
        None
    }

    /// Position of `attr` in the sync-exclusion list of `node`, if any.
    fn find_exclusion(&self, node: usize, attr: u64) -> (r: Option<usize>)
        requires
            node < self@.len(),
        ensures
            match r {
                Some(i) => i < self@[node as int].sync_excluded.len() && self@[node as int]
                    .sync_excluded[i as int] == attr,
                None => !self@[node as int].sync_excluded.contains(attr),
            },
    {
        let list = &self.nodes[node].sync_excluded;
        let ghost lv = self@[node as int].sync_excluded;
        let n = list.len();
        let mut i: usize = 0;
        while i < n
            invariant
                node < self@.len(),
                lv == self@[node as int].sync_excluded,
                list@ == lv,
                n == lv.len(),
                i <= n,
                forall|q: int| 0 <= q < i ==> lv[q] != attr,
            decreases n - i,
        {
            if list[i] == attr {
                return Some(i);
            }
            i += 1;
        }
        proof {
            assert forall|q: int| 0 <= q < lv.len() implies lv[q] != attr by {}
        }
        None
    }

    /// Attaches one controlled-by claim over `attr` to `node`: the
    /// per-attribute counter is incremented (created at one if absent) and
    /// the sync-exclusion flag for `attr` is ensured present.
    pub fn attach_claim(&mut self, node: usize, attr: u64)
        requires
            node < old(self)@.len(),
            claims_wf(old(self)@[node as int]),
            claim_count(old(self)@[node as int].claims, attr) < u64::MAX,
        ensures
            final(self)@.len() == old(self)@.len(),
            forall|j: int|
                0 <= j < old(self)@.len() && j != node ==> final(self)@[j] == old(self)@[j],
            forall|a: u64|
                claim_count(final(self)@[node as int].claims, a) == if a == attr {
                    (claim_count(old(self)@[node as int].claims, attr) + 1) as u64
                } else {
                    claim_count(old(self)@[node as int].claims, a)
                },
            forall|a: u64|
                final(self)@[node as int].sync_excluded.contains(a) == (a == attr || old(
                    self,
                )@[node as int].sync_excluded.contains(a)),
            final(self)@[node as int] == (NodeView {
                claims: final(self)@[node as int].claims,
                sync_excluded: final(self)@[node as int].sync_excluded,
                ..old(self)@[node as int]
            }),
            claims_wf(final(self)@[node as int]),
            old(self).wf() ==> final(self).wf(),
    {
        let ghost s0 = self@;
        let ghost node0 = self@[node as int];
        let found = self.find_claim(node, attr);
        match found {
            Some(i) => {
                let c = self.nodes[node].claims[i].count;
                proof {
                    lemma_claim_count_at(node0.claims, attr, i as int, 0);
                }
                self.nodes[node].claims[i].count = c + 1;
                proof {
                    assert(self@ =~= s0.update(
                        node as int,
                        (NodeView {
                            claims: node0.claims.update(
                                i as int,
                                ClaimCounter { attr: attr, count: (c + 1) as u64 },
                            ),
                            ..node0
                        }),
                    ));
                    assert forall|a: u64|
                        claim_count(self@[node as int].claims, a) == if a == attr {
                            (claim_count(node0.claims, attr) + 1) as u64
                        } else {
                            claim_count(node0.claims, a)
                        } by {
                        lemma_claim_count_update(
                            node0.claims,
                            i as int,
                            (c + 1) as u64,
                            attr,
                            a,
                            0,
                        );
                    }
                    lemma_wf_update_count(node0, i as int, (c + 1) as u64);
                    assert(claims_wf(self@[node as int]));
                    assert(node0.sync_excluded.contains(attr));
                }
            },
            None => {
                self.nodes[node].claims.push(ClaimCounter { attr: attr, count: 1 });
                proof {
                    assert(self@ =~= s0.update(
                        node as int,
                        (NodeView {
                            claims: node0.claims.push(ClaimCounter { attr: attr, count: 1 }),
                            ..node0
                        }),
                    ));
                    assert forall|a: u64|
                        claim_count(self@[node as int].claims, a) == if a == attr {
                            1u64
                        } else {
                            claim_count(node0.claims, a)
                        } by {
                        lemma_claim_count_push(node0.claims, 1, attr, a, 0);
                    }
                    assert(claim_count(node0.claims, attr) == 0) by {
                        lemma_claim_count_absent(node0.claims, attr, 0);
                    }
                }
            },
        }
        let ghost s1 = self@;
        let ghost node1 = self@[node as int];
        let excluded = self.find_exclusion(node, attr);
        match excluded {
            Some(p) => {
                proof {
                    assert(self@[node as int].sync_excluded[p as int] == attr);
                    assert(self@[node as int].sync_excluded.contains(attr));
                }
            },
            None => {
                self.nodes[node].sync_excluded.push(attr);
                proof {
                    assert(self@ =~= s1.update(
                        node as int,
                        (NodeView {
                            sync_excluded: node1.sync_excluded.push(attr),
                            ..node1
                        }),
                    ));
                    assert forall|a: u64|
                        self@[node as int].sync_excluded.contains(a) == (a == attr
                            || node1.sync_excluded.contains(a)) by {
                        lemma_contains_push(node1.sync_excluded, attr, a);
                    }
                    lemma_wf_push_claim(node0, attr);
                    assert(claims_wf(self@[node as int]));
                }
            },
        }
        proof {
            lemma_wf_after(s0, self@, node as int);
        }
    }

    /// Detaches one controlled-by claim over `attr` from `node`: the
    /// counter is decremented; at zero both the counter and the
    /// sync-exclusion flag are removed. Detaching with no claim held is a
    /// no-op, never an underflow.
    pub fn detach_claim(&mut self, node: usize, attr: u64)
        requires
            node < old(self)@.len(),
            claims_wf(old(self)@[node as int]),
        ensures
            final(self)@.len() == old(self)@.len(),
            forall|j: int|
                0 <= j < old(self)@.len() && j != node ==> final(self)@[j] == old(self)@[j],
            forall|a: u64|
                claim_count(final(self)@[node as int].claims, a) == if a == attr {
                    if claim_count(old(self)@[node as int].claims, attr) >= 1 {
                        (claim_count(old(self)@[node as int].claims, attr) - 1) as u64
                    } else {
                        0u64
                    }
                } else {
                    claim_count(old(self)@[node as int].claims, a)
                },
            forall|a: u64|
                final(self)@[node as int].sync_excluded.contains(a) == if a == attr {
                    claim_count(old(self)@[node as int].claims, attr) > 1
                } else {
                    old(self)@[node as int].sync_excluded.contains(a)
                },
            final(self)@[node as int] == (NodeView {
                claims: final(self)@[node as int].claims,
                sync_excluded: final(self)@[node as int].sync_excluded,
                ..old(self)@[node as int]
            }),
            claims_wf(final(self)@[node as int]),
            old(self).wf() ==> final(self).wf(),
    {
        let ghost s0 = self@;
        let ghost node0 = self@[node as int];
        let found = self.find_claim(node, attr);
        match found {
            None => {
                proof {
                    lemma_claim_count_absent(node0.claims, attr, 0);
                    assert forall|a: u64|
                        node0.sync_excluded.contains(a) == if a == attr {
                            claim_count(node0.claims, attr) > 1
                        } else {
                            node0.sync_excluded.contains(a)
                        } by {
                        if a == attr && node0.sync_excluded.contains(attr) {
                            let i = choose|i: int|
                                0 <= i < node0.sync_excluded.len() && node0.sync_excluded[i]
                                    == attr;
                            assert(has_claim_attr(node0.claims, node0.sync_excluded[i]));
                            let j = choose|j: int|
                                0 <= j < node0.claims.len() && (#[trigger] node0.claims[j]).attr
                                    == node0.sync_excluded[i];
                        }
                    }
                }
            },
            Some(i) => {
                let c = self.nodes[node].claims[i].count;
                proof {
                    lemma_claim_count_at(node0.claims, attr, i as int, 0);
                }
                if c > 1 {
                    self.nodes[node].claims[i].count = c - 1;
                    proof {
                        assert(self@ =~= s0.update(
                            node as int,
                            (NodeView {
                                claims: node0.claims.update(
                                    i as int,
                                    ClaimCounter { attr: attr, count: (c - 1) as u64 },
                                ),
                                ..node0
                            }),
                        ));
                        assert forall|a: u64|
                            claim_count(self@[node as int].claims, a) == if a == attr {
                                (claim_count(node0.claims, attr) - 1) as u64
                            } else {
                                claim_count(node0.claims, a)
                            } by {
                            lemma_claim_count_update(
                                node0.claims,
                                i as int,
                                (c - 1) as u64,
                                attr,
                                a,
                                0,
                            );
                        }
                        lemma_wf_update_count(node0, i as int, (c - 1) as u64);
                        assert(claims_wf(self@[node as int]));
                        assert(node0.sync_excluded.contains(attr));
                    }
                } else {
                    self.nodes[node].claims.remove(i);
                    proof {
                        assert(self@ =~= s0.update(
                            node as int,
                            (NodeView { claims: node0.claims.remove(i as int), ..node0 }),
                        ));
                        assert forall|a: u64|
                            claim_count(self@[node as int].claims, a) == if a == attr {
                                0u64
                            } else {
                                claim_count(node0.claims, a)
                            } by {
                            lemma_claim_count_remove(node0.claims, i as int, a, 0);
                        }
                    }
                    let ghost s1 = self@;
                    let ghost node1 = self@[node as int];
                    let excluded = self.find_exclusion(node, attr);
                    match excluded {
                        None => {
                            proof {
                                assert(node0.sync_excluded.contains(node0.claims[i as int].attr));
                            }
                        },
                        Some(p) => {
                            self.nodes[node].sync_excluded.remove(p);
                            proof {
                                assert(self@ =~= s1.update(
                                    node as int,
                                    (NodeView {
                                        sync_excluded: node1.sync_excluded.remove(p as int),
                                        ..node1
                                    }),
                                ));
                                assert forall|a: u64|
                                    self@[node as int].sync_excluded.contains(a) == if a == attr {
                                        false
                                    } else {
                                        node1.sync_excluded.contains(a)
                                    } by {
                                    lemma_contains_remove(node1.sync_excluded, p as int, a);
                                }
                                lemma_wf_remove_claim(node0, i as int, p as int);
                                assert(claims_wf(self@[node as int]));
                            }
                        },
                    }
                }
            },
        }
        proof {
            lemma_wf_after(s0, self@, node as int);
        }
    }
}

/// The first matching counter determines the count.
pub open spec fn claim_count_le(claims: Seq<ClaimCounter>, attr: u64, i: int) -> bool {
    forall|q: int| 0 <= q < i ==> (#[trigger] claims[q]).attr != attr
}

proof fn lemma_claim_count_at(claims: Seq<ClaimCounter>, attr: u64, i: int, q: int)
    requires
        0 <= q <= i < claims.len(),
        claims[i].attr == attr,
        claim_count_le(claims, attr, i),
    ensures
        claim_count_from(claims, attr, q) == claims[i].count,
    decreases i - q,
{
    if q < i {
        lemma_claim_count_at(claims, attr, i, q + 1);
    }
}

proof fn lemma_claim_count_absent(claims: Seq<ClaimCounter>, attr: u64, q: int)
    requires
        0 <= q <= claims.len(),
        forall|x: int| 0 <= x < claims.len() ==> (#[trigger] claims[x]).attr != attr,
    ensures
        claim_count_from(claims, attr, q) == 0,
    decreases claims.len() - q,
{
    if q < claims.len() {
        lemma_claim_count_absent(claims, attr, q + 1);
    }
}

proof fn lemma_contains_push(list: Seq<u64>, x: u64, a: u64)
    ensures
        list.push(x).contains(a) == (a == x || list.contains(a)),
{
    if a == x {
        assert(list.push(x)[list.len() as int] == x);
    } else if list.contains(a) {
        let i = choose|i: int| 0 <= i < list.len() && list[i] == a;
        assert(list.push(x)[i] == a);
    } else {
        if list.push(x).contains(a) {
            let i = choose|i: int| 0 <= i < list.push(x).len() && list.push(x)[i] == a;
            assert(list[i] == a);
        }
    }
}

proof fn lemma_contains_remove(list: Seq<u64>, p: int, a: u64)
    requires
        0 <= p < list.len(),
        forall|i: int, j: int| 0 <= i < j < list.len() ==> list[i] != list[j],
    ensures
        list.remove(p).contains(a) == (a != list[p] && list.contains(a)),
{
    let rem = list.remove(p);
    if rem.contains(a) {
        let i = choose|i: int| 0 <= i < rem.len() && rem[i] == a;
        if i < p {
            assert(list[i] == a);
        } else {
            assert(list[i + 1] == a);
        }
    }
    if a != list[p] && list.contains(a) {
        let i = choose|i: int| 0 <= i < list.len() && list[i] == a;
        if i < p {
            assert(rem[i] == a);
        } else {
            assert(rem[i - 1] == a);
        }
    }
}


/// Updating one counter in place (same attribute, positive count) keeps the
/// claim state well-formed.
proof fn lemma_wf_update_count(node0: NodeView, i: int, c: u64)
    requires
        claims_wf(node0),
        0 <= i < node0.claims.len(),
        c >= 1,
    ensures
        claims_wf(
            (NodeView {
                claims: node0.claims.update(
                    i,
                    ClaimCounter { attr: node0.claims[i].attr, count: c },
                ),
                ..node0
            }),
        ),
{
    let n1 = (NodeView {
        claims: node0.claims.update(i, ClaimCounter { attr: node0.claims[i].attr, count: c }),
        ..node0
    });
    assert forall|x: int| 0 <= x < n1.claims.len() implies (#[trigger] n1.claims[x]).attr
        == node0.claims[x].attr && n1.claims[x].count >= 1 by {
        if x != i {
            assert(n1.claims[x] == node0.claims[x]);
        }
    }
    assert forall|x: int| 0 <= x < n1.claims.len() implies n1.sync_excluded.contains(
        (#[trigger] n1.claims[x]).attr,
    ) by {
        assert(n1.claims[x].attr == node0.claims[x].attr);
    }
    assert forall|x: int| 0 <= x < n1.sync_excluded.len() implies has_claim_attr(
        n1.claims,
        #[trigger] n1.sync_excluded[x],
    ) by {
        assert(has_claim_attr(node0.claims, node0.sync_excluded[x]));
        let j = choose|j: int|
            0 <= j < node0.claims.len() && (#[trigger] node0.claims[j]).attr == node0
                .sync_excluded[x];
        assert(n1.claims[j].attr == node0.claims[j].attr);
    }
}

/// Recording a first claim over a fresh attribute, counter and flag
/// together, keeps the claim state well-formed.
proof fn lemma_wf_push_claim(node0: NodeView, attr: u64)
    requires
        claims_wf(node0),
        forall|x: int| 0 <= x < node0.claims.len() ==> (#[trigger] node0.claims[x]).attr != attr,
        !node0.sync_excluded.contains(attr),
    ensures
        claims_wf(
            (NodeView {
                claims: node0.claims.push(ClaimCounter { attr: attr, count: 1 }),
                sync_excluded: node0.sync_excluded.push(attr),
                ..node0
            }),
        ),
{
    let n1 = (NodeView {
        claims: node0.claims.push(ClaimCounter { attr: attr, count: 1 }),
        sync_excluded: node0.sync_excluded.push(attr),
        ..node0
    });
    let cl = node0.claims.len() as int;
    let sl = node0.sync_excluded.len() as int;
    assert forall|x: int, y: int|
        0 <= x < y < n1.claims.len() implies (#[trigger] n1.claims[x]).attr != (
    #[trigger] n1.claims[y]).attr by {
        if y == cl {
            assert(n1.claims[x] == node0.claims[x]);
            assert(n1.claims[y].attr == attr);
        } else {
            assert(n1.claims[x] == node0.claims[x]);
            assert(n1.claims[y] == node0.claims[y]);
        }
    }
    assert forall|x: int| 0 <= x < n1.claims.len() implies (#[trigger] n1.claims[x]).count
        >= 1 by {
        if x != cl {
            assert(n1.claims[x] == node0.claims[x]);
        }
    }
    assert forall|x: int, y: int|
        0 <= x < y < n1.sync_excluded.len() implies #[trigger] n1.sync_excluded[x]
        != #[trigger] n1.sync_excluded[y] by {
        if y == sl {
            if n1.sync_excluded[x] == attr {
                assert(node0.sync_excluded[x] == attr);
                assert(node0.sync_excluded.contains(attr));
            }
        }
    }
    assert forall|x: int| 0 <= x < n1.claims.len() implies n1.sync_excluded.contains(
        (#[trigger] n1.claims[x]).attr,
    ) by {
        if x == cl {
            assert(n1.sync_excluded[sl] == attr);
        } else {
            assert(n1.claims[x] == node0.claims[x]);
            lemma_contains_push(node0.sync_excluded, attr, node0.claims[x].attr);
        }
    }
    assert forall|x: int| 0 <= x < n1.sync_excluded.len() implies has_claim_attr(
        n1.claims,
        #[trigger] n1.sync_excluded[x],
    ) by {
        if x == sl {
            assert(n1.claims[cl].attr == n1.sync_excluded[x]);
        } else {
            assert(has_claim_attr(node0.claims, node0.sync_excluded[x]));
            let j = choose|j: int|
                0 <= j < node0.claims.len() && (#[trigger] node0.claims[j]).attr == node0
                    .sync_excluded[x];
            assert(n1.claims[j].attr == n1.sync_excluded[x]);
        }
    }

}

/// Releasing the last claim over an attribute removes its counter and its
/// flag together, keeping the claim state well-formed.
proof fn lemma_wf_remove_claim(node0: NodeView, i: int, p: int)
    requires
        claims_wf(node0),
        0 <= i < node0.claims.len(),
        0 <= p < node0.sync_excluded.len(),
        node0.sync_excluded[p] == node0.claims[i].attr,
    ensures
        claims_wf(
            (NodeView {
                claims: node0.claims.remove(i),
                sync_excluded: node0.sync_excluded.remove(p),
                ..node0
            }),
        ),
{
    let n1 = (NodeView {
        claims: node0.claims.remove(i),
        sync_excluded: node0.sync_excluded.remove(p),
        ..node0
    });
    let attr = node0.claims[i].attr;
    assert forall|x: int| 0 <= x < n1.claims.len() implies (#[trigger] n1.claims[x])
        == node0.claims[if x < i {
        x
    } else {
        x + 1
    }] by {}
    assert forall|x: int| 0 <= x < n1.sync_excluded.len() implies #[trigger] n1.sync_excluded[x]
        == node0.sync_excluded[if x < p {
        x
    } else {
        x + 1
    }] by {}
    assert forall|x: int, y: int|
        0 <= x < y < n1.claims.len() implies (#[trigger] n1.claims[x]).attr != (
    #[trigger] n1.claims[y]).attr by {}
    assert forall|x: int| 0 <= x < n1.claims.len() implies (#[trigger] n1.claims[x]).count
        >= 1 by {}
    assert forall|x: int, y: int|
        0 <= x < y < n1.sync_excluded.len() implies #[trigger] n1.sync_excluded[x]
        != #[trigger] n1.sync_excluded[y] by {}
    assert forall|x: int| 0 <= x < n1.claims.len() implies n1.sync_excluded.contains(
        (#[trigger] n1.claims[x]).attr,
    ) by {
        let x0: int = if x < i {
            x
        } else {
            x + 1
        };
        assert(n1.claims[x].attr == node0.claims[x0].attr);
        assert(node0.claims[x0].attr != attr);
        lemma_contains_remove(node0.sync_excluded, p, node0.claims[x0].attr);
    }
    assert forall|x: int| 0 <= x < n1.sync_excluded.len() implies has_claim_attr(
        n1.claims,
        #[trigger] n1.sync_excluded[x],
    ) by {
        let x0: int = if x < p {
            x
        } else {
            x + 1
        };
        assert(n1.sync_excluded[x] == node0.sync_excluded[x0]);
        assert(node0.sync_excluded[x0] != node0.sync_excluded[p]);
        assert(has_claim_attr(node0.claims, node0.sync_excluded[x0]));
        let j0 = choose|j: int|
            0 <= j < node0.claims.len() && (#[trigger] node0.claims[j]).attr == node0
                .sync_excluded[x0];
        assert(j0 != i);
        let j: int = if j0 < i {
            j0
        } else {
            j0 - 1
        };
        assert(n1.claims[j].attr == n1.sync_excluded[x]);
    }

}

/// The claim mutations touch only the claim state of one node, so scene
/// well-formedness is untouched.
proof fn lemma_wf_after(s0: Seq<NodeView>, s1: Seq<NodeView>, node: int)
    requires
        s0.len() == s1.len(),
        forall|j: int| 0 <= j < s0.len() && j != node ==> s1[j] == s0[j],
        0 <= node < s0.len() ==> s1[node].children == s0[node].children,
    ensures
        seq_wf_preserved(s0, s1),
{
    if crate::scene::seq_wf(s0) {
        crate::scene::lemma_seq_wf_same_children(s0, s1);
    }
}

/// Well-formedness carries from `s0` to `s1`.
pub open spec fn seq_wf_preserved(s0: Seq<NodeView>, s1: Seq<NodeView>) -> bool {
    crate::scene::seq_wf(s0) ==> crate::scene::seq_wf(s1)
}

/// Claims drive the count up from zero, so a held claim is a positive
/// count.
proof fn lemma_has_claim_count(claims: Seq<ClaimCounter>, attr: u64, j: int, q: int)
    requires
        0 <= q <= j < claims.len(),
        claims[j].attr == attr,
        forall|i: int| 0 <= i < claims.len() ==> (#[trigger] claims[i]).count >= 1,
    ensures
        claim_count_from(claims, attr, q) >= 1,
    decreases claims.len() - q,
{
    if claims[q].attr != attr {
        lemma_has_claim_count(claims, attr, j, q + 1);
    }
}

proof fn lemma_count_needs_claim(claims: Seq<ClaimCounter>, attr: u64, q: int)
    requires
        0 <= q <= claims.len(),
        claim_count_from(claims, attr, q) >= 1,
    ensures
        exists|j: int| q <= j < claims.len() && (#[trigger] claims[j]).attr == attr,
    decreases claims.len() - q,
{
    if q < claims.len() && claims[q].attr != attr {
        lemma_count_needs_claim(claims, attr, q + 1);
    }
}

/// Law: on a well-formed node, the sync-exclusion flag for an attribute
/// stands exactly while at least one controlled-by claim over it is held —
/// it survives releasing one of several claims and falls with the last.
pub proof fn law_flag_iff_claim_held(node: NodeView, attr: u64)
    requires
        claims_wf(node),
    ensures
        node.sync_excluded.contains(attr) <==> claim_count(node.claims, attr) >= 1,
{
    if node.sync_excluded.contains(attr) {
        let i = choose|i: int|
            0 <= i < node.sync_excluded.len() && node.sync_excluded[i] == attr;
        assert(has_claim_attr(node.claims, node.sync_excluded[i]));
        let j = choose|j: int|
            0 <= j < node.claims.len() && (#[trigger] node.claims[j]).attr == attr;
        lemma_has_claim_count(node.claims, attr, j, 0);
    }
    if claim_count(node.claims, attr) >= 1 {
        lemma_count_needs_claim(node.claims, attr, 0);
        let j = choose|j: int|
            0 <= j < node.claims.len() && (#[trigger] node.claims[j]).attr == attr;
        assert(node.sync_excluded.contains(node.claims[j].attr));
    }
}

} // verus!
