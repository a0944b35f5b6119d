//! The fanout queue: a rolling, deduplicated set of candidate nodes for an
//! outbound query. A node is handed out at most once, ever; re-adding nodes
//! that were already offered or already queued changes nothing.

use vstd::prelude::*;
use crate::crypto_types::{CryptoKey, CryptoKind, TypedKey};

verus! {

/// A fanout candidate: a node known by one typed key per crypto kind.
#[derive(Debug)]
pub struct FanoutNode {
    pub node_ids: Vec<TypedKey>,
}

impl Clone for FanoutNode {
    fn clone(&self) -> (r: Self)
        ensures
            r.node_ids@ == self.node_ids@,
    {
        let mut ids: Vec<TypedKey> = Vec::new();
        let mut i: usize = 0;
        while i < self.node_ids.len()
            invariant
                i <= self.node_ids@.len(),
                ids@ == self.node_ids@.take(i as int),
            decreases self.node_ids@.len() - i,
        {
            ids.push(self.node_ids[i]);
            proof {
                assert(ids@ =~= self.node_ids@.take(i as int + 1));
            }
            i += 1;
        }
        proof {
            assert(ids@ =~= self.node_ids@);
        }
        FanoutNode { node_ids: ids }
    }
}

/// The first id of the node under the given crypto kind, if it has one.
pub open spec fn spec_node_key(ids: Seq<TypedKey>, kind: CryptoKind) -> Option<CryptoKey>
    decreases ids.len(),
{
    if ids.len() == 0 {
        None
    } else if ids[0].kind == kind {
        Some(ids[0].value)
    } else {
        spec_node_key(ids.skip(1), kind)
    }
}

impl FanoutNode {
    pub fn new(node_ids: Vec<TypedKey>) -> (r: FanoutNode)
        ensures
            r.node_ids@ == node_ids@,
    {
        FanoutNode { node_ids }
    }

    /// The node's id under `kind`, if it supports that kind.
    pub fn node_id(&self, kind: CryptoKind) -> (r: Option<CryptoKey>)
        ensures
            r == spec_node_key(self.node_ids@, kind),
    {
        let mut i: usize = 0;
        proof {
            assert(self.node_ids@.skip(0) =~= self.node_ids@);
        }
        while i < self.node_ids.len()
            invariant
                i <= self.node_ids@.len(),
                spec_node_key(self.node_ids@, kind) == spec_node_key(
                    self.node_ids@.skip(i as int),
                    kind,
                ),
            decreases self.node_ids@.len() - i,
        {
            proof {
                assert(self.node_ids@.skip(i as int)[0] == self.node_ids@[i as int]);
                assert(self.node_ids@.skip(i as int).skip(1) =~= self.node_ids@.skip(i as int + 1));
            }
            if self.node_ids[i].kind == kind {
                return Some(self.node_ids[i].value);
            }
            i += 1;
        }
        None
    }
}

/// Whether `keys` holds `k`.
pub open spec fn spec_has_key(keys: Seq<CryptoKey>, k: CryptoKey) -> bool {
    exists|i: int| 0 <= i < keys.len() && keys[i] == k
}

/// Whether some queued candidate carries key `k` under `kind`.
pub open spec fn spec_queue_has_key(
    cur: Seq<Seq<TypedKey>>,
    kind: CryptoKind,
    k: CryptoKey,
) -> bool {
    exists|i: int| 0 <= i < cur.len() && spec_node_key(cur[i], kind) == Some(k)
}

/// The queue after offering one candidate: skipped if it has no key of the
/// queue's kind, was already handed out, or is already queued; otherwise it
/// goes to the front.
pub open spec fn spec_add_one(
    cur: Seq<Seq<TypedKey>>,
    returned: Seq<CryptoKey>,
    kind: CryptoKind,
    n: Seq<TypedKey>,
) -> Seq<Seq<TypedKey>> {
    match spec_node_key(n, kind) {
        None => cur,
        Some(k) => if spec_has_key(returned, k) || spec_queue_has_key(cur, kind, k) {
            cur
        } else {
            seq![n] + cur
        },
    }
}

/// The queue after offering a batch of candidates in order.
pub open spec fn spec_add(
    cur: Seq<Seq<TypedKey>>,
    returned: Seq<CryptoKey>,
    kind: CryptoKind,
    ns: Seq<Seq<TypedKey>>,
) -> Seq<Seq<TypedKey>>
    decreases ns.len(),
{
    if ns.len() == 0 {
        cur
    } else {
        spec_add(spec_add_one(cur, returned, kind, ns[0]), returned, kind, ns.skip(1))
    }
}

/// Queue well-formedness: every queued candidate has a key of the queue's
/// kind, no two queued candidates share that key, and no queued candidate
/// was already handed out.
pub open spec fn spec_queue_wf(
    cur: Seq<Seq<TypedKey>>,
    returned: Seq<CryptoKey>,
    kind: CryptoKind,
) -> bool {
    &&& forall|i: int| 0 <= i < cur.len() ==> spec_node_key(#[trigger] cur[i], kind) is Some
    &&& forall|i: int, j: int|
        0 <= i < cur.len() && 0 <= j < cur.len() && i != j ==> spec_node_key(
            #[trigger] cur[i],
            kind,
        ) != spec_node_key(#[trigger] cur[j], kind)
    &&& forall|i: int|
        0 <= i < cur.len() ==> !spec_has_key(
            returned,
            spec_node_key(#[trigger] cur[i], kind).unwrap(),
        )
}

/// A queue of fanout candidates that share a crypto kind. Candidates are
/// deduplicated by their key of that kind, and each key is handed out by
/// `next` at most once over the queue's whole life.
pub struct FanoutQueue {
    pub crypto_kind: CryptoKind,
    pub current_nodes: Vec<FanoutNode>,
    pub returned_nodes: Vec<CryptoKey>,
}

impl FanoutQueue {
    pub open spec fn spec_kind(&self) -> CryptoKind {
        self.crypto_kind
    }

    /// The queued candidates as their id lists, front first.
    pub open spec fn spec_current(&self) -> Seq<Seq<TypedKey>> {
        self.current_nodes@.map_values(|n: FanoutNode| n.node_ids@)
    }

    pub open spec fn spec_returned(&self) -> Seq<CryptoKey> {
        self.returned_nodes@
    }

    pub open spec fn wf(&self) -> bool {
        spec_queue_wf(self.spec_current(), self.spec_returned(), self.crypto_kind)
    }

    /// A fresh queue for candidates with an id of this crypto kind.
    pub fn new(crypto_kind: CryptoKind) -> (r: FanoutQueue)
        ensures
            r.spec_kind() == crypto_kind,
            r.spec_current().len() == 0,
            r.spec_returned().len() == 0,
            r.wf(),
    {
        let r = FanoutQueue {
            crypto_kind,
            current_nodes: Vec::new(),
            returned_nodes: Vec::new(),
        };
        proof {
            assert(r.spec_current() =~= Seq::<Seq<TypedKey>>::empty());
        }
        r
    }

    fn has_returned(&self, k: &CryptoKey) -> (r: bool)
        ensures
            r == spec_has_key(self.returned_nodes@, *k),
    {
        let mut i: usize = 0;
        while i < self.returned_nodes.len()
            invariant
                i <= self.returned_nodes@.len(),
                forall|j: int| 0 <= j < i ==> self.returned_nodes@[j] != *k,
            decreases self.returned_nodes@.len() - i,
        {
            if self.returned_nodes[i] == *k {
                proof {
                    assert(self.returned_nodes@[i as int].bytes =~= k.bytes);
                }
                return true;
            }
            proof {
                assert(self.returned_nodes@[i as int] != *k) by {
                    if self.returned_nodes@[i as int] == *k {
                        assert(self.returned_nodes@[i as int].bytes@ == k.bytes@);
                    }
                }
            }
            i += 1;
        }
        false
    }

    fn has_current(&self, k: &CryptoKey) -> (r: bool)
        ensures
            r == spec_queue_has_key(self.spec_current(), self.crypto_kind, *k),
    {
        let mut i: usize = 0;
        while i < self.current_nodes.len()
            invariant
                i <= self.current_nodes@.len(),
                forall|j: int|
                    0 <= j < i ==> spec_node_key(
                        #[trigger] self.spec_current()[j],
                        self.crypto_kind,
                    ) != Some(*k),
            decreases self.current_nodes@.len() - i,
        {
            proof {
                assert(self.spec_current()[i as int] == self.current_nodes@[i as int].node_ids@);
            }
            match self.current_nodes[i].node_id(self.crypto_kind) {
                Some(ck) => {
                    if ck == *k {
                        proof {
                            assert(ck.bytes =~= k.bytes);
                        }
                        return true;
                    }
                    proof {
                        assert(ck != *k) by {
                            if ck == *k {
                                assert(ck.bytes@ == k.bytes@);
                            }
                        }
                    }
                },
                None => {},
            }
            i += 1;
        }
        false
    }

    /// Offer new candidates, front to back. A candidate without an id of the
    /// queue's kind, one already handed out, or one already queued is
    /// skipped; the rest go to the front, so offering the same batch twice
    /// is the same as offering it once.
    pub fn add(&mut self, new_nodes: &Vec<FanoutNode>)
        ensures
            final(self).spec_current() == spec_add(
                old(self).spec_current(),
                old(self).spec_returned(),
                old(self).spec_kind(),
                new_nodes@.map_values(|n: FanoutNode| n.node_ids@),
            ),
            final(self).spec_returned() == old(self).spec_returned(),
            final(self).spec_kind() == old(self).spec_kind(),
            old(self).wf() ==> final(self).wf(),
    {
        let ghost nsv = new_nodes@.map_values(|n: FanoutNode| n.node_ids@);
        let mut i: usize = 0;
        proof {
            assert(nsv.skip(0) =~= nsv);
        }
        while i < new_nodes.len()
            invariant
                i <= new_nodes@.len(),
                nsv == new_nodes@.map_values(|n: FanoutNode| n.node_ids@),
                self.crypto_kind == old(self).spec_kind(),
                self.returned_nodes@ == old(self).spec_returned(),
                spec_add(
                    old(self).spec_current(),
                    old(self).spec_returned(),
                    old(self).spec_kind(),
                    nsv,
                ) == spec_add(
                    self.spec_current(),
                    self.returned_nodes@,
                    self.crypto_kind,
                    nsv.skip(i as int),
                ),
                old(self).wf() ==> self.wf(),
            decreases new_nodes@.len() - i,
        {
            proof {
                assert(nsv.skip(i as int)[0] == nsv[i as int]);
                assert(nsv[i as int] == new_nodes@[i as int].node_ids@);
                assert(nsv.skip(i as int).skip(1) =~= nsv.skip(i as int + 1));
            }
            let n = &new_nodes[i];
            match n.node_id(self.crypto_kind) {
                None => {},
                Some(k) => {
                    if !self.has_returned(&k) && !self.has_current(&k) {
                        let ghost prev = self.spec_current();
                        self.current_nodes.insert(0, n.clone());
                        proof {
                            assert(self.spec_current() =~= seq![nsv[i as int]] + prev);
                            if old(self).wf() {
                                let cur = self.spec_current();
                                assert forall|a: int| 0 <= a < cur.len() implies spec_node_key(
                                    #[trigger] cur[a],
                                    self.crypto_kind,
                                ) is Some by {
                                    if a > 0 {
                                        assert(cur[a] == prev[a - 1]);
                                    }
                                }
                                assert forall|a: int, b: int|
                                    0 <= a < cur.len() && 0 <= b < cur.len() && a
                                        != b implies spec_node_key(
                                    #[trigger] cur[a],
                                    self.crypto_kind,
                                ) != spec_node_key(#[trigger] cur[b], self.crypto_kind) by {
                                    if a > 0 && b > 0 {
                                        assert(cur[a] == prev[a - 1]);
                                        assert(cur[b] == prev[b - 1]);
                                    } else if a == 0 {
                                        assert(cur[b] == prev[b - 1]);
                                    } else {
                                        assert(cur[a] == prev[a - 1]);
                                    }
                                }
                                assert forall|a: int| 0 <= a < cur.len() implies !spec_has_key(
                                    self.returned_nodes@,
                                    spec_node_key(#[trigger] cur[a], self.crypto_kind).unwrap(),
                                ) by {
                                    if a > 0 {
                                        assert(cur[a] == prev[a - 1]);
                                    }
                                }
                            }
                        }
                    }
                },
            }
            i += 1;
        }
        proof {
            assert(nsv.skip(nsv.len() as int) =~= Seq::<Seq<TypedKey>>::empty());
        }
    }

    /// Hand out the next candidate, if any. Its key joins the handed-out
    /// set, and by well-formedness that key was never handed out before.
    pub fn next(&mut self) -> (r: Option<FanoutNode>)
        requires
            old(self).wf(),
        ensures
            final(self).wf(),
            final(self).spec_kind() == old(self).spec_kind(),
            old(self).spec_current().len() == 0 ==> r is None && final(self).spec_current() == old(
                self,
            ).spec_current() && final(self).spec_returned() == old(self).spec_returned(),
            old(self).spec_current().len() > 0 ==> (r matches Some(n) && {
                &&& n.node_ids@ == old(self).spec_current()[0]
                &&& final(self).spec_current() == old(self).spec_current().skip(1)
                &&& (spec_node_key(n.node_ids@, old(self).spec_kind()) matches Some(k) && {
                    &&& !spec_has_key(old(self).spec_returned(), k)
                    &&& final(self).spec_returned() == old(self).spec_returned().push(k)
                })
            }),
    {
        if self.current_nodes.len() == 0 {
            return None;
        }
        let n = self.current_nodes.remove(0);
        proof {
            assert(self.spec_current() =~= old(self).spec_current().skip(1));
            assert(forall|a: int|
                0 <= a < self.spec_current().len() ==> #[trigger] self.spec_current()[a] == old(
                    self,
                ).spec_current()[a + 1]);
            assert(n.node_ids@ == old(self).spec_current()[0]);
        }
        match n.node_id(self.crypto_kind) {
            Some(k) => {
                let ghost prevret = self.returned_nodes@;
                self.returned_nodes.push(k);
                proof {
                    assert forall|a: int| 0 <= a < self.spec_current().len() implies !spec_has_key(
                        self.returned_nodes@,
                        spec_node_key(
                            #[trigger] self.spec_current()[a],
                            self.crypto_kind,
                        ).unwrap(),
                    ) by {
                        let ka = spec_node_key(self.spec_current()[a], self.crypto_kind).unwrap();
                        assert(self.spec_current()[a] == old(self).spec_current()[a + 1]);
                        assert(!spec_has_key(prevret, ka));
                        assert(spec_node_key(old(self).spec_current()[a + 1], self.crypto_kind)
                            != spec_node_key(old(self).spec_current()[0], self.crypto_kind));
                        assert forall|b: int|
                            0 <= b < self.returned_nodes@.len() implies self.returned_nodes@[b]
                            != ka by {
                            if b < prevret.len() {
                                assert(prevret[b] != ka);
                            }
                        }
                    }
                }
                Some(n)
            },
            None => Some(n),
        }
    }

    /// The current candidates, front first.
    pub fn nodes(&self) -> (r: &Vec<FanoutNode>)
        ensures
            r@.map_values(|n: FanoutNode| n.node_ids@) == self.spec_current(),
    {
        &self.current_nodes
    }
}

/// Offering a batch leaves every batch member's key either handed out
/// already or present in the queue.
proof fn lemma_add_covers(
    cur: Seq<Seq<TypedKey>>,
    returned: Seq<CryptoKey>,
    kind: CryptoKind,
    ns: Seq<Seq<TypedKey>>,
)
    ensures
        forall|i: int|
            0 <= i < ns.len() && spec_node_key(#[trigger] ns[i], kind) is Some && !spec_has_key(
                returned,
                spec_node_key(ns[i], kind).unwrap(),
            ) ==> spec_queue_has_key(
                spec_add(cur, returned, kind, ns),
                kind,
                spec_node_key(ns[i], kind).unwrap(),
            ),
    decreases ns.len(),
{
    if ns.len() > 0 {
        let cur2 = spec_add_one(cur, returned, kind, ns[0]);
        lemma_add_covers(cur2, returned, kind, ns.skip(1));
        lemma_add_keeps_keys(cur2, returned, kind, ns.skip(1));
        assert forall|i: int|
            0 <= i < ns.len() && spec_node_key(#[trigger] ns[i], kind) is Some && !spec_has_key(
                returned,
                spec_node_key(ns[i], kind).unwrap(),
            ) implies spec_queue_has_key(
            spec_add(cur, returned, kind, ns),
            kind,
            spec_node_key(ns[i], kind).unwrap(),
        ) by {
            let k = spec_node_key(ns[i], kind).unwrap();
            if i == 0 {
                assert(spec_queue_has_key(cur2, kind, k)) by {
                    if !spec_has_key(returned, k) && !spec_queue_has_key(cur, kind, k) {
                        assert(cur2 == seq![ns[0]] + cur);
                        assert(cur2[0] == ns[0]);
                    } else {
                        assert(cur2 == cur);
                    }
                }
                assert(spec_queue_has_key(spec_add(cur2, returned, kind, ns.skip(1)), kind, k));
            } else {
                assert(ns.skip(1)[i - 1] == ns[i]);
            }
        }
    }
}

/// Offering candidates never removes a key from the queue.
proof fn lemma_add_keeps_keys(
    cur: Seq<Seq<TypedKey>>,
    returned: Seq<CryptoKey>,
    kind: CryptoKind,
    ns: Seq<Seq<TypedKey>>,
)
    ensures
        forall|k: CryptoKey|
            #[trigger] spec_queue_has_key(cur, kind, k) ==> spec_queue_has_key(
                spec_add(cur, returned, kind, ns),
                kind,
                k,
            ),
    decreases ns.len(),
{
    if ns.len() > 0 {
        let cur2 = spec_add_one(cur, returned, kind, ns[0]);
        assert forall|k: CryptoKey| #[trigger]
            spec_queue_has_key(cur, kind, k) implies spec_queue_has_key(cur2, kind, k) by {
            let i = choose|i: int| 0 <= i < cur.len() && spec_node_key(cur[i], kind) == Some(k);
            if cur2 != cur {
                assert(cur2 == seq![ns[0]] + cur);
                assert(cur2[i + 1] == cur[i]);
            }
        }
        lemma_add_keeps_keys(cur2, returned, kind, ns.skip(1));
    }
}

/// If every offered candidate is unkeyed, already handed out, or already
/// queued, offering them changes nothing.
proof fn lemma_add_all_known(
    cur: Seq<Seq<TypedKey>>,
    returned: Seq<CryptoKey>,
    kind: CryptoKind,
    ns: Seq<Seq<TypedKey>>,
)
    requires
        forall|i: int|
            0 <= i < ns.len() ==> match spec_node_key(#[trigger] ns[i], kind) {
                None => true,
                Some(k) => spec_has_key(returned, k) || spec_queue_has_key(cur, kind, k),
            },
    ensures
        spec_add(cur, returned, kind, ns) == cur,
    decreases ns.len(),
{
    if ns.len() > 0 {
        assert(spec_add_one(cur, returned, kind, ns[0]) == cur);
        assert(forall|i: int| 0 <= i < ns.skip(1).len() ==> #[trigger] ns.skip(1)[i] == ns[i + 1]);
        lemma_add_all_known(cur, returned, kind, ns.skip(1));
    }
}

/// Offering the same batch twice is the same as offering it once: the
/// second offer finds every candidate unkeyed, already handed out, or
/// already queued, and adds nothing.
pub proof fn lemma_fanout_add_idempotent(
    cur: Seq<Seq<TypedKey>>,
    returned: Seq<CryptoKey>,
    kind: CryptoKind,
    ns: Seq<Seq<TypedKey>>,
)
    ensures
        spec_add(spec_add(cur, returned, kind, ns), returned, kind, ns) == spec_add(
            cur,
            returned,
            kind,
            ns,
        ),
{
    let once = spec_add(cur, returned, kind, ns);
    lemma_add_covers(cur, returned, kind, ns);
    lemma_add_all_known(once, returned, kind, ns);
}

} // verus!
