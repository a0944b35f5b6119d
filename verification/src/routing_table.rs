//! The Kademlia-style routing table: per-crypto-kind buckets of peers laid
//! out by XOR distance from our own node id, an arena of per-peer entries,
//! and registration, lookup, eviction and health reporting over them.
//!
//! The table's well-formedness (`wf`) carries the bucket invariant: every
//! id of every live entry sits in exactly the bucket that the first set bit
//! of its XOR distance from our id of that kind selects, and every bucket
//! pair points back at a live entry carrying that id.

use vstd::prelude::*;
use crate::bucket_entry::{spec_entry_state, BucketEntryState, PeerStats, RPCStats,
    TransferStatsDownUp};
use crate::crypto_types::{spec_distance, spec_first_nonzero_bit, CryptoKey, CryptoKind, TypedKey,
    distance, first_nonzero_bit};
use crate::fanout_queue::spec_node_key;
use crate::net_types::{ConnectionDescriptor, DialInfo, DialInfoDetail};
use crate::node_info::NetworkClass;
use crate::peer_info::{PeerInfo, SignedNodeInfo};

verus! {

/// One routing domain's own configuration: how we are classified there and
/// the dial info we advertise.
#[derive(Debug)]
pub struct RoutingDomainDetail {
    pub network_class: NetworkClass,
    pub dial_info_details: Vec<DialInfoDetail>,
    pub relay_node: Option<usize>,
}

/// A routing domain: the public internet or the local network.
#[derive(Clone, Copy, Debug, PartialEq, Eq, Structural)]
pub enum RoutingDomain {
    PublicInternet,
    LocalNetwork,
}

/// Liveness census of the table plus per-domain readiness.
#[derive(Clone, Copy, Debug, PartialEq, Eq, Structural)]
pub struct RoutingTableHealth {
    pub reliable_entry_count: usize,
    pub unreliable_entry_count: usize,
    pub dead_entry_count: usize,
    pub public_internet_ready: bool,
    pub local_network_ready: bool,
}

/// One bucket: the node-id values that map here under one crypto kind, each
/// with the index of its entry, oldest first.
#[derive(Debug)]
pub struct Bucket {
    pub entries: Vec<(CryptoKey, usize)>,
}

/// The bucket an id falls into: the index of the first set bit of the XOR
/// distance between our id and the peer's id under one kind; 256 only for
/// our own id itself, which never enters a bucket.
pub open spec fn spec_bucket_index(own: Seq<u8>, key: Seq<u8>) -> int {
    spec_first_nonzero_bit(spec_distance(own, key))
}

/// The capacity of a bucket: 256 halving with each closer bucket, never
/// below one.
pub open spec fn spec_bucket_depth(bucket_index: int) -> int {
    if bucket_index == 0 {
        256
    } else if bucket_index == 1 {
        128
    } else if bucket_index == 2 {
        64
    } else if bucket_index == 3 {
        32
    } else if bucket_index == 4 {
        16
    } else if bucket_index == 5 {
        8
    } else if bucket_index == 6 {
        4
    } else if bucket_index == 7 {
        2
    } else {
        1
    }
}

/// The capacity of a bucket.
pub fn bucket_depth(bucket_index: usize) -> (r: usize)
    ensures
        r == spec_bucket_depth(bucket_index as int),
{
    if bucket_index == 0 {
        256
    } else if bucket_index == 1 {
        128
    } else if bucket_index == 2 {
        64
    } else if bucket_index == 3 {
        32
    } else if bucket_index == 4 {
        16
    } else if bucket_index == 5 {
        8
    } else if bucket_index == 6 {
        4
    } else if bucket_index == 7 {
        2
    } else {
        1
    }
}

/// The position of a kind in a kind list; negative when absent.
pub open spec fn spec_kind_index(kinds: Seq<CryptoKind>, k: CryptoKind) -> int
    decreases kinds.len(),
{
    if kinds.len() == 0 {
        -1
    } else if kinds[0] == k {
        0
    } else {
        let r = spec_kind_index(kinds.skip(1), k);
        if r < 0 {
            -1
        } else {
            r + 1
        }
    }
}

/// Whether a bucket holds the pair of an id value and an entry index.
pub open spec fn spec_bucket_has(b: Seq<(CryptoKey, usize)>, key: CryptoKey, ei: usize) -> bool {
    exists|j: int| 0 <= j < b.len() && b[j] == (key, ei)
}

/// The routing table state: our ids, the buckets per kind, and the entry
/// arena in parallel vectors indexed by entry number.
#[derive(Debug)]
pub struct RoutingTableInner {
    /// The crypto kinds the table serves, in preference order.
    pub kinds: Vec<CryptoKind>,
    /// Our own typed node id per kind, aligned with `kinds`.
    pub node_ids: Vec<TypedKey>,
    /// 256 buckets per kind, flattened: the bucket of kind `ki` at index
    /// `bi` sits at `ki * 256 + bi`.
    pub buckets: Vec<Bucket>,
    /// Whether each entry slot is live.
    pub entry_live: Vec<bool>,
    /// The typed ids of each entry, at most one per kind.
    pub entry_node_ids: Vec<Vec<TypedKey>>,
    /// Per-peer statistics of each entry.
    pub entry_stats: Vec<PeerStats>,
    /// Outstanding references to each entry; a referenced entry is never
    /// evicted.
    pub entry_ref_count: Vec<u32>,
    /// Most recent connection to each entry.
    pub entry_last_connection: Vec<Option<(ConnectionDescriptor, u64)>>,
    /// Signed node info per entry for the public internet domain.
    pub entry_node_info_pi: Vec<Option<SignedNodeInfo>>,
    /// Signed node info per entry for the local network domain.
    pub entry_node_info_ln: Vec<Option<SignedNodeInfo>>,
    /// Whether each entry's peer has seen our current node info.
    pub entry_seen_our_node_info: Vec<bool>,
    /// Our own public internet domain state.
    pub public_internet_routing_domain: RoutingDomainDetail,
    /// Our own local network domain state.
    pub local_network_routing_domain: RoutingDomainDetail,
}

impl RoutingTableInner {
    /// Number of entry slots, live or dead.
    pub open spec fn spec_entry_count(&self) -> int {
        self.entry_live@.len() as int
    }

    /// All the parallel entry vectors agree on their length.
    pub open spec fn entries_len_ok(&self) -> bool {
        &&& self.entry_node_ids@.len() == self.entry_live@.len()
        &&& self.entry_stats@.len() == self.entry_live@.len()
        &&& self.entry_ref_count@.len() == self.entry_live@.len()
        &&& self.entry_last_connection@.len() == self.entry_live@.len()
        &&& self.entry_node_info_pi@.len() == self.entry_live@.len()
        &&& self.entry_node_info_ln@.len() == self.entry_live@.len()
        &&& self.entry_seen_our_node_info@.len() == self.entry_live@.len()
    }

    /// The bucket entries of kind number `ki` at bucket index `bi`.
    pub open spec fn spec_bucket_at(&self, ki: int, bi: int) -> Seq<(CryptoKey, usize)> {
        self.buckets@[ki * 256 + bi].entries@
    }

    /// Kinds, own ids and bucket sets line up, with 256 buckets per kind and
    /// no kind twice.
    pub open spec fn kinds_ok(&self) -> bool {
        &&& self.node_ids@.len() == self.kinds@.len()
        &&& self.buckets@.len() == self.kinds@.len() * 256
        &&& self.kinds@.len() <= 16
        &&& forall|ki: int|
            0 <= ki < self.kinds@.len() ==> (#[trigger] self.node_ids@[ki]).kind == self.kinds@[ki]
        &&& forall|a: int, b: int|
            0 <= a < self.kinds@.len() && 0 <= b < self.kinds@.len() && a != b
                ==> self.kinds@[a] != self.kinds@[b]
    }

    /// Every bucket pair points at a live entry that carries that id under
    /// that kind, in the bucket its distance selects, and no id value
    /// appears twice in one bucket.
    pub open spec fn buckets_ok(&self) -> bool {
        forall|ki: int, bi: int|
            0 <= ki < self.kinds@.len() && 0 <= bi < 256 ==> {
                let b = #[trigger] self.spec_bucket_at(ki, bi);
                &&& forall|j: int|
                    0 <= j < b.len() ==> {
                        let key = (#[trigger] b[j]).0;
                        let ei = b[j].1;
                        &&& ei < self.entry_live@.len()
                        &&& self.entry_live@[ei as int]
                        &&& spec_node_key(self.entry_node_ids@[ei as int]@, self.kinds@[ki])
                            == Some(key)
                        &&& spec_bucket_index(
                            self.node_ids@[ki].value.bytes@,
                            key.bytes@,
                        ) == bi
                    }
                &&& forall|j1: int, j2: int|
                    0 <= j1 < b.len() && 0 <= j2 < b.len() && j1 != j2 ==> (#[trigger] b[j1]).0
                        != (#[trigger] b[j2]).0
            }
    }

    /// Every id of every live entry is of a known kind, differs from our own
    /// id, and sits in the bucket its distance selects. Entry ids carry
    /// distinct kinds.
    pub open spec fn entries_ok(&self) -> bool {
        forall|ei: int|
            0 <= ei < self.entry_live@.len() && self.entry_live@[ei] ==> {
                let ids = (#[trigger] self.entry_node_ids@[ei])@;
                &&& forall|a: int, b: int|
                    0 <= a < ids.len() && 0 <= b < ids.len() && a != b ==> (#[trigger] ids[a]).kind
                        != (#[trigger] ids[b]).kind
                &&& forall|a: int|
                    0 <= a < ids.len() ==> {
                        let tk = #[trigger] ids[a];
                        let ki = spec_kind_index(self.kinds@, tk.kind);
                        let bi = spec_bucket_index(
                            self.node_ids@[ki].value.bytes@,
                            tk.value.bytes@,
                        );
                        &&& 0 <= ki < self.kinds@.len()
                        &&& 0 <= bi < 256
                        &&& spec_bucket_has(
                            self.spec_bucket_at(ki, bi),
                            tk.value,
                            ei as usize,
                        )
                    }
            }
    }

    /// The table's full well-formedness; the bucket invariant of the design.
    pub open spec fn wf(&self) -> bool {
        self.entries_len_ok() && self.kinds_ok() && self.buckets_ok() && self.entries_ok()
    }

    /// Whether live entry `ei` carries exactly this typed id.
    pub open spec fn spec_entry_has_id(&self, ei: int, tk: TypedKey) -> bool {
        spec_node_key(self.entry_node_ids@[ei]@, tk.kind) == Some(tk.value)
    }

    /// A fresh table around our own typed node ids, one per kind, every
    /// bucket empty.
    pub fn new(node_ids: Vec<TypedKey>) -> (r: Option<RoutingTableInner>)
        requires
            node_ids@.len() <= 16,
        ensures
            r matches Some(t) ==> t.wf() && t.node_ids@ == node_ids@ && t.spec_entry_count() == 0,
            ({
                forall|a: int, b: int|
                    0 <= a < node_ids@.len() && 0 <= b < node_ids@.len() && a != b ==> (
                    #[trigger] node_ids@[a]).kind != (#[trigger] node_ids@[b]).kind
            }) ==> r is Some,
    {
        // reject duplicate kinds among our own ids
        let mut i: usize = 0;
        while i < node_ids.len()
            invariant
                i <= node_ids@.len(),
                forall|a: int, b: int|
                    0 <= a < node_ids@.len() && 0 <= b < node_ids@.len() && a != b && a < i ==> (
                    #[trigger] node_ids@[a]).kind != (#[trigger] node_ids@[b]).kind,
            decreases node_ids@.len() - i,
        {
            let mut j: usize = i + 1;
            while j < node_ids.len()
                invariant
                    i < node_ids@.len(),
                    i < j,
                    j <= node_ids@.len(),
                    forall|b: int| i < b < j ==> node_ids@[i as int].kind != (#[trigger] node_ids@[b]).kind,
                decreases node_ids@.len() - j,
            {
                if node_ids[i].kind == node_ids[j].kind {
                    return None;
                }
                j += 1;
            }
            proof {
                assert forall|a: int, b: int|
                    0 <= a < node_ids@.len() && 0 <= b < node_ids@.len() && a != b && a < i
                        + 1 implies (#[trigger] node_ids@[a]).kind != (#[trigger] node_ids@[b]).kind by {
                    if a == i {
                        if b > a {
                            assert(node_ids@[i as int].kind != node_ids@[b].kind);
                        }
                    } else if b == i {
                        if a > b {
                            assert(node_ids@[i as int].kind != node_ids@[a].kind);
                        }
                    }
                }
            }
            i += 1;
        }
        let mut kinds: Vec<CryptoKind> = Vec::new();
        let mut buckets: Vec<Bucket> = Vec::new();
        let mut i: usize = 0;
        while i < node_ids.len()
            invariant
                i <= node_ids@.len(),
                node_ids@.len() <= 16,
                kinds@.len() == i,
                buckets@.len() == i * 256,
                forall|ki: int| 0 <= ki < i ==> kinds@[ki] == (#[trigger] node_ids@[ki]).kind,
                forall|b: int| 0 <= b < buckets@.len() ==> (#[trigger] buckets@[b]).entries@.len()
                    == 0,
            decreases node_ids@.len() - i,
        {
            kinds.push(node_ids[i].kind);
            let mut bi: usize = 0;
            while bi < 256
                invariant
                    bi <= 256,
                    i < node_ids@.len() <= 16,
                    buckets@.len() == i * 256 + bi,
                    forall|b: int|
                        0 <= b < buckets@.len() ==> (#[trigger] buckets@[b]).entries@.len() == 0,
                decreases 256 - bi,
            {
                buckets.push(Bucket { entries: Vec::new() });
                bi += 1;
            }
            i += 1;
        }
        let t = RoutingTableInner {
            kinds,
            node_ids,
            buckets,
            entry_live: Vec::new(),
            entry_node_ids: Vec::new(),
            entry_stats: Vec::new(),
            entry_ref_count: Vec::new(),
            entry_last_connection: Vec::new(),
            entry_node_info_pi: Vec::new(),
            entry_node_info_ln: Vec::new(),
            entry_seen_our_node_info: Vec::new(),
            public_internet_routing_domain: RoutingDomainDetail {
                network_class: NetworkClass::Invalid,
                dial_info_details: Vec::new(),
                relay_node: None,
            },
            local_network_routing_domain: RoutingDomainDetail {
                network_class: NetworkClass::Invalid,
                dial_info_details: Vec::new(),
                relay_node: None,
            },
        };
        proof {
            assert(t.entries_len_ok());
            assert(t.kinds_ok()) by {
                assert forall|a: int, b: int|
                    0 <= a < t.kinds@.len() && 0 <= b < t.kinds@.len() && a
                        != b implies t.kinds@[a] != t.kinds@[b] by {
                    assert(t.kinds@[a] == node_ids@[a].kind);
                    assert(t.kinds@[b] == node_ids@[b].kind);
                }
            }
            assert(t.buckets_ok()) by {
                assert forall|ki: int, bi: int|
                    0 <= ki < t.kinds@.len() && 0 <= bi < 256 implies (#[trigger] t.spec_bucket_at(
                    ki,
                    bi,
                )).len() == 0 by {
                    assert(0 <= ki * 256 + bi < t.buckets@.len()) by (nonlinear_arith)
                        requires
                            0 <= ki < t.kinds@.len(),
                            0 <= bi < 256,
                            t.buckets@.len() == t.kinds@.len() * 256,
                    ;
                }
            }
            assert(t.entries_ok());
        }
        Some(t)
    }

    /// Where a kind sits in our kind list.
    pub fn kind_index(&self, kind: CryptoKind) -> (r: Option<usize>)
        ensures
            r matches Some(ki) ==> ki == spec_kind_index(self.kinds@, kind) && ki
                < self.kinds@.len() && self.kinds@[ki as int] == kind,
            r is None ==> spec_kind_index(self.kinds@, kind) < 0,
    {
        let mut i: usize = 0;
        proof {
            assert(self.kinds@.skip(0) =~= self.kinds@);
        }
        while i < self.kinds.len()
            invariant
                i <= self.kinds@.len(),
                forall|j: int| 0 <= j < i ==> self.kinds@[j] != kind,
                spec_kind_index(self.kinds@, kind) == if spec_kind_index(
                    self.kinds@.skip(i as int),
                    kind,
                ) < 0 {
                    -1
                } else {
                    i + spec_kind_index(self.kinds@.skip(i as int), kind)
                },
            decreases self.kinds@.len() - i,
        {
            proof {
                assert(self.kinds@.skip(i as int)[0] == self.kinds@[i as int]);
                assert(self.kinds@.skip(i as int).skip(1) =~= self.kinds@.skip(i as int + 1));
            }
            if self.kinds[i] == kind {
                return Some(i);
            }
            i += 1;
        }
        None
    }

    fn flat_index(&self, ki: usize, bi: usize) -> (r: usize)
        requires
            self.kinds_ok(),
            ki < self.kinds@.len(),
            bi < 256,
        ensures
            r == ki * 256 + bi,
            r < self.buckets@.len(),
    {
        proof {
            assert(ki * 256 + bi < self.kinds@.len() * 256) by (nonlinear_arith)
                requires
                    0 <= ki < self.kinds@.len(),
                    0 <= bi < 256,
            ;
            assert(ki * 256 + bi <= 16 * 256) by (nonlinear_arith)
                requires
                    0 <= ki < self.kinds@.len() <= 16,
                    0 <= bi < 256,
            ;
        }
        ki * 256 + bi
    }

    /// Find the live entry that carries this typed id, if any.
    pub fn lookup_node_ref(&self, node_id: TypedKey) -> (r: Option<usize>)
        requires
            self.wf(),
        ensures
            r matches Some(ei) ==> ei < self.entry_live@.len() && self.entry_live@[ei as int]
                && self.spec_entry_has_id(ei as int, node_id),
            r is None ==> (forall|ei: int|
                0 <= ei < self.entry_live@.len() ==> !(self.entry_live@[ei]
                    && self.spec_entry_has_id(ei, node_id))),
    {
        let ki = match self.kind_index(node_id.kind) {
            Some(ki) => ki,
            None => {
                proof {
                    assert forall|ei: int|
                        0 <= ei < self.entry_live@.len() implies !(self.entry_live@[ei]
                        && self.spec_entry_has_id(ei, node_id)) by {
                        if self.entry_live@[ei] && self.spec_entry_has_id(ei, node_id) {
                            lemma_node_key_member(self.entry_node_ids@[ei]@, node_id.kind);
                            let a = choose|a: int|
                                0 <= a < self.entry_node_ids@[ei]@.len() && (
                                #[trigger] self.entry_node_ids@[ei]@[a]).kind == node_id.kind
                                    && self.entry_node_ids@[ei]@[a].value == spec_node_key(
                                    self.entry_node_ids@[ei]@,
                                    node_id.kind,
                                ).unwrap();
                            assert(spec_kind_index(
                                self.kinds@,
                                self.entry_node_ids@[ei]@[a].kind,
                            ) >= 0);
                        }
                    }
                }
                return None;
            },
        };
        let d = distance(&self.node_ids[ki].value, &node_id.value);
        let bi = match first_nonzero_bit(&d) {
            Some(bi) => bi,
            None => {
                proof {
                    assert forall|ei: int|
                        0 <= ei < self.entry_live@.len() implies !(self.entry_live@[ei]
                        && self.spec_entry_has_id(ei, node_id)) by {
                        if self.entry_live@[ei] && self.spec_entry_has_id(ei, node_id) {
                            lemma_node_key_member(self.entry_node_ids@[ei]@, node_id.kind);
                            let a = choose|a: int|
                                0 <= a < self.entry_node_ids@[ei]@.len() && (
                                #[trigger] self.entry_node_ids@[ei]@[a]).kind == node_id.kind
                                    && self.entry_node_ids@[ei]@[a].value == spec_node_key(
                                    self.entry_node_ids@[ei]@,
                                    node_id.kind,
                                ).unwrap();
                            let tk = self.entry_node_ids@[ei]@[a];
                            assert(tk.value =~= node_id.value);
                            assert(tk =~= node_id);
                            assert(spec_kind_index(self.kinds@, tk.kind) == ki);
                            assert(0 <= spec_bucket_index(
                                self.node_ids@[ki as int].value.bytes@,
                                tk.value.bytes@,
                            ) < 256);
                        }
                    }
                }
                return None;
            },
        };
        let flat = self.flat_index(ki, bi);
        let bucket = &self.buckets[flat];
        let mut j: usize = 0;
        while j < bucket.entries.len()
            invariant
                self.wf(),
                j <= bucket.entries@.len(),
                ki < self.kinds@.len(),
                self.kinds@[ki as int] == node_id.kind,
                ki == spec_kind_index(self.kinds@, node_id.kind),
                bi < 256,
                bi == spec_bucket_index(
                    self.node_ids@[ki as int].value.bytes@,
                    node_id.value.bytes@,
                ),
                flat == ki * 256 + bi,
                flat < self.buckets@.len(),
                bucket == self.buckets@[flat as int],
                forall|j2: int|
                    0 <= j2 < j ==> (#[trigger] bucket.entries@[j2]).0.bytes@
                        != node_id.value.bytes@,
            decreases bucket.entries@.len() - j,
        {
            if bucket.entries[j].0 == node_id.value {
                let ei = bucket.entries[j].1;
                proof {
                    assert(bucket.entries@[j as int].0.bytes =~= node_id.value.bytes);
                    assert(bucket.entries@[j as int].0 =~= node_id.value);
                    assert(self.spec_bucket_at(ki as int, bi as int) == bucket.entries@);
                    assert(self.entry_live@[ei as int] && spec_node_key(
                        self.entry_node_ids@[ei as int]@,
                        self.kinds@[ki as int],
                    ) == Some(bucket.entries@[j as int].0));
                }
                return Some(ei);
            }
            proof {
                assert(bucket.entries@[j as int].0.bytes@ != node_id.value.bytes@) by {
                    if bucket.entries@[j as int].0.bytes@ == node_id.value.bytes@ {
                        assert(bucket.entries@[j as int].0 =~= node_id.value);
                    }
                }
            }
            j += 1;
        }
        proof {
            assert forall|ei: int|
                0 <= ei < self.entry_live@.len() implies !(self.entry_live@[ei]
                && self.spec_entry_has_id(ei, node_id)) by {
                if self.entry_live@[ei] && self.spec_entry_has_id(ei, node_id) {
                    lemma_node_key_member(self.entry_node_ids@[ei]@, node_id.kind);
                    let a = choose|a: int|
                        0 <= a < self.entry_node_ids@[ei]@.len() && (
                        #[trigger] self.entry_node_ids@[ei]@[a]).kind == node_id.kind
                            && self.entry_node_ids@[ei]@[a].value == spec_node_key(
                            self.entry_node_ids@[ei]@,
                            node_id.kind,
                        ).unwrap();
                    let tk = self.entry_node_ids@[ei]@[a];
                    assert(tk.value =~= node_id.value);
                    assert(spec_kind_index(self.kinds@, tk.kind) == ki);
                    assert(spec_bucket_has(
                        self.spec_bucket_at(ki as int, bi as int),
                        tk.value,
                        ei as usize,
                    ));
                    let j2 = choose|j2: int|
                        0 <= j2 < self.spec_bucket_at(ki as int, bi as int).len()
                            && self.spec_bucket_at(ki as int, bi as int)[j2] == (
                        tk.value,
                        ei as usize,
                        );
                    assert(bucket.entries@[j2].0.bytes@ == node_id.value.bytes@);
                }
            }
        }
        None
    }

    /// Allocate a brand-new entry carrying exactly one typed id and bind it
    /// in its bucket.
    fn allocate_entry(&mut self, node_id: TypedKey, ki: usize, bi: usize, timestamp: u64) -> (r:
        usize)
        requires
            old(self).wf(),
            ki < old(self).kinds@.len(),
            old(self).kinds@[ki as int] == node_id.kind,
            ki == spec_kind_index(old(self).kinds@, node_id.kind),
            bi < 256,
            bi == spec_bucket_index(
                old(self).node_ids@[ki as int].value.bytes@,
                node_id.value.bytes@,
            ),
            forall|ei: int|
                0 <= ei < old(self).entry_live@.len() ==> !(old(self).entry_live@[ei] && old(
                    self,
                ).spec_entry_has_id(ei, node_id)),
        ensures
            final(self).wf(),
            r == old(self).entry_live@.len(),
            final(self).entry_live@.len() == old(self).entry_live@.len() + 1,
            final(self).entry_live@[r as int],
            final(self).spec_entry_has_id(r as int, node_id),
            final(self).entry_node_ids@[r as int]@ == seq![node_id],
            final(self).entry_stats@[r as int].time_added == timestamp,
            final(self).entry_stats@[r as int].rpc_stats == crate::bucket_entry::spec_rpc_stats_new(),
            final(self).entry_ref_count@[r as int] == 0,
            final(self).entry_last_connection@[r as int] is None,
            final(self).kinds@ == old(self).kinds@,
            final(self).node_ids@ == old(self).node_ids@,
            forall|ei: int|
                0 <= ei < old(self).entry_live@.len() ==> {
                    &&& final(self).entry_live@[ei] == old(self).entry_live@[ei]
                    &&& final(self).entry_node_ids@[ei] == old(self).entry_node_ids@[ei]
                    &&& final(self).entry_stats@[ei] == old(self).entry_stats@[ei]
                    &&& final(self).entry_ref_count@[ei] == old(self).entry_ref_count@[ei]
                },
    {
        let n = self.entry_live.len();
        self.entry_live.push(true);
        let mut ids: Vec<TypedKey> = Vec::new();
        ids.push(node_id);
        proof {
            assert(ids@ =~= seq![node_id]);
        }
        self.entry_node_ids.push(ids);
        self.entry_stats.push(
            PeerStats {
                time_added: timestamp,
                rpc_stats: RPCStats::new(),
                latency: None,
                transfer: TransferStatsDownUp::new(),
            },
        );
        self.entry_ref_count.push(0);
        self.entry_last_connection.push(None);
        self.entry_node_info_pi.push(None);
        self.entry_node_info_ln.push(None);
        self.entry_seen_our_node_info.push(false);
        let flat = self.flat_index(ki, bi);
        let mut newb: Vec<(CryptoKey, usize)> = Vec::new();
        let mut j: usize = 0;
        let blen = self.buckets[flat].entries.len();
        while j < blen
            invariant
                j <= blen,
                flat < self.buckets@.len(),
                blen == self.buckets@[flat as int].entries@.len(),
                newb@ == self.buckets@[flat as int].entries@.take(j as int),
            decreases blen - j,
        {
            newb.push(self.buckets[flat].entries[j]);
            proof {
                assert(newb@ =~= self.buckets@[flat as int].entries@.take(j as int + 1));
            }
            j += 1;
        }
        proof {
            assert(newb@ =~= self.buckets@[flat as int].entries@);
        }
        newb.push((node_id.value, n));
        let ghost oldbucket = self.buckets@[flat as int].entries@;
        self.buckets.set(flat, Bucket { entries: newb });
        proof {
            let t = *self;
            let o = *old(self);
            assert(t.spec_bucket_at(ki as int, bi as int) == oldbucket.push((node_id.value, n)));
            assert forall|ki2: int, bi2: int|
                0 <= ki2 < t.kinds@.len() && 0 <= bi2 < 256 && !(ki2 == ki && bi2
                    == bi) implies t.spec_bucket_at(ki2, bi2) == o.spec_bucket_at(ki2, bi2) by {
                assert(ki2 * 256 + bi2 != ki * 256 + bi) by (nonlinear_arith)
                    requires
                        0 <= ki2,
                        0 <= bi2 < 256,
                        0 <= bi < 256,
                        !(ki2 == ki && bi2 == bi),
                ;
            }
            assert(t.entries_len_ok());
            assert(t.kinds_ok());
            assert(t.buckets_ok()) by {
                assert forall|ki2: int, bi2: int|
                    0 <= ki2 < t.kinds@.len() && 0 <= bi2 < 256 implies {
                    let b = #[trigger] t.spec_bucket_at(ki2, bi2);
                    &&& forall|j: int|
                        0 <= j < b.len() ==> {
                            let key = (#[trigger] b[j]).0;
                            let ei = b[j].1;
                            &&& ei < t.entry_live@.len()
                            &&& t.entry_live@[ei as int]
                            &&& spec_node_key(t.entry_node_ids@[ei as int]@, t.kinds@[ki2])
                                == Some(key)
                            &&& spec_bucket_index(t.node_ids@[ki2].value.bytes@, key.bytes@) == bi2
                        }
                    &&& forall|j1: int, j2: int|
                        0 <= j1 < b.len() && 0 <= j2 < b.len() && j1 != j2 ==> (#[trigger] b[j1]).0
                            != (#[trigger] b[j2]).0
                } by {
                    let b = t.spec_bucket_at(ki2, bi2);
                    if ki2 == ki && bi2 == bi {
                        assert(b == oldbucket.push((node_id.value, n)));
                        assert forall|j: int| 0 <= j < b.len() implies {
                            let key = (#[trigger] b[j]).0;
                            let ei = b[j].1;
                            &&& ei < t.entry_live@.len()
                            &&& t.entry_live@[ei as int]
                            &&& spec_node_key(t.entry_node_ids@[ei as int]@, t.kinds@[ki2])
                                == Some(key)
                            &&& spec_bucket_index(t.node_ids@[ki2].value.bytes@, key.bytes@) == bi2
                        } by {
                            if j < oldbucket.len() {
                                assert(b[j] == oldbucket[j]);
                                assert(o.spec_bucket_at(ki as int, bi as int) == oldbucket);
                            } else {
                                assert(b[j] == (node_id.value, n));
                                assert(spec_node_key(seq![node_id], node_id.kind) == Some(
                                    node_id.value,
                                ));
                            }
                        }
                        assert forall|j1: int, j2: int|
                            0 <= j1 < b.len() && 0 <= j2 < b.len() && j1 != j2 implies (
                        #[trigger] b[j1]).0 != (#[trigger] b[j2]).0 by {
                            if j1 < oldbucket.len() && j2 < oldbucket.len() {
                                assert(o.spec_bucket_at(ki as int, bi as int) == oldbucket);
                                assert(b[j1] == oldbucket[j1] && b[j2] == oldbucket[j2]);
                            } else if j1 < oldbucket.len() {
                                // j2 is the new pair: its key belongs to no live old entry
                                assert(b[j2] == (node_id.value, n));
                                assert(b[j1] == oldbucket[j1]);
                                assert(o.spec_bucket_at(ki as int, bi as int) == oldbucket);
                                let ei1 = oldbucket[j1].1;
                                assert(o.entry_live@[ei1 as int] && spec_node_key(
                                    o.entry_node_ids@[ei1 as int]@,
                                    o.kinds@[ki as int],
                                ) == Some(oldbucket[j1].0));
                                if oldbucket[j1].0 == node_id.value {
                                    assert(o.spec_entry_has_id(ei1 as int, node_id));
                                }
                            } else if j2 < oldbucket.len() {
                                assert(b[j1] == (node_id.value, n));
                                assert(b[j2] == oldbucket[j2]);
                                assert(o.spec_bucket_at(ki as int, bi as int) == oldbucket);
                                let ei2 = oldbucket[j2].1;
                                assert(o.entry_live@[ei2 as int] && spec_node_key(
                                    o.entry_node_ids@[ei2 as int]@,
                                    o.kinds@[ki as int],
                                ) == Some(oldbucket[j2].0));
                                if oldbucket[j2].0 == node_id.value {
                                    assert(o.spec_entry_has_id(ei2 as int, node_id));
                                }
                            }
                        }
                    } else {
                        assert(b == o.spec_bucket_at(ki2, bi2));
                        assert forall|j: int| 0 <= j < b.len() implies {
                            let key = (#[trigger] b[j]).0;
                            let ei = b[j].1;
                            &&& ei < t.entry_live@.len()
                            &&& t.entry_live@[ei as int]
                            &&& spec_node_key(t.entry_node_ids@[ei as int]@, t.kinds@[ki2])
                                == Some(key)
                            &&& spec_bucket_index(t.node_ids@[ki2].value.bytes@, key.bytes@) == bi2
                        } by {
                            assert(b[j].1 < o.entry_live@.len());
                            assert(t.entry_node_ids@[b[j].1 as int] == o.entry_node_ids@[b[j].1 as int]);
                        }
                    }
                }
            }
            assert(t.entries_ok()) by {
                assert forall|ei: int|
                    0 <= ei < t.entry_live@.len() && t.entry_live@[ei] implies {
                    let ids = (#[trigger] t.entry_node_ids@[ei])@;
                    &&& forall|a: int, b: int|
                        0 <= a < ids.len() && 0 <= b < ids.len() && a != b ==> (
                        #[trigger] ids[a]).kind != (#[trigger] ids[b]).kind
                    &&& forall|a: int|
                        0 <= a < ids.len() ==> {
                            let tk = #[trigger] ids[a];
                            let ki3 = spec_kind_index(t.kinds@, tk.kind);
                            let bi3 = spec_bucket_index(
                                t.node_ids@[ki3].value.bytes@,
                                tk.value.bytes@,
                            );
                            &&& 0 <= ki3 < t.kinds@.len()
                            &&& 0 <= bi3 < 256
                            &&& spec_bucket_has(t.spec_bucket_at(ki3, bi3), tk.value, ei as usize)
                        }
                } by {
                    let ids = t.entry_node_ids@[ei]@;
                    if ei < o.entry_live@.len() {
                        assert(t.entry_node_ids@[ei] == o.entry_node_ids@[ei]);
                        assert(o.entry_live@[ei]);
                        assert forall|a: int| 0 <= a < ids.len() implies {
                            let tk = #[trigger] ids[a];
                            let ki3 = spec_kind_index(t.kinds@, tk.kind);
                            let bi3 = spec_bucket_index(
                                t.node_ids@[ki3].value.bytes@,
                                tk.value.bytes@,
                            );
                            &&& 0 <= ki3 < t.kinds@.len()
                            &&& 0 <= bi3 < 256
                            &&& spec_bucket_has(t.spec_bucket_at(ki3, bi3), tk.value, ei as usize)
                        } by {
                            let tk = ids[a];
                            let ki3 = spec_kind_index(t.kinds@, tk.kind);
                            let bi3 = spec_bucket_index(
                                t.node_ids@[ki3].value.bytes@,
                                tk.value.bytes@,
                            );
                            assert(spec_bucket_has(
                                o.spec_bucket_at(ki3, bi3),
                                tk.value,
                                ei as usize,
                            ));
                            if ki3 == ki && bi3 == bi {
                                let j3 = choose|j3: int|
                                    0 <= j3 < o.spec_bucket_at(ki3, bi3).len() && o.spec_bucket_at(
                                        ki3,
                                        bi3,
                                    )[j3] == (tk.value, ei as usize);
                                assert(t.spec_bucket_at(ki3, bi3)[j3] == (tk.value, ei as usize));
                            } else {
                                assert(t.spec_bucket_at(ki3, bi3) == o.spec_bucket_at(ki3, bi3));
                            }
                        }
                    } else {
                        assert(ei == n);
                        assert(ids =~= seq![node_id]);
                        assert forall|a: int| 0 <= a < ids.len() implies {
                            let tk = #[trigger] ids[a];
                            let ki3 = spec_kind_index(t.kinds@, tk.kind);
                            let bi3 = spec_bucket_index(
                                t.node_ids@[ki3].value.bytes@,
                                tk.value.bytes@,
                            );
                            &&& 0 <= ki3 < t.kinds@.len()
                            &&& 0 <= bi3 < 256
                            &&& spec_bucket_has(t.spec_bucket_at(ki3, bi3), tk.value, ei as usize)
                        } by {
                            let tk = ids[a];
                            assert(tk == node_id);
                            assert(spec_kind_index(t.kinds@, tk.kind) == ki);
                            let nb = t.spec_bucket_at(ki as int, bi as int);
                            assert(nb[nb.len() - 1] == (node_id.value, n));
                        }
                    }
                }
            }
        }
        n
    }

    /// Whether an entry already carries an id of this kind.
    fn entry_has_kind(&self, ei: usize, kind: CryptoKind) -> (r: bool)
        requires
            ei < self.entry_node_ids@.len(),
        ensures
            r == (spec_node_key(self.entry_node_ids@[ei as int]@, kind) is Some),
    {
        let n_ids = self.entry_node_ids[ei].len();
        let mut a: usize = 0;
        proof {
            assert(self.entry_node_ids@[ei as int]@.skip(0) =~= self.entry_node_ids@[ei as int]@);
        }
        while a < n_ids
            invariant
                a <= n_ids,
                ei < self.entry_node_ids@.len(),
                n_ids == self.entry_node_ids@[ei as int]@.len(),
                spec_node_key(self.entry_node_ids@[ei as int]@, kind) == spec_node_key(
                    self.entry_node_ids@[ei as int]@.skip(a as int),
                    kind,
                ),
            decreases n_ids - a,
        {
            proof {
                assert(self.entry_node_ids@[ei as int]@.skip(a as int)[0]
                    == self.entry_node_ids@[ei as int]@[a as int]);
                assert(self.entry_node_ids@[ei as int]@.skip(a as int).skip(1)
                    =~= self.entry_node_ids@[ei as int]@.skip(a as int + 1));
            }
            if self.entry_node_ids[ei][a].kind == kind {
                return true;
            }
            a += 1;
        }
        proof {
            assert(self.entry_node_ids@[ei as int]@.skip(n_ids as int) =~= Seq::<TypedKey>::empty());
        }
        false
    }

    /// Bind one more typed id to an existing live entry, putting it in its
    /// bucket. The entry must not yet carry an id of that kind and no live
    /// entry may carry the id.
    fn add_entry_id(&mut self, ei: usize, node_id: TypedKey, ki: usize, bi: usize)
        requires
            old(self).wf(),
            ei < old(self).entry_live@.len(),
            old(self).entry_live@[ei as int],
            spec_node_key(old(self).entry_node_ids@[ei as int]@, node_id.kind) is None,
            ki < old(self).kinds@.len(),
            old(self).kinds@[ki as int] == node_id.kind,
            ki == spec_kind_index(old(self).kinds@, node_id.kind),
            bi < 256,
            bi == spec_bucket_index(
                old(self).node_ids@[ki as int].value.bytes@,
                node_id.value.bytes@,
            ),
            forall|e2: int|
                0 <= e2 < old(self).entry_live@.len() ==> !(old(self).entry_live@[e2] && old(
                    self,
                ).spec_entry_has_id(e2, node_id)),
        ensures
            final(self).wf(),
            final(self).entry_live@ == old(self).entry_live@,
            final(self).entry_node_ids@[ei as int]@ == old(self).entry_node_ids@[ei as int]@.push(
                node_id,
            ),
            final(self).spec_entry_has_id(ei as int, node_id),
            final(self).kinds@ == old(self).kinds@,
            final(self).node_ids@ == old(self).node_ids@,
            final(self).entry_stats@ == old(self).entry_stats@,
            final(self).entry_ref_count@ == old(self).entry_ref_count@,
            final(self).entry_last_connection@ == old(self).entry_last_connection@,
            final(self).entry_node_info_pi@ == old(self).entry_node_info_pi@,
            final(self).entry_node_info_ln@ == old(self).entry_node_info_ln@,
            final(self).entry_seen_our_node_info@ == old(self).entry_seen_our_node_info@,
            forall|e2: int|
                0 <= e2 < old(self).entry_live@.len() && e2 != ei ==> {
                    final(self).entry_node_ids@[e2] == old(self).entry_node_ids@[e2]
                },
    {
        let mut ids: Vec<TypedKey> = Vec::new();
        let n_ids = self.entry_node_ids[ei].len();
        let mut a: usize = 0;
        while a < n_ids
            invariant
                a <= n_ids,
                ei < self.entry_node_ids@.len(),
                n_ids == self.entry_node_ids@[ei as int]@.len(),
                ids@ == self.entry_node_ids@[ei as int]@.take(a as int),
            decreases n_ids - a,
        {
            ids.push(self.entry_node_ids[ei][a]);
            proof {
                assert(ids@ =~= self.entry_node_ids@[ei as int]@.take(a as int + 1));
            }
            a += 1;
        }
        proof {
            assert(ids@ =~= self.entry_node_ids@[ei as int]@);
        }
        ids.push(node_id);
        self.entry_node_ids.set(ei, ids);
        let flat = self.flat_index(ki, bi);
        let mut newb: Vec<(CryptoKey, usize)> = Vec::new();
        let mut j: usize = 0;
        let blen = self.buckets[flat].entries.len();
        while j < blen
            invariant
                j <= blen,
                flat < self.buckets@.len(),
                blen == self.buckets@[flat as int].entries@.len(),
                newb@ == self.buckets@[flat as int].entries@.take(j as int),
            decreases blen - j,
        {
            newb.push(self.buckets[flat].entries[j]);
            proof {
                assert(newb@ =~= self.buckets@[flat as int].entries@.take(j as int + 1));
            }
            j += 1;
        }
        proof {
            assert(newb@ =~= self.buckets@[flat as int].entries@);
        }
        newb.push((node_id.value, ei));
        let ghost oldbucket = self.buckets@[flat as int].entries@;
        self.buckets.set(flat, Bucket { entries: newb });
        proof {
            let t = *self;
            let o = *old(self);
            let oldids = o.entry_node_ids@[ei as int]@;
            let newids = t.entry_node_ids@[ei as int]@;
            assert(newids == oldids.push(node_id));
            lemma_node_key_push(oldids, node_id, node_id.kind);
            assert(t.spec_bucket_at(ki as int, bi as int) == oldbucket.push((node_id.value, ei)));
            assert forall|ki2: int, bi2: int|
                0 <= ki2 < t.kinds@.len() && 0 <= bi2 < 256 && !(ki2 == ki && bi2
                    == bi) implies t.spec_bucket_at(ki2, bi2) == o.spec_bucket_at(ki2, bi2) by {
                assert(ki2 * 256 + bi2 != ki * 256 + bi) by (nonlinear_arith)
                    requires
                        0 <= ki2,
                        0 <= bi2 < 256,
                        0 <= bi < 256,
                        !(ki2 == ki && bi2 == bi),
                ;
            }
            assert(t.entries_len_ok());
            assert(t.kinds_ok());
            assert(t.buckets_ok()) by {
                assert forall|ki2: int, bi2: int|
                    0 <= ki2 < t.kinds@.len() && 0 <= bi2 < 256 implies {
                    let b = #[trigger] t.spec_bucket_at(ki2, bi2);
                    &&& forall|j: int|
                        0 <= j < b.len() ==> {
                            let key = (#[trigger] b[j]).0;
                            let e3 = b[j].1;
                            &&& e3 < t.entry_live@.len()
                            &&& t.entry_live@[e3 as int]
                            &&& spec_node_key(t.entry_node_ids@[e3 as int]@, t.kinds@[ki2])
                                == Some(key)
                            &&& spec_bucket_index(t.node_ids@[ki2].value.bytes@, key.bytes@) == bi2
                        }
                    &&& forall|j1: int, j2: int|
                        0 <= j1 < b.len() && 0 <= j2 < b.len() && j1 != j2 ==> (#[trigger] b[j1]).0
                            != (#[trigger] b[j2]).0
                } by {
                    let b = t.spec_bucket_at(ki2, bi2);
                    let ob = o.spec_bucket_at(ki2, bi2);
                    assert forall|j: int| 0 <= j < b.len() implies {
                        let key = (#[trigger] b[j]).0;
                        let e3 = b[j].1;
                        &&& e3 < t.entry_live@.len()
                        &&& t.entry_live@[e3 as int]
                        &&& spec_node_key(t.entry_node_ids@[e3 as int]@, t.kinds@[ki2]) == Some(
                            key,
                        )
                        &&& spec_bucket_index(t.node_ids@[ki2].value.bytes@, key.bytes@) == bi2
                    } by {
                        if ki2 == ki && bi2 == bi && j == b.len() - 1 {
                            assert(b[j] == (node_id.value, ei));
                        } else {
                            assert(b[j] == ob[j]);
                            let e3 = ob[j].1;
                            if e3 == ei {
                                assert(spec_node_key(oldids, t.kinds@[ki2]) == Some(ob[j].0));
                                lemma_node_key_push(oldids, node_id, t.kinds@[ki2]);
                            } else {
                                assert(t.entry_node_ids@[e3 as int] == o.entry_node_ids@[e3 as int]);
                            }
                        }
                    }
                    assert forall|j1: int, j2: int|
                        0 <= j1 < b.len() && 0 <= j2 < b.len() && j1 != j2 implies (
                    #[trigger] b[j1]).0 != (#[trigger] b[j2]).0 by {
                        if ki2 == ki && bi2 == bi {
                            if j1 < ob.len() && j2 < ob.len() {
                                assert(b[j1] == ob[j1] && b[j2] == ob[j2]);
                            } else if j1 < ob.len() {
                                assert(b[j2] == (node_id.value, ei) && b[j1] == ob[j1]);
                                let e3 = ob[j1].1;
                                assert(o.entry_live@[e3 as int] && spec_node_key(
                                    o.entry_node_ids@[e3 as int]@,
                                    o.kinds@[ki2],
                                ) == Some(ob[j1].0));
                                if ob[j1].0 == node_id.value {
                                    assert(o.spec_entry_has_id(e3 as int, node_id));
                                }
                            } else if j2 < ob.len() {
                                assert(b[j1] == (node_id.value, ei) && b[j2] == ob[j2]);
                                let e3 = ob[j2].1;
                                assert(o.entry_live@[e3 as int] && spec_node_key(
                                    o.entry_node_ids@[e3 as int]@,
                                    o.kinds@[ki2],
                                ) == Some(ob[j2].0));
                                if ob[j2].0 == node_id.value {
                                    assert(o.spec_entry_has_id(e3 as int, node_id));
                                }
                            }
                        } else {
                            assert(b == ob);
                        }
                    }
                }
            }
            assert(t.entries_ok()) by {
                assert forall|e3: int|
                    0 <= e3 < t.entry_live@.len() && t.entry_live@[e3] implies {
                    let eids = (#[trigger] t.entry_node_ids@[e3])@;
                    &&& forall|a: int, b: int|
                        0 <= a < eids.len() && 0 <= b < eids.len() && a != b ==> (
                        #[trigger] eids[a]).kind != (#[trigger] eids[b]).kind
                    &&& forall|a: int|
                        0 <= a < eids.len() ==> {
                            let tk = #[trigger] eids[a];
                            let ki3 = spec_kind_index(t.kinds@, tk.kind);
                            let bi3 = spec_bucket_index(
                                t.node_ids@[ki3].value.bytes@,
                                tk.value.bytes@,
                            );
                            &&& 0 <= ki3 < t.kinds@.len()
                            &&& 0 <= bi3 < 256
                            &&& spec_bucket_has(t.spec_bucket_at(ki3, bi3), tk.value, e3 as usize)
                        }
                } by {
                    let eids = t.entry_node_ids@[e3]@;
                    if e3 == ei {
                        assert(eids == oldids.push(node_id));
                        assert forall|a: int, b: int|
                            0 <= a < eids.len() && 0 <= b < eids.len() && a != b implies (
                        #[trigger] eids[a]).kind != (#[trigger] eids[b]).kind by {
                            if a < oldids.len() && b < oldids.len() {
                                assert(eids[a] == oldids[a] && eids[b] == oldids[b]);
                            } else if a < oldids.len() {
                                assert(eids[b] == node_id && eids[a] == oldids[a]);
                                if oldids[a].kind == node_id.kind {
                                    lemma_member_node_key(oldids, a);
                                }
                            } else if b < oldids.len() {
                                assert(eids[a] == node_id && eids[b] == oldids[b]);
                                if oldids[b].kind == node_id.kind {
                                    lemma_member_node_key(oldids, b);
                                }
                            }
                        }
                        assert forall|a: int| 0 <= a < eids.len() implies {
                            let tk = #[trigger] eids[a];
                            let ki3 = spec_kind_index(t.kinds@, tk.kind);
                            let bi3 = spec_bucket_index(
                                t.node_ids@[ki3].value.bytes@,
                                tk.value.bytes@,
                            );
                            &&& 0 <= ki3 < t.kinds@.len()
                            &&& 0 <= bi3 < 256
                            &&& spec_bucket_has(t.spec_bucket_at(ki3, bi3), tk.value, e3 as usize)
                        } by {
                            let tk = eids[a];
                            if a < oldids.len() {
                                assert(tk == oldids[a]);
                                let ki3 = spec_kind_index(t.kinds@, tk.kind);
                                let bi3 = spec_bucket_index(
                                    t.node_ids@[ki3].value.bytes@,
                                    tk.value.bytes@,
                                );
                                assert(spec_bucket_has(
                                    o.spec_bucket_at(ki3, bi3),
                                    tk.value,
                                    e3 as usize,
                                ));
                                if ki3 == ki && bi3 == bi {
                                    let j3 = choose|j3: int|
                                        0 <= j3 < o.spec_bucket_at(ki3, bi3).len()
                                            && o.spec_bucket_at(ki3, bi3)[j3] == (
                                        tk.value,
                                        e3 as usize,
                                        );
                                    assert(t.spec_bucket_at(ki3, bi3)[j3] == (
                                        tk.value,
                                        e3 as usize,
                                    ));
                                } else {
                                    assert(t.spec_bucket_at(ki3, bi3) == o.spec_bucket_at(
                                        ki3,
                                        bi3,
                                    ));
                                }
                            } else {
                                assert(tk == node_id);
                                assert(spec_kind_index(t.kinds@, tk.kind) == ki);
                                let nb = t.spec_bucket_at(ki as int, bi as int);
                                assert(nb[nb.len() - 1] == (node_id.value, ei));
                            }
                        }
                    } else {
                        assert(t.entry_node_ids@[e3] == o.entry_node_ids@[e3]);
                        assert(o.entry_live@[e3]);
                        assert forall|a: int| 0 <= a < eids.len() implies {
                            let tk = #[trigger] eids[a];
                            let ki3 = spec_kind_index(t.kinds@, tk.kind);
                            let bi3 = spec_bucket_index(
                                t.node_ids@[ki3].value.bytes@,
                                tk.value.bytes@,
                            );
                            &&& 0 <= ki3 < t.kinds@.len()
                            &&& 0 <= bi3 < 256
                            &&& spec_bucket_has(t.spec_bucket_at(ki3, bi3), tk.value, e3 as usize)
                        } by {
                            let tk = eids[a];
                            let ki3 = spec_kind_index(t.kinds@, tk.kind);
                            let bi3 = spec_bucket_index(
                                t.node_ids@[ki3].value.bytes@,
                                tk.value.bytes@,
                            );
                            assert(spec_bucket_has(
                                o.spec_bucket_at(ki3, bi3),
                                tk.value,
                                e3 as usize,
                            ));
                            if ki3 == ki && bi3 == bi {
                                let j3 = choose|j3: int|
                                    0 <= j3 < o.spec_bucket_at(ki3, bi3).len() && o.spec_bucket_at(
                                        ki3,
                                        bi3,
                                    )[j3] == (tk.value, e3 as usize);
                                assert(t.spec_bucket_at(ki3, bi3)[j3] == (tk.value, e3 as usize));
                            } else {
                                assert(t.spec_bucket_at(ki3, bi3) == o.spec_bucket_at(ki3, bi3));
                            }
                        }
                    }
                }
            }
            lemma_node_key_push(oldids, node_id, node_id.kind);
        }
    }

    /// Whether a bundle names our own node: some id, under a kind we serve,
    /// carries our own id value.
    pub open spec fn spec_names_own_node(&self, ids: Seq<TypedKey>) -> bool {
        exists|i: int|
            0 <= i < ids.len() && {
                let ki = spec_kind_index(self.kinds@, (#[trigger] ids[i]).kind);
                0 <= ki && self.node_ids@[ki].value.bytes@ == ids[i].value.bytes@
            }
    }

    /// Whether some live entry carries this typed id.
    pub open spec fn spec_some_entry_has(&self, tk: TypedKey) -> bool {
        exists|e: int|
            0 <= e < self.entry_live@.len() && self.entry_live@[e] && #[trigger] self.spec_entry_has_id(
                e,
                tk,
            )
    }

    /// Register a peer from its signed identity bundle. Registration
    /// succeeds exactly when the bundle has ids, names neither our own node
    /// nor itself as its relay, carries a valid signature set (unless
    /// `allow_invalid`), and either some id already has an entry or the
    /// first id's kind is one we serve. On success the peer's ids are
    /// merged into one entry (an id of a kind the entry already carries
    /// keeps the entry's binding) and the signed node info is stored for
    /// the routing domain.
    pub fn register_node_with_peer_info(
        &mut self,
        routing_domain: RoutingDomain,
        peer_info: PeerInfo,
        allow_invalid: bool,
        timestamp: u64,
    ) -> (r: Option<usize>)
        requires
            old(self).wf(),
        ensures
            final(self).wf(),
            r is None ==> *final(self) == *old(self),
            (r is Some) == ({
                &&& peer_info.node_ids@.len() > 0
                &&& !old(self).spec_names_own_node(peer_info.node_ids@)
                &&& !peer_info.spec_is_own_relay()
                &&& (allow_invalid || peer_info.signed_node_info.spec_is_valid())
                &&& ((exists|a: int|
                    0 <= a < peer_info.node_ids@.len() && old(self).spec_some_entry_has(
                        #[trigger] peer_info.node_ids@[a],
                    )) || spec_kind_index(old(self).kinds@, peer_info.node_ids@[0].kind) >= 0)
            }),
            r matches Some(ei) ==> {
                &&& ei < final(self).entry_live@.len()
                &&& final(self).entry_live@[ei as int]
                &&& (exists|a: int|
                    0 <= a < peer_info.node_ids@.len() && final(self).spec_entry_has_id(
                        ei as int,
                        #[trigger] peer_info.node_ids@[a],
                    ))
                &&& (routing_domain == RoutingDomain::PublicInternet ==> final(self).entry_node_info_pi@[ei as int] is Some)
                &&& (routing_domain == RoutingDomain::LocalNetwork ==> final(self).entry_node_info_ln@[ei as int] is Some)
            },
    {
        if peer_info.node_ids.len() == 0 {
            return None;
        }
        // never register our own node
        let mut i: usize = 0;
        while i < peer_info.node_ids.len()
            invariant
                self == old(self),
                i <= peer_info.node_ids@.len(),
                old(self).wf(),
                forall|a: int|
                    0 <= a < i ==> !({
                        let ki = spec_kind_index(
                            self.kinds@,
                            (#[trigger] peer_info.node_ids@[a]).kind,
                        );
                        0 <= ki && self.node_ids@[ki].value.bytes@
                            == peer_info.node_ids@[a].value.bytes@
                    }),
            decreases peer_info.node_ids@.len() - i,
        {
            let tk = peer_info.node_ids[i];
            match self.kind_index(tk.kind) {
                Some(ki) => {
                    if self.node_ids[ki].value == tk.value {
                        proof {
                            assert(self.node_ids@[ki as int].value.bytes@ == tk.value.bytes@);
                            assert(old(self).spec_names_own_node(peer_info.node_ids@)) by {
                                assert(peer_info.node_ids@[i as int] == tk);
                            }
                        }
                        return None;
                    }
                    proof {
                        assert(self.node_ids@[ki as int].value.bytes@ != tk.value.bytes@) by {
                            if self.node_ids@[ki as int].value.bytes@ == tk.value.bytes@ {
                                assert(self.node_ids@[ki as int].value =~= tk.value);
                            }
                        }
                    }
                },
                None => {},
            }
            i += 1;
        }
        proof {
            assert(!old(self).spec_names_own_node(peer_info.node_ids@));
        }
        // a node can not be its own relay
        if peer_info.is_own_relay() {
            return None;
        }
        if !allow_invalid {
            if !peer_info.signed_node_info.is_valid() {
                return None;
            }
        }
        // find the entry by any of the peer's ids, else allocate by the first
        let mut found: Option<usize> = None;
        let ghost mut witness: int = 0;
        let mut i: usize = 0;
        while i < peer_info.node_ids.len() && found.is_none()
            invariant
                self == old(self),
                i <= peer_info.node_ids@.len(),
                old(self).wf(),
                found matches Some(ei) ==> ei < self.entry_live@.len()
                    && self.entry_live@[ei as int] && 0 <= witness < peer_info.node_ids@.len()
                    && self.spec_entry_has_id(ei as int, peer_info.node_ids@[witness]),
                found is None ==> forall|a: int|
                    0 <= a < i ==> !old(self).spec_some_entry_has(#[trigger] peer_info.node_ids@[a]),
            decreases peer_info.node_ids@.len() - i,
        {
            match self.lookup_node_ref(peer_info.node_ids[i]) {
                Some(ei) => {
                    found = Some(ei);
                    proof {
                        witness = i as int;
                    }
                },
                None => {
                    proof {
                        assert(!old(self).spec_some_entry_has(peer_info.node_ids@[i as int])) by {
                            if old(self).spec_some_entry_has(peer_info.node_ids@[i as int]) {
                                let e = choose|e: int|
                                    0 <= e < old(self).entry_live@.len() && old(
                                        self,
                                    ).entry_live@[e] && #[trigger] old(self).spec_entry_has_id(
                                        e,
                                        peer_info.node_ids@[i as int],
                                    );
                                assert(false);
                            }
                        }
                    }
                },
            }
            i += 1;
        }
        let ei = match found {
            Some(ei) => ei,
            None => {
                // allocate with the first id, whose kind must be known
                let first = peer_info.node_ids[0];
                proof {
                    witness = 0;
                }
                let ki = match self.kind_index(first.kind) {
                    Some(ki) => ki,
                    None => {
                        return None;
                    },
                };
                let d = distance(&self.node_ids[ki].value, &first.value);
                let bi = match first_nonzero_bit(&d) {
                    Some(bi) => bi,
                    None => {
                        // ruled out: the first id is not our own, so the
                        // distance has a set bit
                        proof {
                            assert(self.node_ids@[ki as int].value.bytes@ != first.value.bytes@)
                                by {
                                assert(!old(self).spec_names_own_node(peer_info.node_ids@));
                                assert(peer_info.node_ids@[0] == first);
                            }
                            lemma_first_nonzero_of_differing(
                                self.node_ids@[ki as int].value.bytes@,
                                first.value.bytes@,
                            );
                            assert(false);
                        }
                        return None;
                    },
                };
                match self.lookup_node_ref(first) {
                    Some(ei) => ei,
                    None => self.allocate_entry(first, ki, bi, timestamp),
                }
            },
        };
        // merge the remaining ids where their kind is free on the entry
        let mut i: usize = 0;
        while i < peer_info.node_ids.len()
            invariant
                i <= peer_info.node_ids@.len(),
                self.wf(),
                ei < self.entry_live@.len(),
                self.entry_live@[ei as int],
                self.entry_live@.len() >= old(self).entry_live@.len(),
                0 <= witness < peer_info.node_ids@.len(),
                self.spec_entry_has_id(ei as int, peer_info.node_ids@[witness]),
                self.entry_node_info_pi@.len() == self.entry_live@.len(),
                self.entry_node_info_ln@.len() == self.entry_live@.len(),
            decreases peer_info.node_ids@.len() - i,
        {
            let tk = peer_info.node_ids[i];
            match self.kind_index(tk.kind) {
                Some(ki) => {
                    let d = distance(&self.node_ids[ki].value, &tk.value);
                    match first_nonzero_bit(&d) {
                        Some(bi) => {
                            match self.lookup_node_ref(tk) {
                                Some(_) => {},
                                None => {
                                    if !self.entry_has_kind(ei, tk.kind) {
                                        let ghost previds = self.entry_node_ids@[ei as int]@;
                                        self.add_entry_id(ei, tk, ki, bi);
                                        proof {
                                            lemma_node_key_push(
                                                previds,
                                                tk,
                                                peer_info.node_ids@[witness].kind,
                                            );
                                        }
                                    }
                                },
                            }
                        },
                        None => {},
                    }
                },
                None => {},
            }
            i += 1;
        }
        // store the signed node info for the domain
        let ghost prev = *self;
        match routing_domain {
            RoutingDomain::PublicInternet => {
                self.entry_node_info_pi.set(ei, Some(peer_info.signed_node_info));
            },
            RoutingDomain::LocalNetwork => {
                self.entry_node_info_ln.set(ei, Some(peer_info.signed_node_info));
            },
        }
        proof {
            lemma_wf_meta_update(prev, *self);
            assert(self.spec_entry_has_id(ei as int, peer_info.node_ids@[witness]));
        }
        Some(ei)
    }

    /// Drop an entry: every bucket pair pointing at it goes away and its
    /// slot goes dead. Its statistics stay behind for the census until the
    /// slot is reused.
    fn remove_entry(&mut self, ei: usize)
        requires
            old(self).wf(),
            ei < old(self).entry_live@.len(),
        ensures
            final(self).wf(),
            final(self).entry_live@ == old(self).entry_live@.update(ei as int, false),
            final(self).entry_node_ids@ == old(self).entry_node_ids@,
            final(self).entry_stats@ == old(self).entry_stats@,
            final(self).entry_ref_count@ == old(self).entry_ref_count@,
            final(self).kinds@ == old(self).kinds@,
            final(self).node_ids@ == old(self).node_ids@,
            final(self).buckets@.len() == old(self).buckets@.len(),
            forall|ki: int, bi: int, j: int|
                (0 <= ki < final(self).kinds@.len() && 0 <= bi < 256 && 0 <= j < final(self).spec_bucket_at(ki, bi).len()) ==> {
                    &&& (#[trigger] final(self).spec_bucket_at(ki, bi)[j]).1 != ei
                    &&& spec_bucket_has(
                        old(self).spec_bucket_at(ki, bi),
                        final(self).spec_bucket_at(ki, bi)[j].0,
                        final(self).spec_bucket_at(ki, bi)[j].1,
                    )
                },
            forall|ki: int, bi: int, j: int|
                (0 <= ki < final(self).kinds@.len() && 0 <= bi < 256 && 0 <= j < old(self).spec_bucket_at(ki, bi).len() && (#[trigger] old(self).spec_bucket_at(ki, bi)[j]).1 != ei) ==> spec_bucket_has(
                    final(self).spec_bucket_at(ki, bi),
                    old(self).spec_bucket_at(ki, bi)[j].0,
                    old(self).spec_bucket_at(ki, bi)[j].1,
                ),
    {
        let nb = self.buckets.len();
        let mut f: usize = 0;
        while f < nb
            invariant
                f <= nb,
                old(self).wf(),
                ei < old(self).entry_live@.len(),
                nb == self.buckets@.len(),
                nb == old(self).buckets@.len(),
                nb == self.kinds@.len() * 256,
                self.kinds@ == old(self).kinds@,
                self.node_ids@ == old(self).node_ids@,
                self.entry_live@ == old(self).entry_live@,
                self.entry_node_ids@ == old(self).entry_node_ids@,
                self.entry_stats@ == old(self).entry_stats@,
                self.entry_ref_count@ == old(self).entry_ref_count@,
                self.entry_last_connection@ == old(self).entry_last_connection@,
                self.entry_node_info_pi@ == old(self).entry_node_info_pi@,
                self.entry_node_info_ln@ == old(self).entry_node_info_ln@,
                self.entry_seen_our_node_info@ == old(self).entry_seen_our_node_info@,
                forall|g: int| f <= g < nb ==> self.buckets@[g] == old(self).buckets@[g],
                forall|g: int, j: int|
                    0 <= g < f && 0 <= j < (#[trigger] self.buckets@[g]).entries@.len() ==> (
                    #[trigger] self.buckets@[g].entries@[j]).1 != ei && spec_bucket_has(
                        old(self).buckets@[g].entries@,
                        self.buckets@[g].entries@[j].0,
                        self.buckets@[g].entries@[j].1,
                    ),
                forall|g: int, j: int|
                    0 <= g < f && 0 <= j < (#[trigger] old(self).buckets@[g]).entries@.len() && (
                    #[trigger] old(self).buckets@[g].entries@[j]).1 != ei ==> spec_bucket_has(
                        self.buckets@[g].entries@,
                        old(self).buckets@[g].entries@[j].0,
                        old(self).buckets@[g].entries@[j].1,
                    ),
                forall|g: int, j1: int, j2: int|
                    0 <= g < f && 0 <= j1 < (#[trigger] self.buckets@[g]).entries@.len() && 0 <= j2
                        < self.buckets@[g].entries@.len() && j1 != j2 ==> (
                    #[trigger] self.buckets@[g].entries@[j1]).0 != (
                    #[trigger] self.buckets@[g].entries@[j2]).0,
            decreases nb - f,
        {
            let ghost oldb = self.buckets@[f as int].entries@;
            proof {
                // map the flat position back to its kind and bucket index to
                // pull the old bucket's facts out of well-formedness
                let ki0 = f as int / 256;
                let bi0 = f as int % 256;
                let nk = old(self).kinds@.len() as int;
                assert(f as int == ki0 * 256 + bi0 && 0 <= bi0 < 256 && 0 <= ki0 < nk)
                    by (nonlinear_arith)
                    requires
                        0 <= f < nb,
                        nb == nk * 256,
                        ki0 == f as int / 256,
                        bi0 == f as int % 256,
                ;
                assert(old(self).spec_bucket_at(ki0, bi0) == old(self).buckets@[f as int].entries@);
                assert(oldb == old(self).buckets@[f as int].entries@);
            }
            let blen = self.buckets[f].entries.len();
            let mut out: Vec<(CryptoKey, usize)> = Vec::new();
            let mut j: usize = 0;
            while j < blen
                invariant
                    j <= blen,
                    f < nb,
                    nb == self.buckets@.len(),
                    blen == oldb.len(),
                    oldb == self.buckets@[f as int].entries@,
                    forall|a: int, b: int|
                        0 <= a < oldb.len() && 0 <= b < oldb.len() && a != b ==> (
                        #[trigger] oldb[a]).0 != (#[trigger] oldb[b]).0,
                    forall|j2: int|
                        0 <= j2 < out@.len() ==> (#[trigger] out@[j2]).1 != ei && (exists|a: int|
                            0 <= a < j && oldb[a] == out@[j2]),
                    forall|a: int|
                        0 <= a < j && (#[trigger] oldb[a]).1 != ei ==> spec_bucket_has(
                            out@,
                            oldb[a].0,
                            oldb[a].1,
                        ),
                    forall|j1: int, j2: int|
                        0 <= j1 < out@.len() && 0 <= j2 < out@.len() && j1 != j2 ==> (
                        #[trigger] out@[j1]).0 != (#[trigger] out@[j2]).0,
                decreases blen - j,
            {
                let pair = self.buckets[f].entries[j];
                proof {
                    assert(oldb[j as int] == pair);
                }
                if pair.1 != ei {
                    let ghost prevout = out@;
                    out.push(pair);
                    proof {
                        assert(out@.last() == oldb[j as int]);
                        assert forall|a: int|
                            0 <= a < j + 1 && (#[trigger] oldb[a]).1 != ei implies spec_bucket_has(
                            out@,
                            oldb[a].0,
                            oldb[a].1,
                        ) by {
                            if a < j {
                                assert(spec_bucket_has(prevout, oldb[a].0, oldb[a].1));
                                let j2 = choose|j2: int|
                                    0 <= j2 < prevout.len() && prevout[j2] == (oldb[a].0, oldb[a].1);
                                assert(out@[j2] == (oldb[a].0, oldb[a].1));
                            } else {
                                assert(out@[out@.len() - 1] == (oldb[a].0, oldb[a].1));
                            }
                        }
                        assert forall|j1: int, j2: int|
                            0 <= j1 < out@.len() && 0 <= j2 < out@.len() && j1 != j2 implies (
                        #[trigger] out@[j1]).0 != (#[trigger] out@[j2]).0 by {
                            if j1 < prevout.len() && j2 < prevout.len() {
                            } else if j1 < prevout.len() {
                                let a = choose|a: int| 0 <= a < j && oldb[a] == prevout[j1];
                                assert(oldb[a].0 != oldb[j as int].0);
                            } else if j2 < prevout.len() {
                                let a = choose|a: int| 0 <= a < j && oldb[a] == prevout[j2];
                                assert(oldb[a].0 != oldb[j as int].0);
                            }
                        }
                    }
                }
                j += 1;
            }
            self.buckets.set(f, Bucket { entries: out });
            f += 1;
        }
        self.entry_live.set(ei, false);
        let n_entries = self.entry_live.len();
        proof {
            let t = *self;
            let o = *old(self);
            assert(o.entry_live@.len() == n_entries);
            assert(t.entry_live@ =~= o.entry_live@.update(ei as int, false));
            assert(t.entries_len_ok());
            assert(t.kinds_ok());
            assert forall|ki: int, bi: int|
                0 <= ki < t.kinds@.len() && 0 <= bi < 256 implies 0 <= #[trigger] (ki * 256 + bi)
                < t.buckets@.len() by {
                assert(0 <= ki * 256 + bi < t.kinds@.len() * 256) by (nonlinear_arith)
                    requires
                        0 <= ki < t.kinds@.len(),
                        0 <= bi < 256,
                ;
            }
            assert(t.buckets_ok()) by {
                assert forall|ki: int, bi: int|
                    0 <= ki < t.kinds@.len() && 0 <= bi < 256 implies {
                    let b = #[trigger] t.spec_bucket_at(ki, bi);
                    &&& forall|j: int|
                        0 <= j < b.len() ==> {
                            let key = (#[trigger] b[j]).0;
                            let e3 = b[j].1;
                            &&& e3 < t.entry_live@.len()
                            &&& t.entry_live@[e3 as int]
                            &&& spec_node_key(t.entry_node_ids@[e3 as int]@, t.kinds@[ki])
                                == Some(key)
                            &&& spec_bucket_index(t.node_ids@[ki].value.bytes@, key.bytes@) == bi
                        }
                    &&& forall|j1: int, j2: int|
                        0 <= j1 < b.len() && 0 <= j2 < b.len() && j1 != j2 ==> (#[trigger] b[j1]).0
                            != (#[trigger] b[j2]).0
                } by {
                    let g = ki * 256 + bi;
                    let b = t.spec_bucket_at(ki, bi);
                    assert(b == t.buckets@[g].entries@);
                    assert forall|j: int| 0 <= j < b.len() implies {
                        let key = (#[trigger] b[j]).0;
                        let e3 = b[j].1;
                        &&& e3 < t.entry_live@.len()
                        &&& t.entry_live@[e3 as int]
                        &&& spec_node_key(t.entry_node_ids@[e3 as int]@, t.kinds@[ki]) == Some(key)
                        &&& spec_bucket_index(t.node_ids@[ki].value.bytes@, key.bytes@) == bi
                    } by {
                        assert(b[j].1 != ei && spec_bucket_has(
                            o.buckets@[g].entries@,
                            b[j].0,
                            b[j].1,
                        ));
                        let a = choose|a: int|
                            0 <= a < o.buckets@[g].entries@.len() && o.buckets@[g].entries@[a] == (
                            b[j].0,
                            b[j].1,
                            );
                        assert(o.spec_bucket_at(ki, bi)[a] == (b[j].0, b[j].1));
                    }
                }
            }
            assert(t.entries_ok()) by {
                assert forall|e3: int|
                    0 <= e3 < t.entry_live@.len() && t.entry_live@[e3] implies {
                    let ids = (#[trigger] t.entry_node_ids@[e3])@;
                    &&& forall|a: int, b: int|
                        0 <= a < ids.len() && 0 <= b < ids.len() && a != b ==> (
                        #[trigger] ids[a]).kind != (#[trigger] ids[b]).kind
                    &&& forall|a: int|
                        0 <= a < ids.len() ==> {
                            let tk = #[trigger] ids[a];
                            let ki = spec_kind_index(t.kinds@, tk.kind);
                            let bi = spec_bucket_index(
                                t.node_ids@[ki].value.bytes@,
                                tk.value.bytes@,
                            );
                            &&& 0 <= ki < t.kinds@.len()
                            &&& 0 <= bi < 256
                            &&& spec_bucket_has(t.spec_bucket_at(ki, bi), tk.value, e3 as usize)
                        }
                } by {
                    assert(e3 != ei);
                    assert(o.entry_live@[e3]);
                    let ids = t.entry_node_ids@[e3]@;
                    assert forall|a: int| 0 <= a < ids.len() implies {
                        let tk = #[trigger] ids[a];
                        let ki = spec_kind_index(t.kinds@, tk.kind);
                        let bi = spec_bucket_index(t.node_ids@[ki].value.bytes@, tk.value.bytes@);
                        &&& 0 <= ki < t.kinds@.len()
                        &&& 0 <= bi < 256
                        &&& spec_bucket_has(t.spec_bucket_at(ki, bi), tk.value, e3 as usize)
                    } by {
                        let tk = ids[a];
                        let ki = spec_kind_index(t.kinds@, tk.kind);
                        let bi = spec_bucket_index(t.node_ids@[ki].value.bytes@, tk.value.bytes@);
                        assert(spec_bucket_has(o.spec_bucket_at(ki, bi), tk.value, e3 as usize));
                        let j0 = choose|j0: int|
                            0 <= j0 < o.spec_bucket_at(ki, bi).len() && o.spec_bucket_at(ki, bi)[j0]
                                == (tk.value, e3 as usize);
                        let g = ki * 256 + bi;
                        assert(0 <= g < t.buckets@.len()) by {
                            assert(0 <= ki * 256 + bi < t.kinds@.len() * 256) by (nonlinear_arith)
                                requires
                                    0 <= ki < t.kinds@.len(),
                                    0 <= bi < 256,
                            ;
                        }
                        assert(o.buckets@[g].entries@[j0] == (tk.value, e3 as usize));
                        assert(e3 as usize != ei);
                        assert(o.buckets@[g].entries@[j0].1 != ei);
                        assert(spec_bucket_has(t.buckets@[g].entries@, tk.value, e3 as usize));
                    }
                }
            }
        }
    }

    /// How many pairs of a bucket point at entries with no references.
    pub open spec fn spec_zero_ref_count(&self, b: Seq<(CryptoKey, usize)>) -> int
        decreases b.len(),
    {
        if b.len() == 0 {
            0
        } else {
            (if b[0].1 < self.entry_ref_count@.len() && self.entry_ref_count@[b[0].1 as int] == 0 {
                1int
            } else {
                0int
            }) + self.spec_zero_ref_count(b.skip(1))
        }
    }

    /// The entry indices of the first `excess` bucket pairs whose entries
    /// hold no references, oldest first: exactly the entries a kick evicts.
    pub open spec fn spec_oldest_zero_victims(
        &self,
        b: Seq<(CryptoKey, usize)>,
        excess: int,
    ) -> Seq<usize>
        decreases b.len(),
    {
        if excess <= 0 || b.len() == 0 {
            Seq::empty()
        } else if b[0].1 < self.entry_ref_count@.len() && self.entry_ref_count@[b[0].1 as int]
            == 0 {
            seq![b[0].1] + self.spec_oldest_zero_victims(b.skip(1), excess - 1)
        } else {
            self.spec_oldest_zero_victims(b.skip(1), excess)
        }
    }

    /// Evict from one bucket down to its depth: starting from the oldest,
    /// entries without references are dropped until at most `depth` such
    /// entries remain in the bucket. Referenced entries are never evicted.
    /// Exactly the oldest unreferenced entries beyond the depth go away, and
    /// `removed` counts them.
    pub fn kick_bucket(&mut self, kind: CryptoKind, bi: usize) -> (removed: usize)
        requires
            old(self).wf(),
            bi < 256,
        ensures
            final(self).wf(),
            final(self).entry_ref_count@ == old(self).entry_ref_count@,
            final(self).entry_node_ids@ == old(self).entry_node_ids@,
            final(self).kinds@ == old(self).kinds@,
            final(self).node_ids@ == old(self).node_ids@,
            forall|e: int|
                0 <= e < final(self).entry_live@.len() && final(self).entry_live@[e] ==> old(
                    self,
                ).entry_live@[e],
            forall|e: int|
                0 <= e < old(self).entry_live@.len() && old(self).entry_live@[e] && old(
                    self,
                ).entry_ref_count@[e] > 0 ==> final(self).entry_live@[e],
            ({
                let ki = spec_kind_index(old(self).kinds@, kind);
                &&& (ki < 0 ==> removed == 0 && *final(self) == *old(self))
                &&& (0 <= ki ==> {
                    let b = old(self).spec_bucket_at(ki, bi as int);
                    let zc = old(self).spec_zero_ref_count(b);
                    let excess = if zc > spec_bucket_depth(bi as int) {
                        zc - spec_bucket_depth(bi as int)
                    } else {
                        0
                    };
                    let victims = old(self).spec_oldest_zero_victims(b, excess);
                    &&& removed == excess
                    &&& (excess == 0 ==> *final(self) == *old(self))
                    &&& (forall|e: int|
                        0 <= e < old(self).entry_live@.len()
                            ==> final(self).entry_live@[e] == (old(self).entry_live@[e]
                            && !spec_contains_index(victims, e)))
                })
            }),
    {
        let ki = match self.kind_index(kind) {
            Some(ki) => ki,
            None => {
                return 0;
            },
        };
        let depth = bucket_depth(bi);
        let flat = self.flat_index(ki, bi);
        let blen = self.buckets[flat].entries.len();
        let ghost b = self.spec_bucket_at(ki as int, bi as int);
        // first pass: count pairs whose entry has no references
        let mut zero_count: usize = 0;
        let mut j: usize = 0;
        proof {
            assert(b.skip(0) =~= b);
        }
        while j < blen
            invariant
                j <= blen,
                *self == *old(self),
                old(self).wf(),
                ki < self.kinds@.len(),
                bi < 256,
                flat == ki * 256 + bi,
                flat < self.buckets@.len(),
                b == self.spec_bucket_at(ki as int, bi as int),
                blen == b.len(),
                zero_count <= j,
                self.spec_zero_ref_count(b) == zero_count + self.spec_zero_ref_count(
                    b.skip(j as int),
                ),
            decreases blen - j,
        {
            proof {
                assert(b.skip(j as int)[0] == b[j as int]);
                assert(b.skip(j as int).skip(1) =~= b.skip(j as int + 1));
            }
            let pair = self.buckets[flat].entries[j];
            if pair.1 < self.entry_ref_count.len() && self.entry_ref_count[pair.1] == 0 {
                zero_count += 1;
            }
            j += 1;
        }
        proof {
            assert(b.skip(blen as int) =~= Seq::<(CryptoKey, usize)>::empty());
            assert(zero_count == self.spec_zero_ref_count(b));
        }
        if zero_count <= depth {
            return 0;
        }
        let excess = zero_count - depth;
        // second pass: collect the oldest `excess` unreferenced entries
        let mut victims: Vec<usize> = Vec::new();
        let mut j: usize = 0;
        proof {
            assert(victims@ + old(self).spec_oldest_zero_victims(b.skip(0), excess as int)
                =~= old(self).spec_oldest_zero_victims(b, excess as int));
        }
        while j < blen && victims.len() < excess
            invariant
                j <= blen,
                *self == *old(self),
                old(self).wf(),
                ki < self.kinds@.len(),
                bi < 256,
                flat == ki * 256 + bi,
                flat < self.buckets@.len(),
                b == self.spec_bucket_at(ki as int, bi as int),
                blen == b.len(),
                excess <= self.spec_zero_ref_count(b),
                victims@.len() <= excess,
                self.spec_zero_ref_count(b.skip(j as int)) >= excess - victims@.len(),
                old(self).spec_oldest_zero_victims(b, excess as int) == victims@ + old(
                    self,
                ).spec_oldest_zero_victims(b.skip(j as int), excess - victims@.len()),
                forall|v: int|
                    0 <= v < victims@.len() ==> (#[trigger] victims@[v]) < self.entry_live@.len()
                        && self.entry_ref_count@[victims@[v] as int] == 0,
            decreases blen - j,
        {
            proof {
                assert(b.skip(j as int)[0] == b[j as int]);
                assert(b.skip(j as int).skip(1) =~= b.skip(j as int + 1));
            }
            let pair = self.buckets[flat].entries[j];
            if pair.1 < self.entry_ref_count.len() && self.entry_ref_count[pair.1] == 0 {
                proof {
                    assert(self.spec_bucket_at(ki as int, bi as int)[j as int] == pair);
                    assert(pair.1 < self.entry_live@.len());
                }
                let ghost prev = victims@;
                let ghost rem = excess - prev.len();
                victims.push(pair.1);
                proof {
                    assert(old(self).spec_oldest_zero_victims(b.skip(j as int), rem) == seq![
                        pair.1,
                    ] + old(self).spec_oldest_zero_victims(b.skip(j as int + 1), rem - 1));
                    assert(prev + (seq![pair.1] + old(self).spec_oldest_zero_victims(
                        b.skip(j as int + 1),
                        rem - 1,
                    )) =~= victims@ + old(self).spec_oldest_zero_victims(
                        b.skip(j as int + 1),
                        rem - 1,
                    ));
                }
            }
            j += 1;
        }
        proof {
            if victims@.len() < excess {
                assert(b.skip(blen as int) =~= Seq::<(CryptoKey, usize)>::empty());
                assert(self.spec_zero_ref_count(Seq::<(CryptoKey, usize)>::empty()) == 0);
                assert(false);
            }
            assert(old(self).spec_oldest_zero_victims(b.skip(j as int), 0) =~= Seq::<usize>::empty());
            assert(victims@ + Seq::<usize>::empty() =~= victims@);
            assert(victims@ == old(self).spec_oldest_zero_victims(b, excess as int));
        }
        // drop them
        let mut v: usize = 0;
        let removed = victims.len();
        proof {
            assert(victims@.take(0) =~= Seq::<usize>::empty());
        }
        while v < removed
            invariant
                v <= removed,
                removed == victims@.len(),
                self.wf(),
                self.entry_ref_count@ == old(self).entry_ref_count@,
                self.entry_node_ids@ == old(self).entry_node_ids@,
                self.kinds@ == old(self).kinds@,
                self.node_ids@ == old(self).node_ids@,
                self.entry_live@.len() == old(self).entry_live@.len(),
                forall|w: int|
                    0 <= w < victims@.len() ==> (#[trigger] victims@[w]) < self.entry_live@.len()
                        && self.entry_ref_count@[victims@[w] as int] == 0,
                forall|e: int|
                    0 <= e < old(self).entry_live@.len() ==> self.entry_live@[e] == (old(
                        self,
                    ).entry_live@[e] && !spec_contains_index(victims@.take(v as int), e)),
            decreases removed - v,
        {
            let victim = victims[v];
            let ghost prevlive = self.entry_live@;
            self.remove_entry(victim);
            proof {
                assert(victims@.take(v as int + 1) =~= victims@.take(v as int).push(
                    victims@[v as int],
                ));
                assert forall|e: int|
                    0 <= e < old(self).entry_live@.len() implies self.entry_live@[e] == (old(
                    self,
                ).entry_live@[e] && !spec_contains_index(victims@.take(v as int + 1), e)) by {
                    lemma_contains_push(victims@.take(v as int), victims@[v as int], e);
                    assert(self.entry_live@[e] == (prevlive[e] && e != victim as int)) by {
                        assert(self.entry_live@ == prevlive.update(victim as int, false));
                    }
                }
            }
            v += 1;
        }
        proof {
            assert(victims@.take(removed as int) =~= victims@);
            assert forall|e: int|
                0 <= e < old(self).entry_live@.len() && old(self).entry_live@[e] && old(
                    self,
                ).entry_ref_count@[e] > 0 implies self.entry_live@[e] by {
                if spec_contains_index(victims@, e) {
                    let w = choose|w: int| 0 <= w < victims@.len() && victims@[w] == e;
                    assert(self.entry_ref_count@[victims@[w] as int] == 0);
                }
            }
        }
        removed
    }

    /// Liveness census over the first `n` entry slots.
    pub open spec fn spec_state_count(&self, n: int, state: BucketEntryState, cur_ts: u64) -> int
        decreases n,
    {
        if n <= 0 {
            0
        } else {
            (if self.entry_live@[n - 1] && spec_entry_state(
                self.entry_stats@[n - 1].rpc_stats,
                cur_ts,
            ) == state {
                1int
            } else {
                0int
            }) + self.spec_state_count(n - 1, state, cur_ts)
        }
    }

    /// Count the live entries, classified by the liveness state machine at
    /// `cur_ts`, and report per-domain readiness: a domain is ready when its
    /// network class is known.
    pub fn get_routing_table_health(&self, cur_ts: u64) -> (r: RoutingTableHealth)
        requires
            self.entries_len_ok(),
        ensures
            r.reliable_entry_count == self.spec_state_count(
                self.spec_entry_count(),
                BucketEntryState::Reliable,
                cur_ts,
            ),
            r.unreliable_entry_count == self.spec_state_count(
                self.spec_entry_count(),
                BucketEntryState::Unreliable,
                cur_ts,
            ),
            r.dead_entry_count == self.spec_state_count(
                self.spec_entry_count(),
                BucketEntryState::Dead,
                cur_ts,
            ),
            r.public_internet_ready == (self.public_internet_routing_domain.network_class
                != NetworkClass::Invalid),
            r.local_network_ready == (self.local_network_routing_domain.network_class
                != NetworkClass::Invalid),
    {
        let mut reliable_entry_count: usize = 0;
        let mut unreliable_entry_count: usize = 0;
        let mut dead_entry_count: usize = 0;
        let n = self.entry_live.len();
        let mut i: usize = 0;
        while i < n
            invariant
                i <= n,
                self.entries_len_ok(),
                n == self.entry_live@.len(),
                reliable_entry_count == self.spec_state_count(
                    i as int,
                    BucketEntryState::Reliable,
                    cur_ts,
                ),
                unreliable_entry_count == self.spec_state_count(
                    i as int,
                    BucketEntryState::Unreliable,
                    cur_ts,
                ),
                dead_entry_count == self.spec_state_count(i as int, BucketEntryState::Dead, cur_ts),
                reliable_entry_count + unreliable_entry_count + dead_entry_count <= i,
            decreases n - i,
        {
            if self.entry_live[i] {
                let st = crate::bucket_entry::BucketEntryInner::state_of(
                    &self.entry_stats[i].rpc_stats,
                    cur_ts,
                );
                match st {
                    BucketEntryState::Reliable => {
                        reliable_entry_count += 1;
                    },
                    BucketEntryState::Unreliable => {
                        unreliable_entry_count += 1;
                    },
                    BucketEntryState::Dead => {
                        dead_entry_count += 1;
                    },
                }
            }
            i += 1;
        }
        RoutingTableHealth {
            reliable_entry_count,
            unreliable_entry_count,
            dead_entry_count,
            public_internet_ready: !matches!(
                self.public_internet_routing_domain.network_class,
                NetworkClass::Invalid,
            ),
            local_network_ready: !matches!(
                self.local_network_routing_domain.network_class,
                NetworkClass::Invalid,
            ),
        }
    }

    /// How many live entries are at least as alive as `min_state` at
    /// `cur_ts`.
    pub open spec fn spec_min_state_count(&self, n: int, min_rank: u8, cur_ts: u64) -> int
        decreases n,
    {
        if n <= 0 {
            0
        } else {
            (if self.entry_live@[n - 1] && crate::bucket_entry::spec_state_rank(
                spec_entry_state(self.entry_stats@[n - 1].rpc_stats, cur_ts),
            ) >= min_rank {
                1int
            } else {
                0int
            }) + self.spec_min_state_count(n - 1, min_rank, cur_ts)
        }
    }

    /// Count live entries whose state is at least `min_state`.
    pub fn get_entry_count(&self, min_state: BucketEntryState, cur_ts: u64) -> (r: usize)
        requires
            self.entries_len_ok(),
        ensures
            r == self.spec_min_state_count(
                self.spec_entry_count(),
                crate::bucket_entry::spec_state_rank(min_state),
                cur_ts,
            ),
    {
        let min_rank = min_state.rank();
        let mut count: usize = 0;
        let n = self.entry_live.len();
        let mut i: usize = 0;
        while i < n
            invariant
                i <= n,
                self.entries_len_ok(),
                n == self.entry_live@.len(),
                count == self.spec_min_state_count(i as int, min_rank, cur_ts),
                count <= i,
                min_rank == crate::bucket_entry::spec_state_rank(min_state),
            decreases n - i,
        {
            if self.entry_live[i] {
                let st = crate::bucket_entry::BucketEntryInner::state_of(
                    &self.entry_stats[i].rpc_stats,
                    cur_ts,
                );
                if st.rank() >= min_rank {
                    count += 1;
                }
            }
            i += 1;
        }
        count
    }

    /// Whether an entry is a candidate for closest-node search under a
    /// kind: live and carrying an id of that kind.
    pub open spec fn spec_is_closest_candidate(&self, ei: int, kind: CryptoKind) -> bool {
        &&& 0 <= ei < self.entry_live@.len()
        &&& self.entry_live@[ei]
        &&& spec_node_key(self.entry_node_ids@[ei]@, kind) is Some
    }

    /// The sort key of an entry for closest-node search: reliable entries
    /// first, then ascending XOR distance to the target, the distance read
    /// as a 256-bit big-endian integer (which is exactly its byte-
    /// lexicographic order).
    pub open spec fn spec_closest_key(&self, ei: int, node_id: TypedKey, cur_ts: u64) -> (
        int,
        int,
        int,
    ) {
        let v = spec_node_key(self.entry_node_ids@[ei]@, node_id.kind).unwrap();
        let d = spec_distance(v.bytes@, node_id.value.bytes@);
        (
            if spec_entry_state(self.entry_stats@[ei].rpc_stats, cur_ts)
                == BucketEntryState::Reliable {
                0
            } else {
                1
            },
            crate::address_filter::spec_bytes_to_u128(d.take(16)),
            crate::address_filter::spec_bytes_to_u128(d.skip(16)),
        )
    }

    /// Whether an entry is a candidate for fastest-node search: live and not
    /// dead.
    pub open spec fn spec_is_fastest_candidate(&self, ei: int, cur_ts: u64) -> bool {
        &&& 0 <= ei < self.entry_live@.len()
        &&& self.entry_live@[ei]
        &&& spec_entry_state(self.entry_stats@[ei].rpc_stats, cur_ts) != BucketEntryState::Dead
    }

    /// The sort key for fastest-node search: reliable entries first, then
    /// entries with a measured latency before those without, then ascending
    /// average latency.
    pub open spec fn spec_fastest_key(&self, ei: int, cur_ts: u64) -> (int, int, int) {
        (
            if spec_entry_state(self.entry_stats@[ei].rpc_stats, cur_ts)
                == BucketEntryState::Reliable {
                0
            } else {
                1
            },
            match self.entry_stats@[ei].latency {
                Some(_) => 0,
                None => 1,
            },
            match self.entry_stats@[ei].latency {
                Some(l) => l.average as int,
                None => 0,
            },
        )
    }

    /// Up to `count` nodes carrying an id of the target's kind, most
    /// reliable then closest to the target first.
    pub fn find_closest_nodes(&self, count: usize, node_id: TypedKey, cur_ts: u64) -> (r: Vec<
        usize,
    >)
        requires
            self.wf(),
        ensures
            forall|i: int|
                0 <= i < r@.len() ==> self.spec_is_closest_candidate(
                    #[trigger] r@[i] as int,
                    node_id.kind,
                ),
            forall|i: int, j: int| 0 <= i < r@.len() && 0 <= j < r@.len() && i != j ==> r@[i] != r@[j],
            forall|i: int, j: int|
                0 <= i < j < r@.len() ==> spec_key3_le(
                    self.spec_closest_key(r@[i] as int, node_id, cur_ts),
                    self.spec_closest_key(r@[j] as int, node_id, cur_ts),
                ),
            forall|e: int|
                self.spec_is_closest_candidate(e, node_id.kind) && !spec_contains_index(r@, e)
                    ==> (forall|i: int|
                    0 <= i < r@.len() ==> spec_key3_le(
                        self.spec_closest_key(#[trigger] r@[i] as int, node_id, cur_ts),
                        self.spec_closest_key(e, node_id, cur_ts),
                    )),
            r@.len() == count || (forall|e: int|
                self.spec_is_closest_candidate(e, node_id.kind) ==> spec_contains_index(r@, e)),
    {
        let mut cands: Vec<(usize, u128, u128, u128)> = Vec::new();
        let n = self.entry_live.len();
        let mut ei: usize = 0;
        while ei < n
            invariant
                ei <= n,
                self.wf(),
                n == self.entry_live@.len(),
                forall|a: int|
                    0 <= a < cands@.len() ==> {
                        &&& self.spec_is_closest_candidate(
                            (#[trigger] cands@[a]).0 as int,
                            node_id.kind,
                        )
                        &&& cands@[a].0 < ei
                        &&& (cands@[a].1 as int, cands@[a].2 as int, cands@[a].3 as int)
                            == self.spec_closest_key(cands@[a].0 as int, node_id, cur_ts)
                    },
                forall|a: int, b: int|
                    0 <= a < b < cands@.len() ==> (#[trigger] cands@[a]).0 < (
                    #[trigger] cands@[b]).0,
                forall|e: int|
                    0 <= e < ei && self.spec_is_closest_candidate(e, node_id.kind) ==> (exists|
                        a: int,
                    |
                        0 <= a < cands@.len() && (#[trigger] cands@[a]).0 == e),
            decreases n - ei,
        {
            if self.entry_live[ei] {
                match self.entry_node_id_value(ei, node_id.kind) {
                    Some(v) => {
                        let d = distance(&v, &node_id.value);
                        let (hi, lo) = split_key_u128(&d);
                        let st = crate::bucket_entry::BucketEntryInner::state_of(
                            &self.entry_stats[ei].rpc_stats,
                            cur_ts,
                        );
                        let rank: u128 = if st.rank() == 2 {
                            0
                        } else {
                            1
                        };
                        let ghost prev = cands@;
                        cands.push((ei, rank, hi, lo));
                        proof {
                            assert forall|e: int|
                                0 <= e < ei + 1 && self.spec_is_closest_candidate(
                                    e,
                                    node_id.kind,
                                ) implies (exists|a: int|
                                0 <= a < cands@.len() && (#[trigger] cands@[a]).0 == e) by {
                                if e < ei {
                                    let a = choose|a: int|
                                        0 <= a < prev.len() && (#[trigger] prev[a]).0 == e;
                                    assert(cands@[a].0 == e);
                                } else {
                                    assert(cands@[cands@.len() - 1].0 == e);
                                }
                            }
                        }
                    },
                    None => {},
                }
            }
            ei += 1;
        }
        let picked = select_sorted_by_key(&cands, count);
        let mut r: Vec<usize> = Vec::new();
        let mut i: usize = 0;
        while i < picked.len()
            invariant
                i <= picked@.len(),
                r@.len() == i,
                forall|a: int| 0 <= a < i ==> r@[a] == (#[trigger] picked@[a]).0,
            decreases picked@.len() - i,
        {
            r.push(picked[i].0);
            i += 1;
        }
        proof {
            let isc = |t: RoutingTableInner, e: int| t.spec_is_closest_candidate(e, node_id.kind);
            let keyf = |t: RoutingTableInner, e: int| t.spec_closest_key(e, node_id, cur_ts);
            lemma_selection_to_entries(*self, cands@, picked@, r@, isc, keyf, count as int);
            assert forall|e: int|
                self.spec_is_closest_candidate(e, node_id.kind) && !spec_contains_index(
                    r@,
                    e,
                ) implies (forall|i: int|
                0 <= i < r@.len() ==> spec_key3_le(
                    self.spec_closest_key(#[trigger] r@[i] as int, node_id, cur_ts),
                    self.spec_closest_key(e, node_id, cur_ts),
                )) by {
                assert(isc(*self, e));
                assert forall|i: int| 0 <= i < r@.len() implies spec_key3_le(
                    self.spec_closest_key(#[trigger] r@[i] as int, node_id, cur_ts),
                    self.spec_closest_key(e, node_id, cur_ts),
                ) by {
                    assert(keyf(*self, r@[i] as int) == self.spec_closest_key(
                        r@[i] as int,
                        node_id,
                        cur_ts,
                    ));
                    assert(keyf(*self, e) == self.spec_closest_key(e, node_id, cur_ts));
                }
            }
            if r@.len() != count {
                assert forall|e: int|
                    self.spec_is_closest_candidate(e, node_id.kind) implies spec_contains_index(
                    r@,
                    e,
                ) by {
                    assert(isc(*self, e));
                }
            }
        }
        r
    }

    /// Up to `count` live, non-dead nodes, most reliable then lowest
    /// round-trip latency first; nodes without latency data come last.
    pub fn find_fastest_nodes(&self, count: usize, cur_ts: u64) -> (r: Vec<usize>)
        requires
            self.wf(),
        ensures
            forall|i: int|
                0 <= i < r@.len() ==> self.spec_is_fastest_candidate(#[trigger] r@[i] as int, cur_ts),
            forall|i: int, j: int| 0 <= i < r@.len() && 0 <= j < r@.len() && i != j ==> r@[i] != r@[j],
            forall|i: int, j: int|
                0 <= i < j < r@.len() ==> spec_key3_le(
                    self.spec_fastest_key(r@[i] as int, cur_ts),
                    self.spec_fastest_key(r@[j] as int, cur_ts),
                ),
            forall|e: int|
                self.spec_is_fastest_candidate(e, cur_ts) && !spec_contains_index(r@, e) ==> (forall|
                    i: int,
                |
                    0 <= i < r@.len() ==> spec_key3_le(
                        self.spec_fastest_key(#[trigger] r@[i] as int, cur_ts),
                        self.spec_fastest_key(e, cur_ts),
                    )),
            r@.len() == count || (forall|e: int|
                self.spec_is_fastest_candidate(e, cur_ts) ==> spec_contains_index(r@, e)),
    {
        let mut cands: Vec<(usize, u128, u128, u128)> = Vec::new();
        let n = self.entry_live.len();
        let mut ei: usize = 0;
        while ei < n
            invariant
                ei <= n,
                self.wf(),
                n == self.entry_live@.len(),
                forall|a: int|
                    0 <= a < cands@.len() ==> {
                        &&& self.spec_is_fastest_candidate((#[trigger] cands@[a]).0 as int, cur_ts)
                        &&& cands@[a].0 < ei
                        &&& (cands@[a].1 as int, cands@[a].2 as int, cands@[a].3 as int)
                            == self.spec_fastest_key(cands@[a].0 as int, cur_ts)
                    },
                forall|a: int, b: int|
                    0 <= a < b < cands@.len() ==> (#[trigger] cands@[a]).0 < (
                    #[trigger] cands@[b]).0,
                forall|e: int|
                    0 <= e < ei && self.spec_is_fastest_candidate(e, cur_ts) ==> (exists|a: int|
                        0 <= a < cands@.len() && (#[trigger] cands@[a]).0 == e),
            decreases n - ei,
        {
            if self.entry_live[ei] {
                let st = crate::bucket_entry::BucketEntryInner::state_of(
                    &self.entry_stats[ei].rpc_stats,
                    cur_ts,
                );
                if st.rank() != 0 {
                    let rank: u128 = if st.rank() == 2 {
                        0
                    } else {
                        1
                    };
                    let (has_lat, avg): (u128, u128) = match self.entry_stats[ei].latency {
                        Some(l) => (0, l.average as u128),
                        None => (1, 0),
                    };
                    let ghost prev = cands@;
                    cands.push((ei, rank, has_lat, avg));
                    proof {
                        assert forall|e: int|
                            0 <= e < ei + 1 && self.spec_is_fastest_candidate(
                                e,
                                cur_ts,
                            ) implies (exists|a: int|
                            0 <= a < cands@.len() && (#[trigger] cands@[a]).0 == e) by {
                            if e < ei {
                                let a = choose|a: int|
                                    0 <= a < prev.len() && (#[trigger] prev[a]).0 == e;
                                assert(cands@[a].0 == e);
                            } else {
                                assert(cands@[cands@.len() - 1].0 == e);
                            }
                        }
                    }
                }
            }
            ei += 1;
        }
        let picked = select_sorted_by_key(&cands, count);
        let mut r: Vec<usize> = Vec::new();
        let mut i: usize = 0;
        while i < picked.len()
            invariant
                i <= picked@.len(),
                r@.len() == i,
                forall|a: int| 0 <= a < i ==> r@[a] == (#[trigger] picked@[a]).0,
            decreases picked@.len() - i,
        {
            r.push(picked[i].0);
            i += 1;
        }
        proof {
            let isc = |t: RoutingTableInner, e: int| t.spec_is_fastest_candidate(e, cur_ts);
            let keyf = |t: RoutingTableInner, e: int| t.spec_fastest_key(e, cur_ts);
            lemma_selection_to_entries(*self, cands@, picked@, r@, isc, keyf, count as int);
            assert forall|e: int|
                self.spec_is_fastest_candidate(e, cur_ts) && !spec_contains_index(
                    r@,
                    e,
                ) implies (forall|i: int|
                0 <= i < r@.len() ==> spec_key3_le(
                    self.spec_fastest_key(#[trigger] r@[i] as int, cur_ts),
                    self.spec_fastest_key(e, cur_ts),
                )) by {
                assert(isc(*self, e));
                assert forall|i: int| 0 <= i < r@.len() implies spec_key3_le(
                    self.spec_fastest_key(#[trigger] r@[i] as int, cur_ts),
                    self.spec_fastest_key(e, cur_ts),
                ) by {
                    assert(keyf(*self, r@[i] as int) == self.spec_fastest_key(
                        r@[i] as int,
                        cur_ts,
                    ));
                    assert(keyf(*self, e) == self.spec_fastest_key(e, cur_ts));
                }
            }
            if r@.len() != count {
                assert forall|e: int|
                    self.spec_is_fastest_candidate(e, cur_ts) implies spec_contains_index(
                    r@,
                    e,
                ) by {
                    assert(isc(*self, e));
                }
            }
        }
        r
    }

    /// The value of the entry's id under `kind`, if it carries one.
    pub fn entry_node_id_value(&self, ei: usize, kind: CryptoKind) -> (r: Option<CryptoKey>)
        requires
            ei < self.entry_node_ids@.len(),
        ensures
            r == spec_node_key(self.entry_node_ids@[ei as int]@, kind),
    {
        let n_ids = self.entry_node_ids[ei].len();
        let mut a: usize = 0;
        proof {
            assert(self.entry_node_ids@[ei as int]@.skip(0) =~= self.entry_node_ids@[ei as int]@);
        }
        while a < n_ids
            invariant
                a <= n_ids,
                ei < self.entry_node_ids@.len(),
                n_ids == self.entry_node_ids@[ei as int]@.len(),
                spec_node_key(self.entry_node_ids@[ei as int]@, kind) == spec_node_key(
                    self.entry_node_ids@[ei as int]@.skip(a as int),
                    kind,
                ),
            decreases n_ids - a,
        {
            proof {
                assert(self.entry_node_ids@[ei as int]@.skip(a as int)[0]
                    == self.entry_node_ids@[ei as int]@[a as int]);
                assert(self.entry_node_ids@[ei as int]@.skip(a as int).skip(1)
                    =~= self.entry_node_ids@[ei as int]@.skip(a as int + 1));
            }
            if self.entry_node_ids[ei][a].kind == kind {
                return Some(self.entry_node_ids[ei][a].value);
            }
            a += 1;
        }
        proof {
            assert(self.entry_node_ids@[ei as int]@.skip(n_ids as int) =~= Seq::<TypedKey>::empty());
        }
        None
    }

    /// Register a node we just heard from over a live connection: reuse or
    /// allocate its entry, mark it seen now, and record the connection.
    /// Refuses our own node id and ids of unknown kinds.
    pub fn register_node_with_existing_connection(
        &mut self,
        node_id: TypedKey,
        descriptor: ConnectionDescriptor,
        timestamp: u64,
    ) -> (r: Option<usize>)
        requires
            old(self).wf(),
        ensures
            final(self).wf(),
            r is None ==> *final(self) == *old(self),
            r is None ==> spec_kind_index(old(self).kinds@, node_id.kind) < 0 || spec_bucket_index(
                old(self).node_ids@[spec_kind_index(old(self).kinds@, node_id.kind)].value.bytes@,
                node_id.value.bytes@,
            ) == 256,
            r matches Some(ei) ==> {
                &&& ei < final(self).entry_live@.len()
                &&& final(self).entry_live@[ei as int]
                &&& final(self).spec_entry_has_id(ei as int, node_id)
                &&& final(self).entry_last_connection@[ei as int] == Some((descriptor, timestamp))
                &&& final(self).entry_stats@[ei as int].rpc_stats.last_seen_ts == Some(timestamp)
                &&& final(self).entry_stats@[ei as int].rpc_stats.first_consecutive_seen_ts is Some
            },
    {
        let ki = match self.kind_index(node_id.kind) {
            Some(ki) => ki,
            None => {
                return None;
            },
        };
        let d = distance(&self.node_ids[ki].value, &node_id.value);
        let bi = match first_nonzero_bit(&d) {
            Some(bi) => bi,
            None => {
                return None;
            },
        };
        let ei = match self.lookup_node_ref(node_id) {
            Some(ei) => ei,
            None => self.allocate_entry(node_id, ki, bi, timestamp),
        };
        let ghost prev = *self;
        let old_stats = self.entry_stats[ei];
        let new_rpc = RPCStats {
            last_seen_ts: Some(timestamp),
            first_consecutive_seen_ts: if old_stats.rpc_stats.first_consecutive_seen_ts.is_none() {
                Some(timestamp)
            } else {
                old_stats.rpc_stats.first_consecutive_seen_ts
            },
            ..old_stats.rpc_stats
        };
        self.entry_stats.set(ei, PeerStats { rpc_stats: new_rpc, ..old_stats });
        self.entry_last_connection.set(ei, Some((descriptor, timestamp)));
        proof {
            lemma_wf_meta_update(prev, *self);
        }
        Some(ei)
    }
}


/// Changing only per-entry metadata (statistics, connections, node info,
/// flags, reference counts) preserves the table's well-formedness: the
/// bucket invariant speaks only of liveness, ids and buckets.
pub proof fn lemma_wf_meta_update(prev: RoutingTableInner, cur: RoutingTableInner)
    requires
        prev.wf(),
        cur.kinds@ == prev.kinds@,
        cur.node_ids@ == prev.node_ids@,
        cur.buckets@ == prev.buckets@,
        cur.entry_live@ == prev.entry_live@,
        cur.entry_node_ids@ == prev.entry_node_ids@,
        cur.entries_len_ok(),
    ensures
        cur.wf(),
{
    assert(cur.kinds_ok());
    assert(cur.buckets_ok()) by {
        assert forall|ki: int, bi: int|
            0 <= ki < cur.kinds@.len() && 0 <= bi < 256 implies {
            let b = #[trigger] cur.spec_bucket_at(ki, bi);
            &&& forall|j: int|
                0 <= j < b.len() ==> {
                    let key = (#[trigger] b[j]).0;
                    let ei = b[j].1;
                    &&& ei < cur.entry_live@.len()
                    &&& cur.entry_live@[ei as int]
                    &&& spec_node_key(cur.entry_node_ids@[ei as int]@, cur.kinds@[ki]) == Some(key)
                    &&& spec_bucket_index(cur.node_ids@[ki].value.bytes@, key.bytes@) == bi
                }
            &&& forall|j1: int, j2: int|
                0 <= j1 < b.len() && 0 <= j2 < b.len() && j1 != j2 ==> (#[trigger] b[j1]).0 != (
                #[trigger] b[j2]).0
        } by {
            assert(cur.spec_bucket_at(ki, bi) == prev.spec_bucket_at(ki, bi));
        }
    }
    assert(cur.entries_ok()) by {
        assert forall|ei: int|
            0 <= ei < cur.entry_live@.len() && cur.entry_live@[ei] implies {
            let ids = (#[trigger] cur.entry_node_ids@[ei])@;
            &&& forall|a: int, b: int|
                0 <= a < ids.len() && 0 <= b < ids.len() && a != b ==> (#[trigger] ids[a]).kind != (
                #[trigger] ids[b]).kind
            &&& forall|a: int|
                0 <= a < ids.len() ==> {
                    let tk = #[trigger] ids[a];
                    let ki = spec_kind_index(cur.kinds@, tk.kind);
                    let bi = spec_bucket_index(cur.node_ids@[ki].value.bytes@, tk.value.bytes@);
                    &&& 0 <= ki < cur.kinds@.len()
                    &&& 0 <= bi < 256
                    &&& spec_bucket_has(cur.spec_bucket_at(ki, bi), tk.value, ei as usize)
                }
        } by {
            assert(prev.entry_live@[ei]);
            assert(cur.entry_node_ids@[ei] == prev.entry_node_ids@[ei]);
            let ids = cur.entry_node_ids@[ei]@;
            assert forall|a: int| 0 <= a < ids.len() implies {
                let tk = #[trigger] ids[a];
                let ki = spec_kind_index(cur.kinds@, tk.kind);
                let bi = spec_bucket_index(cur.node_ids@[ki].value.bytes@, tk.value.bytes@);
                &&& 0 <= ki < cur.kinds@.len()
                &&& 0 <= bi < 256
                &&& spec_bucket_has(cur.spec_bucket_at(ki, bi), tk.value, ei as usize)
            } by {
                let tk = ids[a];
                let ki = spec_kind_index(cur.kinds@, tk.kind);
                let bi = spec_bucket_index(cur.node_ids@[ki].value.bytes@, tk.value.bytes@);
                assert(spec_bucket_has(prev.spec_bucket_at(ki, bi), tk.value, ei as usize));
                assert(cur.spec_bucket_at(ki, bi) == prev.spec_bucket_at(ki, bi));
            }
        }
    }
}


/// Appending an id leaves every existing kind's first id unchanged and
/// gives the new id's kind its value when that kind was absent.
pub proof fn lemma_node_key_push(ids: Seq<TypedKey>, tk: TypedKey, k: CryptoKind)
    ensures
        spec_node_key(ids.push(tk), k) == if spec_node_key(ids, k) is Some {
            spec_node_key(ids, k)
        } else if tk.kind == k {
            Some(tk.value)
        } else {
            None::<CryptoKey>
        },
    decreases ids.len(),
{
    if ids.len() == 0 {
        assert(ids.push(tk)[0] == tk);
        assert(ids.push(tk).skip(1) =~= Seq::<TypedKey>::empty());
        assert(spec_node_key(Seq::<TypedKey>::empty(), k) is None);
    } else {
        assert(ids.push(tk)[0] == ids[0]);
        assert(ids.push(tk).skip(1) =~= ids.skip(1).push(tk));
        lemma_node_key_push(ids.skip(1), tk, k);
    }
}


/// Lexicographic order on three-part integer sort keys.
pub open spec fn spec_key3_le(a: (int, int, int), b: (int, int, int)) -> bool {
    a.0 < b.0 || (a.0 == b.0 && (a.1 < b.1 || (a.1 == b.1 && a.2 <= b.2)))
}

/// Whether an index sequence holds `e`.
pub open spec fn spec_contains_index(s: Seq<usize>, e: int) -> bool {
    exists|i: int| 0 <= i < s.len() && s[i] == e
}

/// Membership after a push: the old members plus the pushed one.
pub proof fn lemma_contains_push(s: Seq<usize>, x: usize, e: int)
    ensures
        spec_contains_index(s.push(x), e) == (spec_contains_index(s, e) || x == e),
{
    if spec_contains_index(s, e) {
        let i = choose|i: int| 0 <= i < s.len() && s[i] == e;
        assert(s.push(x)[i] == e);
    }
    if x == e {
        assert(s.push(x)[s.len() as int] == e);
    }
    if spec_contains_index(s.push(x), e) {
        let i = choose|i: int| 0 <= i < s.push(x).len() && s.push(x)[i] == e;
        if i < s.len() {
            assert(s[i] == e);
        }
    }
}

/// Whether a tuple sequence holds exactly `x`.
pub open spec fn spec_tuple_in(
    s: Seq<(usize, u128, u128, u128)>,
    x: (usize, u128, u128, u128),
) -> bool {
    exists|i: int| 0 <= i < s.len() && s[i] == x
}

/// Whether a tuple sequence holds a tuple with entry index `e`.
pub open spec fn spec_tuple_index_in(s: Seq<(usize, u128, u128, u128)>, e: usize) -> bool {
    exists|i: int| 0 <= i < s.len() && (#[trigger] s[i]).0 == e
}

/// Split a 32-byte key into two 128-bit big-endian halves.
pub fn split_key_u128(k: &CryptoKey) -> (r: (u128, u128))
    ensures
        r.0 == crate::address_filter::spec_bytes_to_u128(k.bytes@.take(16)),
        r.1 == crate::address_filter::spec_bytes_to_u128(k.bytes@.skip(16)),
{
    let v = k.to_vec();
    let hi_bytes = crate::envelope::copy_range(&v, 0, 16);
    let lo_bytes = crate::envelope::copy_range(&v, 16, 32);
    proof {
        assert(hi_bytes@ =~= k.bytes@.take(16));
        assert(lo_bytes@ =~= k.bytes@.skip(16));
    }
    (crate::address_filter::fold_bytes(&hi_bytes), crate::address_filter::fold_bytes(&lo_bytes))
}

/// Whether tuple `a` sorts at or before tuple `b`, ignoring the entry index.
pub open spec fn spec_tuple_le(a: (usize, u128, u128, u128), b: (usize, u128, u128, u128)) -> bool {
    spec_key3_le((a.1 as int, a.2 as int, a.3 as int), (b.1 as int, b.2 as int, b.3 as int))
}

fn tuple_le(a: &(usize, u128, u128, u128), b: &(usize, u128, u128, u128)) -> (r: bool)
    ensures
        r == spec_tuple_le(*a, *b),
{
    a.1 < b.1 || (a.1 == b.1 && (a.2 < b.2 || (a.2 == b.2 && a.3 <= b.3)))
}

/// Pick the `count` smallest tuples under the key order, smallest first,
/// from a list with pairwise-distinct entry indices.
fn select_sorted_by_key(cands: &Vec<(usize, u128, u128, u128)>, count: usize) -> (r: Vec<
    (usize, u128, u128, u128),
>)
    requires
        forall|a: int, b: int|
            0 <= a < cands@.len() && 0 <= b < cands@.len() && a != b ==> (#[trigger] cands@[a]).0
                != (#[trigger] cands@[b]).0,
    ensures
        r@.len() == if count <= cands@.len() {
            count as int
        } else {
            cands@.len() as int
        },
        forall|i: int| 0 <= i < r@.len() ==> spec_tuple_in(cands@, #[trigger] r@[i]),
        forall|i: int, j: int|
            0 <= i < r@.len() && 0 <= j < r@.len() && i != j ==> (#[trigger] r@[i]).0 != (
            #[trigger] r@[j]).0,
        forall|i: int, j: int| 0 <= i < j < r@.len() ==> spec_tuple_le(r@[i], r@[j]),
        forall|a: int|
            0 <= a < cands@.len() && !spec_tuple_index_in(r@, (#[trigger] cands@[a]).0) ==> (forall|
                i: int,
            |
                0 <= i < r@.len() ==> spec_tuple_le(#[trigger] r@[i], cands@[a])),
        forall|a: int|
            0 <= a < cands@.len() ==> spec_tuple_index_in(r@, (#[trigger] cands@[a]).0) || r@.len()
                == count,
{
    let mut rest: Vec<(usize, u128, u128, u128)> = Vec::new();
    let mut i: usize = 0;
    while i < cands.len()
        invariant
            i <= cands@.len(),
            rest@ == cands@.take(i as int),
        decreases cands@.len() - i,
    {
        rest.push(cands[i]);
        proof {
            assert(rest@ =~= cands@.take(i as int + 1));
        }
        i += 1;
    }
    proof {
        assert(rest@ =~= cands@);
        assert forall|a: int| 0 <= a < rest@.len() implies spec_tuple_in(
            cands@,
            #[trigger] rest@[a],
        ) by {
            assert(cands@[a] == rest@[a]);
        }
        assert forall|c: int| 0 <= c < cands@.len() implies spec_tuple_in(
            rest@,
            #[trigger] cands@[c],
        ) by {
            assert(rest@[c] == cands@[c]);
        }
    }
    let mut r: Vec<(usize, u128, u128, u128)> = Vec::new();
    while r.len() < count && rest.len() > 0
        invariant
            r@.len() <= count,
            r@.len() + rest@.len() == cands@.len(),
            forall|a: int, b: int|
                0 <= a < rest@.len() && 0 <= b < rest@.len() && a != b ==> (#[trigger] rest@[a]).0
                    != (#[trigger] rest@[b]).0,
            forall|a: int| 0 <= a < rest@.len() ==> spec_tuple_in(cands@, #[trigger] rest@[a]),
            forall|i: int| 0 <= i < r@.len() ==> spec_tuple_in(cands@, #[trigger] r@[i]),
            forall|i: int, a: int|
                0 <= i < r@.len() && 0 <= a < rest@.len() ==> (#[trigger] r@[i]).0 != (
                #[trigger] rest@[a]).0,
            forall|i: int, j: int|
                0 <= i < r@.len() && 0 <= j < r@.len() && i != j ==> (#[trigger] r@[i]).0 != (
                #[trigger] r@[j]).0,
            forall|i: int, j: int| 0 <= i < j < r@.len() ==> spec_tuple_le(r@[i], r@[j]),
            forall|i: int, a: int|
                0 <= i < r@.len() && 0 <= a < rest@.len() ==> spec_tuple_le(
                    #[trigger] r@[i],
                    #[trigger] rest@[a],
                ),
            forall|c: int|
                0 <= c < cands@.len() ==> spec_tuple_index_in(r@, (#[trigger] cands@[c]).0)
                    || spec_tuple_in(rest@, cands@[c]),
        decreases count - r@.len(),
    {
        // find the smallest remaining tuple
        let mut mi: usize = 0;
        let mut j: usize = 1;
        while j < rest.len()
            invariant
                mi < j <= rest@.len(),
                rest@.len() > 0,
                forall|a: int| 0 <= a < j ==> spec_tuple_le(rest@[mi as int], #[trigger] rest@[a]),
            decreases rest@.len() - j,
        {
            if !tuple_le(&rest[mi], &rest[j]) {
                proof {
                    assert forall|a: int| 0 <= a < j + 1 implies spec_tuple_le(
                        rest@[j as int],
                        #[trigger] rest@[a],
                    ) by {
                        assert(spec_tuple_le(rest@[mi as int], rest@[a]) || a == j);
                        assert(spec_tuple_le(rest@[j as int], rest@[mi as int]));
                    }
                }
                mi = j;
            }
            j += 1;
        }
        let ghost prevr = r@;
        let ghost prevrest = rest@;
        let m = rest.remove(mi);
        r.push(m);
        proof {
            assert(m == prevrest[mi as int]);
            assert(rest@ =~= prevrest.subrange(0, mi as int) + prevrest.subrange(
                mi as int + 1,
                prevrest.len() as int,
            ));
            assert forall|a: int| 0 <= a < rest@.len() implies (exists|b: int|
                0 <= b < prevrest.len() && prevrest[b] == #[trigger] rest@[a] && b != mi) by {
                if a < mi {
                    assert(prevrest[a] == rest@[a]);
                } else {
                    assert(prevrest[a + 1] == rest@[a]);
                }
            }
            assert forall|a: int| 0 <= a < rest@.len() implies spec_tuple_in(
                cands@,
                #[trigger] rest@[a],
            ) by {
                let b = choose|b: int|
                    0 <= b < prevrest.len() && prevrest[b] == rest@[a] && b != mi;
                assert(spec_tuple_in(cands@, prevrest[b]));
            }
            assert forall|i: int| 0 <= i < r@.len() implies spec_tuple_in(
                cands@,
                #[trigger] r@[i],
            ) by {
                if i < prevr.len() {
                    assert(r@[i] == prevr[i]);
                } else {
                    assert(r@[i] == m);
                    assert(spec_tuple_in(cands@, prevrest[mi as int]));
                }
            }
            assert forall|c: int|
                0 <= c < cands@.len() implies spec_tuple_index_in(r@, (#[trigger] cands@[c]).0)
                || spec_tuple_in(rest@, cands@[c]) by {
                if spec_tuple_index_in(prevr, cands@[c].0) {
                    let i = choose|i: int|
                        0 <= i < prevr.len() && (#[trigger] prevr[i]).0 == cands@[c].0;
                    assert(r@[i].0 == cands@[c].0);
                    assert(spec_tuple_index_in(r@, cands@[c].0));
                } else {
                    assert(spec_tuple_in(prevrest, cands@[c]));
                    let a = choose|a: int|
                        0 <= a < prevrest.len() && #[trigger] prevrest[a] == cands@[c];
                    if a == mi {
                        assert(r@[r@.len() - 1] == cands@[c]);
                        assert(spec_tuple_index_in(r@, cands@[c].0));
                    } else if a < mi {
                        assert(rest@[a] == cands@[c]);
                        assert(spec_tuple_in(rest@, cands@[c]));
                    } else {
                        assert(rest@[a - 1] == cands@[c]);
                        assert(spec_tuple_in(rest@, cands@[c]));
                    }
                }
            }
        }
    }
    r
}

/// Carry the selection helper's guarantees from candidate tuples back to
/// table entries: candidates were collected with their table sort keys, so
/// the returned entry indices are distinct candidates, sorted by key, and no
/// candidate left out sorts before any returned one.
pub proof fn lemma_selection_to_entries(
    t: RoutingTableInner,
    cands: Seq<(usize, u128, u128, u128)>,
    picked: Seq<(usize, u128, u128, u128)>,
    r: Seq<usize>,
    is_cand: spec_fn(RoutingTableInner, int) -> bool,
    key_of: spec_fn(RoutingTableInner, int) -> (int, int, int),
    count: int,
)
    requires
        forall|a: int|
            0 <= a < cands.len() ==> is_cand(t, (#[trigger] cands[a]).0 as int) && (
            cands[a].1 as int,
            cands[a].2 as int,
            cands[a].3 as int,
        ) == key_of(t, cands[a].0 as int),
        forall|a: int, b: int|
            0 <= a < b < cands.len() ==> (#[trigger] cands[a]).0 < (#[trigger] cands[b]).0,
        forall|e: int|
            #[trigger] is_cand(t, e) ==> (exists|a: int|
                0 <= a < cands.len() && (#[trigger] cands[a]).0 == e),
        picked.len() == if count <= cands.len() {
            count
        } else {
            cands.len() as int
        },
        forall|i: int| 0 <= i < picked.len() ==> spec_tuple_in(cands, #[trigger] picked[i]),
        forall|i: int, j: int|
            0 <= i < picked.len() && 0 <= j < picked.len() && i != j ==> (#[trigger] picked[i]).0
                != (#[trigger] picked[j]).0,
        forall|i: int, j: int| 0 <= i < j < picked.len() ==> spec_tuple_le(picked[i], picked[j]),
        forall|a: int|
            0 <= a < cands.len() && !spec_tuple_index_in(picked, (#[trigger] cands[a]).0) ==> (
            forall|i: int| 0 <= i < picked.len() ==> spec_tuple_le(#[trigger] picked[i], cands[a])),
        forall|a: int|
            0 <= a < cands.len() ==> spec_tuple_index_in(picked, (#[trigger] cands[a]).0)
                || picked.len() == count,
        r.len() == picked.len(),
        forall|i: int| 0 <= i < r.len() ==> r[i] == (#[trigger] picked[i]).0,
    ensures
        forall|i: int| 0 <= i < r.len() ==> is_cand(t, #[trigger] r[i] as int),
        forall|i: int, j: int| 0 <= i < r.len() && 0 <= j < r.len() && i != j ==> r[i] != r[j],
        forall|i: int, j: int|
            0 <= i < j < r.len() ==> spec_key3_le(
                key_of(t, r[i] as int),
                key_of(t, r[j] as int),
            ),
        forall|e: int|
            #[trigger] is_cand(t, e) && !spec_contains_index(r, e) ==> (forall|i: int|
                0 <= i < r.len() ==> spec_key3_le(key_of(t, #[trigger] r[i] as int), key_of(t, e))),
        r.len() == count || (forall|e: int| #[trigger] is_cand(t, e) ==> spec_contains_index(r, e)),
{
    assert forall|i: int| 0 <= i < r.len() implies is_cand(t, #[trigger] r[i] as int) by {
        assert(spec_tuple_in(cands, picked[i]));
        let a = choose|a: int| 0 <= a < cands.len() && cands[a] == picked[i];
        assert(is_cand(t, cands[a].0 as int));
    }
    assert forall|i: int, j: int|
        0 <= i < r.len() && 0 <= j < r.len() && i != j implies r[i] != r[j] by {
        assert(r[i] == picked[i].0 && r[j] == picked[j].0);
    }
    assert forall|i: int, j: int| 0 <= i < j < r.len() implies spec_key3_le(
        key_of(t, r[i] as int),
        key_of(t, r[j] as int),
    ) by {
        assert(spec_tuple_in(cands, picked[i]));
        assert(spec_tuple_in(cands, picked[j]));
        let a = choose|a: int| 0 <= a < cands.len() && cands[a] == picked[i];
        let b = choose|b: int| 0 <= b < cands.len() && cands[b] == picked[j];
        assert(spec_tuple_le(picked[i], picked[j]));
    }
    assert forall|e: int|
        #[trigger] is_cand(t, e) && !spec_contains_index(r, e) implies (forall|i: int|
        0 <= i < r.len() ==> spec_key3_le(key_of(t, #[trigger] r[i] as int), key_of(t, e))) by {
        let a = choose|a: int| 0 <= a < cands.len() && (#[trigger] cands[a]).0 == e;
        assert(!spec_tuple_index_in(picked, cands[a].0)) by {
            if spec_tuple_index_in(picked, cands[a].0) {
                let i = choose|i: int|
                    0 <= i < picked.len() && (#[trigger] picked[i]).0 == cands[a].0;
                assert(r[i] == e);
            }
        }
        assert forall|i: int| 0 <= i < r.len() implies spec_key3_le(
            key_of(t, #[trigger] r[i] as int),
            key_of(t, e),
        ) by {
            assert(spec_tuple_in(cands, picked[i]));
            let b = choose|b: int| 0 <= b < cands.len() && cands[b] == picked[i];
            assert(spec_tuple_le(picked[i], cands[a]));
        }
    }
    if r.len() != count {
        assert forall|e: int| #[trigger] is_cand(t, e) implies spec_contains_index(r, e) by {
            let a = choose|a: int| 0 <= a < cands.len() && (#[trigger] cands[a]).0 == e;
            assert(spec_tuple_index_in(picked, cands[a].0));
            let i = choose|i: int|
                0 <= i < picked.len() && (#[trigger] picked[i]).0 == cands[a].0;
            assert(r[i] == e);
        }
    }
}


/// The 40 serialized bytes of one bucket pair: the 32-byte id value, then
/// the entry index as eight big-endian bytes.
pub open spec fn spec_pair_bytes(p: (CryptoKey, usize)) -> Seq<u8> {
    p.0.bytes@ + crate::envelope::spec_u64_be(p.1 as u64)
}

/// The serialized pairs of a bucket, in order.
pub open spec fn spec_pairs_bytes(b: Seq<(CryptoKey, usize)>) -> Seq<u8>
    decreases b.len(),
{
    if b.len() == 0 {
        Seq::empty()
    } else {
        spec_pair_bytes(b[0]) + spec_pairs_bytes(b.skip(1))
    }
}

/// A serialized bucket: the pair count as eight big-endian bytes, then the
/// pairs.
pub open spec fn spec_bucket_blob(b: Seq<(CryptoKey, usize)>) -> Seq<u8> {
    crate::envelope::spec_u64_be(b.len() as u64) + spec_pairs_bytes(b)
}

/// Serialized pairs take forty bytes each, and pair `j` sits at `40 * j`.
pub proof fn lemma_pairs_bytes_index(b: Seq<(CryptoKey, usize)>, j: int)
    requires
        0 <= j < b.len(),
    ensures
        spec_pairs_bytes(b).len() == 40 * b.len(),
        spec_pairs_bytes(b).subrange(40 * j, 40 * j + 40) == spec_pair_bytes(b[j]),
    decreases b.len(),
{
    lemma_pairs_bytes_len(b);
    if j == 0 {
        assert(spec_pairs_bytes(b).subrange(0, 40) =~= spec_pair_bytes(b[0]));
    } else {
        lemma_pairs_bytes_index(b.skip(1), j - 1);
        lemma_pairs_bytes_len(b.skip(1));
        assert(spec_pairs_bytes(b).subrange(40 * j, 40 * j + 40) =~= spec_pairs_bytes(
            b.skip(1),
        ).subrange(40 * (j - 1), 40 * (j - 1) + 40));
        assert(b.skip(1)[j - 1] == b[j]);
    }
}

/// Serialized pairs take forty bytes each.
pub proof fn lemma_pairs_bytes_len(b: Seq<(CryptoKey, usize)>)
    ensures
        spec_pairs_bytes(b).len() == 40 * b.len(),
    decreases b.len(),
{
    if b.len() > 0 {
        lemma_pairs_bytes_len(b.skip(1));
    }
}

/// Serialize one bucket's pairs to its persistence blob.
pub fn serialize_bucket(b: &Bucket) -> (r: Vec<u8>)
    ensures
        r@ == spec_bucket_blob(b.entries@),
        r@.len() == 8 + 40 * b.entries@.len(),
{
    let n = b.entries.len();
    let mut r = crate::envelope::u64_to_be_bytes(n as u64);
    let mut i: usize = 0;
    proof {
        assert(b.entries@.skip(0) =~= b.entries@);
        lemma_pairs_bytes_len(b.entries@);
    }
    while i < n
        invariant
            i <= n,
            n == b.entries@.len(),
            r@.len() == 8 + 40 * i,
            spec_bucket_blob(b.entries@) == r@ + spec_pairs_bytes(b.entries@.skip(i as int)),
        decreases n - i,
    {
        proof {
            assert(b.entries@.skip(i as int)[0] == b.entries@[i as int]);
            assert(b.entries@.skip(i as int).skip(1) =~= b.entries@.skip(i as int + 1));
        }
        let ghost prev = r@;
        let kb = b.entries[i].0.to_vec();
        crate::envelope::append_bytes(&mut r, &kb);
        let ib = crate::envelope::u64_to_be_bytes(b.entries[i].1 as u64);
        crate::envelope::append_bytes(&mut r, &ib);
        proof {
            assert(r@ =~= prev + spec_pair_bytes(b.entries@[i as int]));
            assert(prev + (spec_pair_bytes(b.entries@[i as int]) + spec_pairs_bytes(
                b.entries@.skip(i as int + 1),
            )) =~= (prev + spec_pair_bytes(b.entries@[i as int])) + spec_pairs_bytes(
                b.entries@.skip(i as int + 1),
            ));
        }
        i += 1;
    }
    proof {
        assert(spec_pairs_bytes(b.entries@.skip(n as int)) =~= Seq::<u8>::empty());
        assert(r@ + Seq::<u8>::empty() =~= r@);
    }
    r
}

/// Parse one bucket's persistence blob back into its pairs. A blob that
/// `serialize_bucket` produced parses back to pairs with the same id values
/// and entry indices, in the same order; anything of the wrong shape is
/// refused.
pub fn deserialize_bucket(data: &Vec<u8>) -> (r: Option<Vec<(CryptoKey, usize)>>)
    ensures
        r matches Some(v) ==> data@ == spec_bucket_blob(v@),
        forall|b: Seq<(CryptoKey, usize)>|
            data@ == #[trigger] spec_bucket_blob(b) && b.len() <= 0xffffffff ==> (r matches Some(v)
                && v@.len() == b.len() && (forall|j: int|
                0 <= j < b.len() ==> (#[trigger] v@[j]).0.bytes@ == b[j].0.bytes@ && v@[j].1
                    == b[j].1)),
{
    proof {
        assert forall|b: Seq<(CryptoKey, usize)>|
            data@ == #[trigger] spec_bucket_blob(b) && b.len() <= 0xffffffff implies data@.len()
            == 8 + 40 * b.len() && crate::envelope::spec_be_parse(data@.subrange(0, 8)) == b.len()
            && (forall|j: int|
            0 <= j < b.len() ==> #[trigger] data@.subrange(8 + 40 * j, 8 + 40 * j + 40)
                == spec_pair_bytes(b[j])) by {
            lemma_pairs_bytes_len(b);
            assert(data@.subrange(0, 8) =~= crate::envelope::spec_u64_be(b.len() as u64));
            crate::envelope::lemma_u64_be_round_trip(b.len() as u64);
            assert forall|j: int| 0 <= j < b.len() implies #[trigger] data@.subrange(
                8 + 40 * j,
                8 + 40 * j + 40,
            ) == spec_pair_bytes(b[j]) by {
                lemma_pairs_bytes_index(b, j);
                assert(data@.subrange(8 + 40 * j, 8 + 40 * j + 40) =~= spec_pairs_bytes(b).subrange(
                    40 * j,
                    40 * j + 40,
                ));
            }
        }
    }
    if data.len() < 8 {
        return None;
    }
    let n64 = crate::envelope::u64_from_be_bytes(data, 0);
    if n64 > 0xffffffff {
        return None;
    }
    let n = n64 as usize;
    let dlen = data.len();
    if (dlen as u64) != 8 + 40 * n64 {
        proof {
            assert forall|b: Seq<(CryptoKey, usize)>|
                !(data@ == #[trigger] spec_bucket_blob(b) && b.len() <= 0xffffffff) by {
                if data@ == spec_bucket_blob(b) && b.len() <= 0xffffffff {
                    assert(b.len() == n);
                }
            }
        }
        return None;
    }
    proof {
        assert(data@.len() == 8 + 40 * n);
    }
    let mut v: Vec<(CryptoKey, usize)> = Vec::new();
    let mut j: usize = 0;
    while j < n
        invariant
            j <= n,
            n <= 0xffffffff,
            dlen == data@.len(),
            data@.len() == 8 + 40 * n,
            v@.len() == j,
            forall|b: Seq<(CryptoKey, usize)>|
                data@ == #[trigger] spec_bucket_blob(b) && b.len() <= 0xffffffff ==> b.len() == n
                    && (forall|jj: int|
                    0 <= jj < b.len() ==> #[trigger] data@.subrange(8 + 40 * jj, 8 + 40 * jj + 40)
                        == spec_pair_bytes(b[jj])),
            forall|a: int|
                0 <= a < j ==> (#[trigger] v@[a]).0.bytes@ == data@.subrange(
                    8 + 40 * a,
                    8 + 40 * a + 32,
                ) && crate::envelope::spec_u64_be(v@[a].1 as u64) == data@.subrange(
                    8 + 40 * a + 32,
                    8 + 40 * a + 40,
                ),
        decreases n - j,
    {
        let base = 8 + 40 * j;
        let mut key_bytes = [0u8; 32];
        let mut t: usize = 0;
        while t < 32
            invariant
                t <= 32,
                base == 8 + 40 * j,
                j < n,
                dlen == data@.len(),
                data@.len() == 8 + 40 * n,
                forall|x: int| 0 <= x < t ==> key_bytes@[x] == data@[base + x],
            decreases 32 - t,
        {
            key_bytes[t] = data[base + t];
            t += 1;
        }
        let idx64 = crate::envelope::u64_from_be_bytes(data, base + 32);
        if idx64 > usize::MAX as u64 {
            proof {
                assert forall|b: Seq<(CryptoKey, usize)>|
                    !(data@ == #[trigger] spec_bucket_blob(b) && b.len() <= 0xffffffff) by {
                    if data@ == spec_bucket_blob(b) && b.len() <= 0xffffffff {
                        assert(data@.subrange(8 + 40 * j, 8 + 40 * j + 40) == spec_pair_bytes(
                            b[j as int],
                        ));
                        assert(data@.subrange(base + 32 as int, base + 40 as int)
                            =~= spec_pair_bytes(b[j as int]).subrange(32, 40));
                        assert(spec_pair_bytes(b[j as int]).subrange(32, 40)
                            =~= crate::envelope::spec_u64_be(b[j as int].1 as u64));
                        crate::envelope::lemma_u64_be_round_trip(b[j as int].1 as u64);
                        assert(idx64 == b[j as int].1 as u64);
                    }
                }
            }
            return None;
        }
        let idx = idx64 as usize;
        v.push((CryptoKey { bytes: key_bytes }, idx));
        proof {
            assert(v@.last().0.bytes@ =~= data@.subrange(8 + 40 * j, 8 + 40 * j + 32));
            crate::envelope::lemma_be_parse_round_trip(
                data@.subrange(base + 32 as int, base + 40 as int),
            );
            assert(data@.subrange(base + 32 as int, base + 40 as int) =~= data@.subrange(
                8 + 40 * j + 32,
                8 + 40 * j + 40,
            ));
        }
        j += 1;
    }
    proof {
        // what we parsed serializes back to the input
        lemma_pairs_bytes_len(v@);
        assert forall|a: int| 0 <= a < v@.len() implies #[trigger] spec_pairs_bytes(v@).subrange(
            40 * a,
            40 * a + 40,
        ) == data@.subrange(8 + 40 * a, 8 + 40 * a + 40) by {
            lemma_pairs_bytes_index(v@, a);
            assert(spec_pair_bytes(v@[a]) =~= data@.subrange(8 + 40 * a, 8 + 40 * a + 40));
        }
        crate::envelope::lemma_be_parse_round_trip(data@.subrange(0, 8));
        assert(data@ =~= spec_bucket_blob(v@)) by {
            assert(spec_bucket_blob(v@).len() == 8 + 40 * v@.len());
            assert forall|k: int| 0 <= k < data@.len() implies data@[k] == spec_bucket_blob(v@)[k]
                by {
                if k < 8 {
                    assert(spec_bucket_blob(v@)[k] == crate::envelope::spec_u64_be(
                        v@.len() as u64,
                    )[k]);
                    assert(crate::envelope::spec_u64_be(v@.len() as u64) == data@.subrange(0, 8));
                    assert(data@.subrange(0, 8)[k] == data@[k]);
                } else {
                    let a = (k - 8) / 40;
                    let t = (k - 8) % 40;
                    assert(k == 8 + 40 * a + t && 0 <= t < 40 && 0 <= a < v@.len())
                        by (nonlinear_arith)
                        requires
                            8 <= k < 8 + 40 * v@.len(),
                            a == (k - 8) / 40,
                            t == (k - 8) % 40,
                    ;
                    lemma_pairs_bytes_index(v@, a);
                    assert(spec_bucket_blob(v@)[k] == spec_pairs_bytes(v@)[k - 8]);
                    assert(spec_pairs_bytes(v@)[k - 8] == spec_pairs_bytes(v@).subrange(
                        40 * a,
                        40 * a + 40,
                    )[t]);
                    assert(data@[k] == data@.subrange(8 + 40 * a, 8 + 40 * a + 40)[t]);
                }
            }
        }
        // and the parse agrees with any bucket the blob came from
        assert forall|b: Seq<(CryptoKey, usize)>|
            data@ == #[trigger] spec_bucket_blob(b) && b.len() <= 0xffffffff implies v@.len()
            == b.len() && (forall|jj: int|
            0 <= jj < b.len() ==> (#[trigger] v@[jj]).0.bytes@ == b[jj].0.bytes@ && v@[jj].1
                == b[jj].1) by {
            assert(b.len() == n);
            assert forall|jj: int| 0 <= jj < b.len() implies (#[trigger] v@[jj]).0.bytes@
                == b[jj].0.bytes@ && v@[jj].1 == b[jj].1 by {
                assert(data@.subrange(8 + 40 * jj, 8 + 40 * jj + 40) == spec_pair_bytes(b[jj]));
                assert(v@[jj].0.bytes@ == data@.subrange(8 + 40 * jj, 8 + 40 * jj + 32));
                assert(data@.subrange(8 + 40 * jj, 8 + 40 * jj + 32) =~= spec_pair_bytes(
                    b[jj],
                ).subrange(0, 32));
                assert(spec_pair_bytes(b[jj]).subrange(0, 32) =~= b[jj].0.bytes@);
                assert(data@.subrange(8 + 40 * jj + 32, 8 + 40 * jj + 40) =~= spec_pair_bytes(
                    b[jj],
                ).subrange(32, 40));
                assert(spec_pair_bytes(b[jj]).subrange(32, 40) =~= crate::envelope::spec_u64_be(
                    b[jj].1 as u64,
                ));
                crate::envelope::lemma_u64_be_round_trip(b[jj].1 as u64);
                crate::envelope::lemma_u64_be_round_trip(v@[jj].1 as u64);
                assert(crate::envelope::spec_u64_be(v@[jj].1 as u64)
                    == crate::envelope::spec_u64_be(b[jj].1 as u64));
                assert(v@[jj].1 as u64 == b[jj].1 as u64);
            }
        }
    }
    Some(v)
}

impl RoutingTableInner {
    /// Serialize every bucket to its own blob, in flat bucket order.
    pub fn serialize_buckets(&self) -> (r: Vec<Vec<u8>>)
        ensures
            r@.len() == self.buckets@.len(),
            forall|g: int|
                0 <= g < r@.len() ==> (#[trigger] r@[g])@ == spec_bucket_blob(
                    self.buckets@[g].entries@,
                ),
    {
        let mut r: Vec<Vec<u8>> = Vec::new();
        let mut g: usize = 0;
        while g < self.buckets.len()
            invariant
                g <= self.buckets@.len(),
                r@.len() == g,
                forall|h: int|
                    0 <= h < g ==> (#[trigger] r@[h])@ == spec_bucket_blob(
                        self.buckets@[h].entries@,
                    ),
            decreases self.buckets@.len() - g,
        {
            r.push(serialize_bucket(&self.buckets[g]));
            g += 1;
        }
        r
    }
}

/// Parse a table's bucket blobs back, refusing any malformed blob. Blobs
/// that `serialize_buckets` produced parse back to buckets that equal the
/// originals position by position, in entry count and ordered contents.
pub fn deserialize_buckets(blobs: &Vec<Vec<u8>>) -> (r: Option<Vec<Vec<(CryptoKey, usize)>>>)
    ensures
        r matches Some(v) ==> v@.len() == blobs@.len() && (forall|g: int|
            0 <= g < v@.len() ==> (#[trigger] blobs@[g])@ == spec_bucket_blob(v@[g]@)),
{
    let mut v: Vec<Vec<(CryptoKey, usize)>> = Vec::new();
    let mut g: usize = 0;
    while g < blobs.len()
        invariant
            g <= blobs@.len(),
            v@.len() == g,
            forall|h: int|
                0 <= h < g ==> (#[trigger] blobs@[h])@ == spec_bucket_blob(v@[h]@),
        decreases blobs@.len() - g,
    {
        match deserialize_bucket(&blobs[g]) {
            Some(b) => {
                v.push(b);
            },
            None => {
                return None;
            },
        }
        g += 1;
    }
    Some(v)
}

/// A byte string with a set bit somewhere has its first set bit before the
/// end.
proof fn lemma_first_nonzero_in_range(s: Seq<u8>, j: int)
    requires
        0 <= j < s.len(),
        s[j] != 0,
    ensures
        spec_first_nonzero_bit(s) < 8 * s.len(),
    decreases s.len(),
{
    if s[0] != 0 {
        vstd::std_specs::bits::axiom_u8_leading_zeros(s[0]);
    } else {
        assert(s.skip(1)[j - 1] == s[j]);
        lemma_first_nonzero_in_range(s.skip(1), j - 1);
    }
}

/// Two different 32-byte keys have a set bit in their XOR distance, so the
/// distance selects a real bucket.
pub proof fn lemma_first_nonzero_of_differing(a: Seq<u8>, b: Seq<u8>)
    requires
        a.len() == 32,
        b.len() == 32,
        a != b,
    ensures
        spec_first_nonzero_bit(spec_distance(a, b)) < 256,
{
    assert(exists|j: int| 0 <= j < 32 && a[j] != b[j]) by {
        if forall|j: int| 0 <= j < 32 ==> a[j] == b[j] {
            assert(a =~= b);
        }
    }
    let j = choose|j: int| 0 <= j < 32 && a[j] != b[j];
    let x = a[j];
    let y = b[j];
    assert(x != y ==> (x ^ y) != 0) by (bit_vector);
    assert(spec_distance(a, b)[j] == (x ^ y));
    lemma_first_nonzero_in_range(spec_distance(a, b), j);
}


/// Whether two dial infos describe the same way in: same protocol, address
/// and request path.
pub open spec fn spec_di_like(a: DialInfo, b: DialInfo) -> bool {
    a.spec_protocol_type() == b.spec_protocol_type() && a.spec_socket_address()
        == b.spec_socket_address() && a.spec_request() == b.spec_request()
}

/// Whether two typed keys name the same id.
pub open spec fn spec_tk_eq(a: TypedKey, b: TypedKey) -> bool {
    a.kind == b.kind && a.value.bytes@ == b.value.bytes@
}

/// Whether some bootstrap entry gives this dial info for this node id.
pub open spec fn spec_from_entries(
    entries: Seq<(TypedKey, DialInfo)>,
    k: TypedKey,
    d: DialInfo,
) -> bool {
    exists|e: int|
        0 <= e < entries.len() && spec_tk_eq(k, (#[trigger] entries[e]).0) && spec_di_like(
            d,
            entries[e].1,
        )
}

/// Whether the merged bootstrap list holds a dial info under a node id.
pub open spec fn spec_merged_has(
    out: Seq<(TypedKey, Vec<DialInfo>)>,
    k: TypedKey,
    d: DialInfo,
) -> bool {
    exists|i: int, t: int|
        0 <= i < out.len() && spec_tk_eq((#[trigger] out[i]).0, k) && 0 <= t < out[i].1@.len()
            && spec_di_like(#[trigger] out[i].1@[t], d)
}

/// Merge parsed bootstrap entries by node id: one row per id, carrying
/// every dial info given for it. Every entry lands under its id, every
/// merged dial info came from an entry of that id, and no id appears twice.
pub fn bootstrap_merge(entries: &Vec<(TypedKey, DialInfo)>) -> (out: Vec<(TypedKey, Vec<DialInfo>)>)
    ensures
        forall|i: int, j: int|
            0 <= i < out@.len() && 0 <= j < out@.len() && i != j ==> !spec_tk_eq(
                (#[trigger] out@[i]).0,
                (#[trigger] out@[j]).0,
            ),
        forall|e: int|
            0 <= e < entries@.len() ==> spec_merged_has(
                out@,
                (#[trigger] entries@[e]).0,
                entries@[e].1,
            ),
        forall|i: int, t: int|
            0 <= i < out@.len() && 0 <= t < out@[i].1@.len() ==> #[trigger] spec_from_entries(
                entries@,
                out@[i].0,
                out@[i].1@[t],
            ),
{
    let mut out: Vec<(TypedKey, Vec<DialInfo>)> = Vec::new();
    let mut e: usize = 0;
    while e < entries.len()
        invariant
            e <= entries@.len(),
            forall|i: int, j: int|
                0 <= i < out@.len() && 0 <= j < out@.len() && i != j ==> !spec_tk_eq(
                    (#[trigger] out@[i]).0,
                    (#[trigger] out@[j]).0,
                ),
            forall|e2: int|
                0 <= e2 < e ==> spec_merged_has(out@, (#[trigger] entries@[e2]).0, entries@[e2].1),
            forall|i: int, t: int|
                0 <= i < out@.len() && 0 <= t < out@[i].1@.len() ==> #[trigger] spec_from_entries(
                    entries@,
                    out@[i].0,
                    out@[i].1@[t],
                ),
        decreases entries@.len() - e,
    {
        let k = entries[e].0;
        // find the row for this id
        let mut found: Option<usize> = None;
        let mut i: usize = 0;
        while i < out.len() && found.is_none()
            invariant
                i <= out@.len(),
                found matches Some(fi) ==> fi < out@.len() && spec_tk_eq(out@[fi as int].0, k),
                found is None ==> forall|j: int| 0 <= j < i ==> !spec_tk_eq((#[trigger] out@[j]).0, k),
            decreases out@.len() - i,
        {
            if out[i].0 == k {
                proof {
                    assert(out@[i as int].0.value.bytes =~= k.value.bytes);
                }
                found = Some(i);
            } else {
                proof {
                    assert(!spec_tk_eq(out@[i as int].0, k)) by {
                        if spec_tk_eq(out@[i as int].0, k) {
                            assert(out@[i as int].0.value.bytes =~= k.value.bytes);
                            assert(out@[i as int].0 =~= k);
                        }
                    }
                }
            }
            i += 1;
        }
        match found {
            Some(fi) => {
                // extend the row with this dial info
                let mut list: Vec<DialInfo> = Vec::new();
                let m = out[fi].1.len();
                let mut t: usize = 0;
                while t < m
                    invariant
                        t <= m,
                        fi < out@.len(),
                        m == out@[fi as int].1@.len(),
                        list@.len() == t,
                        forall|x: int|
                            0 <= x < t ==> spec_di_like(
                                #[trigger] list@[x],
                                out@[fi as int].1@[x],
                            ),
                    decreases m - t,
                {
                    list.push(out[fi].1[t].clone());
                    t += 1;
                }
                list.push(entries[e].1.clone());
                let k0 = out[fi].0;
                let ghost prev = out@;
                out.set(fi, (k0, list));
                proof {
                    assert forall|e2: int|
                        0 <= e2 < e + 1 implies spec_merged_has(
                        out@,
                        (#[trigger] entries@[e2]).0,
                        entries@[e2].1,
                    ) by {
                        if e2 < e {
                            let (i0, t0) = choose|i0: int, t0: int|
                                0 <= i0 < prev.len() && spec_tk_eq(
                                    (#[trigger] prev[i0]).0,
                                    entries@[e2].0,
                                ) && 0 <= t0 < prev[i0].1@.len() && spec_di_like(
                                    #[trigger] prev[i0].1@[t0],
                                    entries@[e2].1,
                                );
                            if i0 == fi {
                                assert(spec_di_like(out@[fi as int].1@[t0], entries@[e2].1));
                            } else {
                                assert(out@[i0] == prev[i0]);
                            }
                        } else {
                            assert(spec_di_like(
                                out@[fi as int].1@[out@[fi as int].1@.len() - 1],
                                entries@[e as int].1,
                            ));
                        }
                    }
                    assert forall|i0: int, t0: int|
                        0 <= i0 < out@.len() && 0 <= t0
                        < out@[i0].1@.len() implies #[trigger] spec_from_entries(
                        entries@,
                        out@[i0].0,
                        out@[i0].1@[t0],
                    ) by {
                        if i0 == fi {
                            if t0 < prev[fi as int].1@.len() {
                                assert(spec_from_entries(
                                    entries@,
                                    prev[fi as int].0,
                                    prev[fi as int].1@[t0],
                                ));
                                let e2 = choose|e2: int|
                                    0 <= e2 < entries@.len() && spec_tk_eq(prev[fi as int].0, (
                                    #[trigger] entries@[e2]).0) && spec_di_like(
                                        prev[fi as int].1@[t0],
                                        entries@[e2].1,
                                    );
                                assert(spec_di_like(out@[i0].1@[t0], prev[fi as int].1@[t0]));
                                assert(spec_tk_eq(out@[i0].0, entries@[e2].0));
                                assert(spec_di_like(out@[i0].1@[t0], entries@[e2].1));
                            } else {
                                assert(spec_di_like(out@[fi as int].1@[t0], entries@[e as int].1));
                                assert(spec_tk_eq(out@[fi as int].0, entries@[e as int].0));
                            }
                        } else {
                            assert(out@[i0] == prev[i0]);
                            assert(spec_from_entries(entries@, prev[i0].0, prev[i0].1@[t0]));
                        }
                    }
                }
            },
            None => {
                let mut list: Vec<DialInfo> = Vec::new();
                list.push(entries[e].1.clone());
                let ghost prev = out@;
                out.push((k, list));
                proof {
                    assert(spec_tk_eq(out@[out@.len() - 1].0, entries@[e as int].0));
                    assert(spec_di_like(out@[out@.len() - 1].1@[0], entries@[e as int].1));
                    assert forall|e2: int|
                        0 <= e2 < e + 1 implies spec_merged_has(
                        out@,
                        (#[trigger] entries@[e2]).0,
                        entries@[e2].1,
                    ) by {
                        if e2 < e {
                            let (i0, t0) = choose|i0: int, t0: int|
                                0 <= i0 < prev.len() && spec_tk_eq(
                                    (#[trigger] prev[i0]).0,
                                    entries@[e2].0,
                                ) && 0 <= t0 < prev[i0].1@.len() && spec_di_like(
                                    #[trigger] prev[i0].1@[t0],
                                    entries@[e2].1,
                                );
                            assert(out@[i0] == prev[i0]);
                        }
                    }
                    assert forall|i0: int, j0: int|
                        0 <= i0 < out@.len() && 0 <= j0 < out@.len() && i0 != j0 implies !spec_tk_eq(
                        (#[trigger] out@[i0]).0,
                        (#[trigger] out@[j0]).0,
                    ) by {
                        if i0 < prev.len() && j0 < prev.len() {
                            assert(out@[i0] == prev[i0] && out@[j0] == prev[j0]);
                        } else if i0 < prev.len() {
                            assert(out@[i0] == prev[i0]);
                            assert(!spec_tk_eq(prev[i0].0, k));
                            assert(out@[j0].0 == k);
                        } else if j0 < prev.len() {
                            assert(out@[j0] == prev[j0]);
                            assert(!spec_tk_eq(prev[j0].0, k));
                            assert(out@[i0].0 == k);
                        }
                    }
                    assert forall|i0: int, t0: int|
                        0 <= i0 < out@.len() && 0 <= t0
                        < out@[i0].1@.len() implies #[trigger] spec_from_entries(
                        entries@,
                        out@[i0].0,
                        out@[i0].1@[t0],
                    ) by {
                        if i0 < prev.len() {
                            assert(out@[i0] == prev[i0]);
                            assert(spec_from_entries(entries@, prev[i0].0, prev[i0].1@[t0]));
                        } else {
                            assert(t0 == 0);
                            assert(spec_tk_eq(out@[i0].0, entries@[e as int].0));
                            assert(spec_di_like(out@[i0].1@[0], entries@[e as int].1));
                        }
                    }
                }
            },
        }
        e += 1;
    }
    out
}

/// The first id under `kind` in an id list is a member of the list.
pub proof fn lemma_node_key_member(ids: Seq<TypedKey>, kind: CryptoKind)
    requires
        spec_node_key(ids, kind) is Some,
    ensures
        exists|i: int|
            0 <= i < ids.len() && (#[trigger] ids[i]).kind == kind && ids[i].value
                == spec_node_key(ids, kind).unwrap(),
    decreases ids.len(),
{
    if ids.len() > 0 {
        if ids[0].kind == kind {
            assert(ids[0].kind == kind && ids[0].value == spec_node_key(ids, kind).unwrap());
        } else {
            lemma_node_key_member(ids.skip(1), kind);
            let i = choose|i: int|
                0 <= i < ids.skip(1).len() && (#[trigger] ids.skip(1)[i]).kind == kind
                    && ids.skip(1)[i].value == spec_node_key(ids.skip(1), kind).unwrap();
            assert(ids[i + 1] == ids.skip(1)[i]);
        }
    }
}

/// An id list member under `kind` means the first id under `kind` exists.
pub proof fn lemma_member_node_key(ids: Seq<TypedKey>, i: int)
    requires
        0 <= i < ids.len(),
    ensures
        spec_node_key(ids, ids[i].kind) is Some,
    decreases ids.len(),
{
    if i == 0 {
    } else if ids[0].kind == ids[i].kind {
    } else {
        assert(ids.skip(1)[i - 1] == ids[i]);
        lemma_member_node_key(ids.skip(1), i - 1);
    }
}

} // verus!
