//! Private-route allocation and bookkeeping. A route is a sequence of hop
//! nodes under a fresh keypair; the store remembers every allocated hop
//! sequence in a hop cache so that no sequence is ever allocated twice, and
//! each route's public key is handed out exactly once.

use vstd::prelude::*;
use crate::crypto_types::{CryptoKey, KeyPair, SecretKey};

verus! {

/// Which directions a route is built to work in.
#[derive(Clone, Copy, Debug, PartialEq, Eq, Structural)]
pub struct DirectionSet {
    pub outbound: bool,
    pub inbound: bool,
}

/// Everything the store keeps about one allocated route.
#[derive(Debug)]
pub struct RouteSpecDetail {
    /// The route's secret key; never persisted.
    pub secret_key: SecretKey,
    /// The node id value of each hop, first hop first.
    pub hops: Vec<CryptoKey>,
    /// Whether the route has been published; a published route is not
    /// reused for ephemeral purposes.
    pub published: bool,
    /// When the route was allocated.
    pub created_ts: u64,
    /// When the route was last checked for liveness.
    pub last_checked_ts: Option<u64>,
    /// The directions the route was validated for.
    pub directions: DirectionSet,
}

/// The concatenated hop id bytes that name a hop sequence in the cache.
pub open spec fn spec_cache_key(hops: Seq<CryptoKey>) -> Seq<u8>
    decreases hops.len(),
{
    if hops.len() == 0 {
        Seq::empty()
    } else {
        hops[0].bytes@ + spec_cache_key(hops.skip(1))
    }
}

/// Whether the hop cache holds a cache key.
pub open spec fn spec_cache_has(cache: Seq<Vec<u8>>, key: Seq<u8>) -> bool {
    exists|i: int| 0 <= i < cache.len() && (#[trigger] cache[i])@ == key
}

/// First-match route lookup by public key.
pub open spec fn spec_route_get(s: Seq<(CryptoKey, RouteSpecDetail)>, k: CryptoKey) -> Option<int>
    decreases s.len(),
{
    if s.len() == 0 {
        None
    } else if s[0].0 == k {
        Some(0int)
    } else {
        match spec_route_get(s.skip(1), k) {
            Some(i) => Some(i + 1),
            None => None,
        }
    }
}

/// The hop sequence of taking a window of candidates in preference order.
pub open spec fn spec_window_hops(nodes: Seq<CryptoKey>, s: int, hc: int) -> Seq<CryptoKey> {
    nodes.subrange(s, s + hc)
}

/// Whether a candidate window can carry traffic in the requested
/// directions: each hop can contact the next (outbound), and each hop can
/// be contacted by the next (inbound).
pub open spec fn spec_window_viable(
    can_contact: Seq<Vec<bool>>,
    directions: DirectionSet,
    s: int,
    hc: int,
) -> bool {
    &&& (directions.outbound ==> (forall|x: int|
        0 <= x < hc - 1 ==> (#[trigger] can_contact[s + x])@[s + x + 1]))
    &&& (directions.inbound ==> (forall|x: int|
        0 <= x < hc - 1 ==> (#[trigger] can_contact[s + x + 1])@[s + x]))
}

/// The store of allocated routes: details by route public key, and the hop
/// cache of every hop sequence allocated and not yet released. Candidate
/// preference (fewest prior uses first) is the order of the node list a
/// caller hands to allocation.
pub struct RouteSpecStore {
    pub details: Vec<(CryptoKey, RouteSpecDetail)>,
    pub hop_cache: Vec<Vec<u8>>,
}

/// Compare two byte vectors.
pub fn bytes_eq(a: &Vec<u8>, b: &Vec<u8>) -> (r: bool)
    ensures
        r == (a@ == b@),
{
    if a.len() != b.len() {
        proof {
            assert(a@ != b@);
        }
        return false;
    }
    let mut i: usize = 0;
    while i < a.len()
        invariant
            i <= a@.len(),
            a@.len() == b@.len(),
            forall|j: int| 0 <= j < i ==> a@[j] == b@[j],
        decreases a@.len() - i,
    {
        if a[i] != b[i] {
            proof {
                assert(a@ != b@) by {
                    if a@ == b@ {
                        assert(a@[i as int] == b@[i as int]);
                    }
                }
            }
            return false;
        }
        i += 1;
    }
    proof {
        assert(a@ =~= b@);
    }
    true
}

impl RouteSpecStore {
    pub fn new() -> (r: RouteSpecStore)
        ensures
            r.details@.len() == 0,
            r.hop_cache@.len() == 0,
    {
        RouteSpecStore { details: Vec::new(), hop_cache: Vec::new() }
    }

    /// Find a route's position by its public key.
    fn find_route(&self, key: &CryptoKey) -> (r: Option<usize>)
        ensures
            r matches Some(i) ==> spec_route_get(self.details@, *key) == Some(i as int) && i
                < self.details@.len() && self.details@[i as int].0 == *key,
            r is None ==> spec_route_get(self.details@, *key) is None,
    {
        let mut i: usize = 0;
        proof {
            assert(self.details@.skip(0) =~= self.details@);
        }
        while i < self.details.len()
            invariant
                i <= self.details@.len(),
                forall|j: int| 0 <= j < i ==> (#[trigger] self.details@[j]).0.bytes@ != key.bytes@,
                spec_route_get(self.details@, *key) == match spec_route_get(
                    self.details@.skip(i as int),
                    *key,
                ) {
                    Some(x) => Some(x + i),
                    None => None::<int>,
                },
            decreases self.details@.len() - i,
        {
            proof {
                assert(self.details@.skip(i as int)[0] == self.details@[i as int]);
                assert(self.details@.skip(i as int).skip(1) =~= self.details@.skip(i as int + 1));
            }
            if self.details[i].0 == *key {
                proof {
                    assert(self.details@[i as int].0.bytes =~= key.bytes);
                }
                return Some(i);
            }
            proof {
                assert(self.details@[i as int].0.bytes@ != key.bytes@) by {
                    if self.details@[i as int].0.bytes@ == key.bytes@ {
                    }
                }
                assert(self.details@[i as int].0 != *key) by {
                    if self.details@[i as int].0 == *key {
                        assert(self.details@[i as int].0.bytes@ == key.bytes@);
                    }
                }
            }
            i += 1;
        }
        None
    }

    /// Whether a hop-sequence cache key is already interned.
    fn cache_contains(&self, key: &Vec<u8>) -> (r: bool)
        ensures
            r == spec_cache_has(self.hop_cache@, key@),
    {
        let mut i: usize = 0;
        while i < self.hop_cache.len()
            invariant
                i <= self.hop_cache@.len(),
                forall|j: int| 0 <= j < i ==> (#[trigger] self.hop_cache@[j])@ != key@,
            decreases self.hop_cache@.len() - i,
        {
            if bytes_eq(&self.hop_cache[i], key) {
                return true;
            }
            i += 1;
        }
        false
    }

    /// The cache key of a hop sequence: its node ids' bytes, concatenated.
    fn make_cache_key(hops: &Vec<CryptoKey>) -> (r: Vec<u8>)
        ensures
            r@ == spec_cache_key(hops@),
    {
        let mut r: Vec<u8> = Vec::new();
        let mut i: usize = 0;
        proof {
            assert(hops@.skip(0) =~= hops@);
        }
        while i < hops.len()
            invariant
                i <= hops@.len(),
                spec_cache_key(hops@) == r@ + spec_cache_key(hops@.skip(i as int)),
            decreases hops@.len() - i,
        {
            proof {
                assert(hops@.skip(i as int)[0] == hops@[i as int]);
                assert(hops@.skip(i as int).skip(1) =~= hops@.skip(i as int + 1));
            }
            let ghost prev = r@;
            let hb = hops[i].to_vec();
            crate::envelope::append_bytes(&mut r, &hb);
            proof {
                assert(prev + (hops@[i as int].bytes@ + spec_cache_key(hops@.skip(i as int + 1)))
                    =~= (prev + hops@[i as int].bytes@) + spec_cache_key(hops@.skip(i as int + 1)));
            }
            i += 1;
        }
        proof {
            assert(spec_cache_key(hops@.skip(hops@.len() as int)) =~= Seq::<u8>::empty());
            assert(r@ + Seq::<u8>::empty() =~= r@);
        }
        r
    }

    /// Allocate a new private route of exactly `hop_count` hops out of the
    /// candidate nodes, preferring earlier candidates, under the fresh
    /// keypair the caller drew. `can_contact[i][j]` says whether candidate
    /// `i` can reach candidate `j`. The chosen hop sequence has no repeated
    /// node, was never in the hop cache before the call and is in it
    /// afterwards, and the route key was never in the store before, so a
    /// key is handed out at most once. Allocation is promised to succeed
    /// whenever the hop count is in range, the key is fresh, and some
    /// preference-ordered candidate window is uncached and viable; beyond
    /// those windows the search also tries every permutation of each
    /// window.
    pub fn allocate_route(
        &mut self,
        nodes: &Vec<CryptoKey>,
        can_contact: &Vec<Vec<bool>>,
        hop_count: usize,
        max_route_hop_count: usize,
        directions: DirectionSet,
        keypair: &KeyPair,
        cur_ts: u64,
    ) -> (r: Option<CryptoKey>)
        requires
            // the permutation search is factorial in the hop count, so cap it
            max_route_hop_count <= 8,
            can_contact@.len() == nodes@.len(),
            forall|i: int|
                0 <= i < can_contact@.len() ==> (#[trigger] can_contact@[i])@.len() == nodes@.len(),
            forall|a: int, b: int|
                0 <= a < nodes@.len() && 0 <= b < nodes@.len() && a != b ==> (
                #[trigger] nodes@[a]).bytes@ != (#[trigger] nodes@[b]).bytes@,
        ensures
            hop_count < 2 ==> r is None,
            hop_count > max_route_hop_count ==> r is None,
            nodes@.len() < hop_count ==> r is None,
            r is None ==> *final(self) == *old(self),
            r matches Some(k) ==> ({
                &&& k == keypair.key
                &&& spec_route_get(old(self).details@, k) is None
                &&& spec_route_get(final(self).details@, k) is Some
                &&& ({
                    let i = spec_route_get(final(self).details@, k).unwrap();
                    let d = final(self).details@[i].1;
                    &&& final(self).details@[i].0 == k
                    &&& d.secret_key == keypair.secret
                    &&& d.hops@.len() == hop_count
                    &&& !d.published
                    &&& d.created_ts == cur_ts
                    &&& d.last_checked_ts is None
                    &&& d.directions == directions
                    &&& !spec_cache_has(old(self).hop_cache@, spec_cache_key(d.hops@))
                    &&& spec_cache_has(final(self).hop_cache@, spec_cache_key(d.hops@))
                    &&& (forall|h: int|
                        0 <= h < d.hops@.len() ==> (exists|n: int|
                            0 <= n < nodes@.len() && nodes@[n] == #[trigger] d.hops@[h]))
                    &&& (forall|h1: int, h2: int|
                        0 <= h1 < d.hops@.len() && 0 <= h2 < d.hops@.len() && h1 != h2 ==> (
                        #[trigger] d.hops@[h1]).bytes@ != (#[trigger] d.hops@[h2]).bytes@)
                })
            }),
            ({
                &&& 2 <= hop_count
                &&& hop_count <= max_route_hop_count
                &&& hop_count <= nodes@.len()
                &&& spec_route_get(old(self).details@, keypair.key) is None
                &&& (exists|s: int|
                    0 <= s <= nodes@.len() - hop_count && !spec_cache_has(
                        old(self).hop_cache@,
                        spec_cache_key(#[trigger] spec_window_hops(nodes@, s, hop_count as int)),
                    ) && spec_window_viable(can_contact@, directions, s, hop_count as int))
            }) ==> r is Some,
    {
        if hop_count < 2 {
            return None;
        }
        if hop_count > max_route_hop_count {
            return None;
        }
        if nodes.len() < hop_count {
            return None;
        }
        if self.find_route(&keypair.key).is_some() {
            return None;
        }
        // walk every window of candidates, most preferred first, and inside
        // each window every permutation in mixed-radix order, the in-order
        // window itself first
        let mut perms: usize = 1;
        let mut pi: usize = 0;
        while pi < hop_count
            invariant
                pi <= hop_count,
                hop_count <= 8,
                1 <= perms <= 40320,
            decreases hop_count - pi,
        {
            // bounded by 8! since hop_count <= 8
            let next: usize = if perms <= 5040 {
                proof {
                    assert(1 <= perms * (pi + 1) <= 5040 * 8) by (nonlinear_arith)
                        requires
                            1 <= perms <= 5040,
                            0 <= pi < 8,
                    ;
                }
                perms * (pi + 1)
            } else {
                40320
            };
            perms = if next > 40320 {
                40320
            } else {
                next
            };
            pi += 1;
        }
        let nlen = nodes.len();
        let mut start: usize = 0;
        while start <= nlen - hop_count
            invariant
                hop_count >= 2,
                hop_count <= 8,
                hop_count <= max_route_hop_count,
                nlen == nodes@.len(),
                nodes@.len() >= hop_count,
                start <= nlen,
                can_contact@.len() == nodes@.len(),
                forall|i: int|
                    0 <= i < can_contact@.len() ==> (#[trigger] can_contact@[i])@.len()
                        == nodes@.len(),
                forall|a: int, b: int|
                    0 <= a < nodes@.len() && 0 <= b < nodes@.len() && a != b ==> (
                    #[trigger] nodes@[a]).bytes@ != (#[trigger] nodes@[b]).bytes@,
                *self == *old(self),
                perms >= 1,
                spec_route_get(old(self).details@, keypair.key) is None,
                forall|s: int|
                    0 <= s < start ==> spec_cache_has(
                        old(self).hop_cache@,
                        spec_cache_key(#[trigger] spec_window_hops(nodes@, s, hop_count as int)),
                    ) || !spec_window_viable(can_contact@, directions, s, hop_count as int),
            decreases nodes@.len() - start,
        {
            let mut p: usize = 0;
            while p < perms
                invariant
                    hop_count >= 2,
                    hop_count <= 8,
                    hop_count <= max_route_hop_count,
                    nlen == nodes@.len(),
                    start + hop_count <= nodes@.len(),
                    can_contact@.len() == nodes@.len(),
                    forall|i: int|
                        0 <= i < can_contact@.len() ==> (#[trigger] can_contact@[i])@.len()
                            == nodes@.len(),
                    forall|a: int, b: int|
                        0 <= a < nodes@.len() && 0 <= b < nodes@.len() && a != b ==> (
                        #[trigger] nodes@[a]).bytes@ != (#[trigger] nodes@[b]).bytes@,
                    *self == *old(self),
                    spec_route_get(old(self).details@, keypair.key) is None,
                    p >= 1 ==> spec_cache_has(
                        old(self).hop_cache@,
                        spec_cache_key(spec_window_hops(nodes@, start as int, hop_count as int)),
                    ) || !spec_window_viable(
                        can_contact@,
                        directions,
                        start as int,
                        hop_count as int,
                    ),
                decreases perms - p,
            {
                // decode permutation number `p` over the window as indices;
                // permutation zero is the window in order
                let mut avail: Vec<usize> = Vec::new();
                let mut a: usize = 0;
                while a < hop_count
                    invariant
                        a <= hop_count,
                        hop_count <= 8,
                        nlen == nodes@.len(),
                        start + hop_count <= nodes@.len(),
                        avail@.len() == a,
                        forall|x: int| 0 <= x < a ==> avail@[x] == start + x,
                    decreases hop_count - a,
                {
                    avail.push(start + a);
                    a += 1;
                }
                let mut perm: Vec<usize> = Vec::new();
                let mut rem: usize = p;
                while avail.len() > 0
                    invariant
                        hop_count <= 8,
                        start + hop_count <= nodes@.len(),
                        avail@.len() + perm@.len() == hop_count,
                        forall|x: int| 0 <= x < avail@.len() ==> (#[trigger] avail@[x]) < nodes@.len(),
                        forall|x: int| 0 <= x < perm@.len() ==> (#[trigger] perm@[x]) < nodes@.len(),
                        forall|x: int, y: int|
                            0 <= x < perm@.len() && 0 <= y < perm@.len() && x != y ==> (
                            #[trigger] perm@[x]) != (#[trigger] perm@[y]),
                        forall|x: int, y: int|
                            0 <= x < perm@.len() && 0 <= y < avail@.len() ==> (#[trigger] perm@[x])
                                != (#[trigger] avail@[y]),
                        forall|x: int, y: int|
                            0 <= x < avail@.len() && 0 <= y < avail@.len() && x != y ==> (
                            #[trigger] avail@[x]) != (#[trigger] avail@[y]),
                        p == 0 ==> rem == 0 && (forall|x: int|
                            0 <= x < perm@.len() ==> #[trigger] perm@[x] == start + x) && (forall|
                            y: int,
                        |
                            0 <= y < avail@.len() ==> #[trigger] avail@[y] == start + perm@.len()
                                + y),
                    decreases avail@.len(),
                {
                    let pick = if rem == 0 {
                        0
                    } else {
                        rem % avail.len()
                    };
                    rem = rem / avail.len();
                    let ghost prevavail = avail@;
                    let ghost prevperm = perm@;
                    let idx = avail.remove(pick);
                    proof {
                        assert(avail@ =~= prevavail.subrange(0, pick as int) + prevavail.subrange(
                            pick as int + 1,
                            prevavail.len() as int,
                        ));
                        assert forall|y: int| 0 <= y < avail@.len() implies (exists|z: int|
                            0 <= z < prevavail.len() && prevavail[z] == #[trigger] avail@[y] && z
                                != pick) by {
                            if y < pick {
                                assert(prevavail[y] == avail@[y]);
                            } else {
                                assert(prevavail[y + 1] == avail@[y]);
                            }
                        }
                        if p == 0 {
                            assert(pick == 0);
                            assert(idx == prevavail[0]);
                            assert forall|y: int| 0 <= y < avail@.len() implies #[trigger] avail@[y]
                                == start + (prevperm.len() + 1) + y by {
                                assert(avail@[y] == prevavail[y + 1]);
                            }
                        }
                    }
                    perm.push(idx);
                }
                // build the hop list
                let mut hops: Vec<CryptoKey> = Vec::new();
                let mut h: usize = 0;
                while h < perm.len()
                    invariant
                        h <= perm@.len(),
                        perm@.len() <= 8,
                        hops@.len() == h,
                        forall|x: int| 0 <= x < perm@.len() ==> (#[trigger] perm@[x]) < nodes@.len(),
                        forall|x: int| 0 <= x < h ==> hops@[x] == nodes@[perm@[x] as int],
                    decreases perm@.len() - h,
                {
                    hops.push(nodes[perm[h]]);
                    proof {
                        assert forall|x: int| 0 <= x < h + 1 implies hops@[x] == nodes@[perm@[x] as int]
                            by {}
                    }
                    h += 1;
                }
                proof {
                    if p == 0 {
                        assert(hops@ =~= spec_window_hops(nodes@, start as int, hop_count as int));
                    }
                }
                let cache_key = Self::make_cache_key(&hops);
                let cached = self.cache_contains(&cache_key);
                let mut viable = !cached;
                if viable && directions.outbound {
                    let mut x: usize = 0;
                    while x + 1 < perm.len() && viable
                        invariant
                            x <= perm@.len(),
                            perm@.len() <= 8,
                            can_contact@.len() == nodes@.len(),
                            forall|y: int|
                                0 <= y < perm@.len() ==> (#[trigger] perm@[y]) < nodes@.len(),
                            forall|i: int|
                                0 <= i < can_contact@.len() ==> (#[trigger] can_contact@[i])@.len()
                                    == nodes@.len(),
                            viable ==> forall|y: int|
                                0 <= y < x ==> (#[trigger] can_contact@[perm@[y] as int])@[perm@[y
                                    + 1] as int],
                            !viable ==> (exists|y: int|
                                0 <= y < perm@.len() - 1 && !(#[trigger] can_contact@[perm@[
                                y] as int])@[perm@[y + 1] as int]),
                        decreases perm@.len() - x,
                    {
                        if !can_contact[perm[x]][perm[x + 1]] {
                            viable = false;
                        }
                        x += 1;
                    }
                }
                if viable && directions.inbound {
                    let mut x: usize = 0;
                    while x + 1 < perm.len() && viable
                        invariant
                            x <= perm@.len(),
                            perm@.len() <= 8,
                            can_contact@.len() == nodes@.len(),
                            forall|y: int|
                                0 <= y < perm@.len() ==> (#[trigger] perm@[y]) < nodes@.len(),
                            forall|i: int|
                                0 <= i < can_contact@.len() ==> (#[trigger] can_contact@[i])@.len()
                                    == nodes@.len(),
                            viable ==> forall|y: int|
                                0 <= y < x ==> (#[trigger] can_contact@[perm@[y + 1] as int])@[
                                perm@[y] as int],
                            !viable ==> (exists|y: int|
                                0 <= y < perm@.len() - 1 && !(#[trigger] can_contact@[perm@[y
                                    + 1] as int])@[perm@[y] as int]),
                        decreases perm@.len() - x,
                    {
                        if !can_contact[perm[x + 1]][perm[x]] {
                            viable = false;
                        }
                        x += 1;
                    }
                }
                if viable {
                    let ghost oldcache = self.hop_cache@;
                    let ghost oldroutes = self.details@;
                    let ghost hopsview = hops@;
                    let ghost permview = perm@;
                    let detail = RouteSpecDetail {
                        secret_key: keypair.secret,
                        hops,
                        published: false,
                        created_ts: cur_ts,
                        last_checked_ts: None,
                        directions,
                    };
                    self.hop_cache.push(cache_key);
                    self.details.push((keypair.key, detail));
                    proof {
                        lemma_route_get_push(oldroutes, keypair.key, self.details@.last().1);
                        assert(self.details@[self.details@.len() - 1].1.hops@ == hopsview);
                        assert(spec_cache_has(self.hop_cache@, spec_cache_key(hopsview))) by {
                            assert((self.hop_cache@[self.hop_cache@.len() - 1])@ == spec_cache_key(
                                hopsview,
                            ));
                        }
                        assert forall|h1: int, h2: int|
                            0 <= h1 < hopsview.len() && 0 <= h2 < hopsview.len() && h1
                                != h2 implies (#[trigger] hopsview[h1]).bytes@ != (
                        #[trigger] hopsview[h2]).bytes@ by {
                            assert(hopsview[h1] == nodes@[permview[h1] as int]);
                            assert(hopsview[h2] == nodes@[permview[h2] as int]);
                            assert(permview[h1] != permview[h2]);
                        }
                    }
                    return Some(keypair.key);
                }
                proof {
                    if p == 0 {
                        // the in-order window was cached or unviable
                        if cached {
                        } else {
                            assert(!spec_window_viable(
                                can_contact@,
                                directions,
                                start as int,
                                hop_count as int,
                            )) by {
                                if directions.outbound && (exists|y: int|
                                    0 <= y < perm@.len() - 1 && !(#[trigger] can_contact@[perm@[
                                    y] as int])@[perm@[y + 1] as int]) {
                                    let y = choose|y: int|
                                        0 <= y < perm@.len() - 1 && !(#[trigger] can_contact@[
                                        perm@[y] as int])@[perm@[y + 1] as int];
                                    assert(perm@[y] == start + y && perm@[y + 1] == start + y + 1);
                                    assert(!(can_contact@[start as int + y])@[start + y + 1]);
                                } else {
                                    let y = choose|y: int|
                                        0 <= y < perm@.len() - 1 && !(#[trigger] can_contact@[
                                        perm@[y + 1] as int])@[perm@[y] as int];
                                    assert(perm@[y] == start + y && perm@[y + 1] == start + y + 1);
                                    assert(!(can_contact@[start as int + y + 1])@[start + y]);
                                }
                            }
                        }
                    }
                }
                p += 1;
            }
            start += 1;
        }
        None
    }

    /// Mark a route as published; a published route must not be reused as a
    /// fresh ephemeral route.
    pub fn mark_route_published(&mut self, key: &CryptoKey) -> (r: bool)
        ensures
            r == (spec_route_get(old(self).details@, *key) is Some),
            !r ==> *final(self) == *old(self),
            r ==> ({
                let i = spec_route_get(old(self).details@, *key).unwrap();
                &&& final(self).details@.len() == old(self).details@.len()
                &&& final(self).details@[i].0 == old(self).details@[i].0
                &&& final(self).details@[i].1.published
                &&& final(self).details@[i].1.hops@ == old(self).details@[i].1.hops@
                &&& (forall|j: int|
                    0 <= j < old(self).details@.len() && j != i ==> final(self).details@[j] == old(
                        self,
                    ).details@[j])
                &&& final(self).hop_cache@ == old(self).hop_cache@
            }),
    {
        match self.find_route(key) {
            Some(i) => {
                let mut hops: Vec<CryptoKey> = Vec::new();
                let n = self.details[i].1.hops.len();
                let mut h: usize = 0;
                while h < n
                    invariant
                        h <= n,
                        i < self.details@.len(),
                        n == self.details@[i as int].1.hops@.len(),
                        hops@ == self.details@[i as int].1.hops@.take(h as int),
                    decreases n - h,
                {
                    hops.push(self.details[i].1.hops[h]);
                    proof {
                        assert(hops@ =~= self.details@[i as int].1.hops@.take(h as int + 1));
                    }
                    h += 1;
                }
                proof {
                    assert(hops@ =~= self.details@[i as int].1.hops@);
                }
                let old_detail = &self.details[i].1;
                let new_detail = RouteSpecDetail {
                    secret_key: old_detail.secret_key,
                    hops,
                    published: true,
                    created_ts: old_detail.created_ts,
                    last_checked_ts: old_detail.last_checked_ts,
                    directions: old_detail.directions,
                };
                let k = self.details[i].0;
                self.details.set(i, (k, new_detail));
                true
            },
            None => false,
        }
    }

    /// Note that a route was just checked for liveness.
    pub fn touch_route_checked(&mut self, key: &CryptoKey, cur_ts: u64) -> (r: bool)
        ensures
            r == (spec_route_get(old(self).details@, *key) is Some),
            !r ==> *final(self) == *old(self),
            r ==> ({
                let i = spec_route_get(old(self).details@, *key).unwrap();
                &&& final(self).details@.len() == old(self).details@.len()
                &&& final(self).details@[i].1.last_checked_ts == Some(cur_ts)
                &&& final(self).details@[i].1.hops@ == old(self).details@[i].1.hops@
                &&& (forall|j: int|
                    0 <= j < old(self).details@.len() && j != i ==> final(self).details@[j] == old(
                        self,
                    ).details@[j])
            }),
    {
        match self.find_route(key) {
            Some(i) => {
                let mut hops: Vec<CryptoKey> = Vec::new();
                let n = self.details[i].1.hops.len();
                let mut h: usize = 0;
                while h < n
                    invariant
                        h <= n,
                        i < self.details@.len(),
                        n == self.details@[i as int].1.hops@.len(),
                        hops@ == self.details@[i as int].1.hops@.take(h as int),
                    decreases n - h,
                {
                    hops.push(self.details[i].1.hops[h]);
                    proof {
                        assert(hops@ =~= self.details@[i as int].1.hops@.take(h as int + 1));
                    }
                    h += 1;
                }
                proof {
                    assert(hops@ =~= self.details@[i as int].1.hops@);
                }
                let old_detail = &self.details[i].1;
                let new_detail = RouteSpecDetail {
                    secret_key: old_detail.secret_key,
                    hops,
                    published: old_detail.published,
                    created_ts: old_detail.created_ts,
                    last_checked_ts: Some(cur_ts),
                    directions: old_detail.directions,
                };
                let k = self.details[i].0;
                self.details.set(i, (k, new_detail));
                true
            },
            None => false,
        }
    }

    /// Release a route: its details and its hop-cache entry go away, so the
    /// hop sequence may be allocated again later.
    pub fn release_route(&mut self, key: &CryptoKey) -> (r: bool)
        ensures
            r == (spec_route_get(old(self).details@, *key) is Some),
            !r ==> *final(self) == *old(self),
            r ==> final(self).details@.len() == old(self).details@.len() - 1,
    {
        match self.find_route(key) {
            Some(i) => {
                let cache_key = Self::make_cache_key(&self.details[i].1.hops);
                let mut ci: usize = 0;
                let mut found: Option<usize> = None;
                while ci < self.hop_cache.len()
                    invariant
                        ci <= self.hop_cache@.len(),
                        found matches Some(f) ==> f < self.hop_cache@.len(),
                    decreases self.hop_cache@.len() - ci,
                {
                    if bytes_eq(&self.hop_cache[ci], &cache_key) {
                        found = Some(ci);
                        break ;
                    }
                    ci += 1;
                }
                match found {
                    Some(f) => {
                        self.hop_cache.remove(f);
                    },
                    None => {},
                }
                self.details.remove(i);
                true
            },
            None => false,
        }
    }

    /// How many routes are allocated.
    pub fn route_count(&self) -> (r: usize)
        ensures
            r == self.details@.len(),
    {
        self.details.len()
    }
}

/// Pushing a new key onto the route list makes lookup find it, and leaves
/// every other key's lookup unchanged.
proof fn lemma_route_get_push(s: Seq<(CryptoKey, RouteSpecDetail)>, k: CryptoKey, d: RouteSpecDetail)
    requires
        spec_route_get(s, k) is None,
    ensures
        spec_route_get(s.push((k, d)), k) == Some(s.len() as int),
    decreases s.len(),
{
    if s.len() == 0 {
        assert(s.push((k, d))[0] == (k, d));
        assert(s.push((k, d)).skip(1) =~= Seq::<(CryptoKey, RouteSpecDetail)>::empty());
    } else {
        assert(s.push((k, d))[0] == s[0]);
        assert(s.push((k, d)).skip(1) =~= s.skip(1).push((k, d)));
        lemma_route_get_push(s.skip(1), k, d);
    }
}

} // verus!
