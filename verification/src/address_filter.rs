//! Address filtering: per-IPv4-address and per-IPv6-prefix connection-count
//! and connection-frequency limits with a timed punishment list.
//!
//! The caller supplies the current time to every operation, so the filter's
//! behavior is a function of its state and its arguments alone.

use vstd::prelude::*;

verus! {

/// Minutes a punished address stays blocked.
pub const PUNISHMENT_DURATION_MIN: u64 = 60;

/// Microseconds in one minute.
pub const MICROS_PER_MIN: u64 = 60000000;

/// Why a connection was refused by the address filter.
#[derive(Clone, Copy, Debug, PartialEq, Eq, Structural)]
pub enum AddressFilterError {
    CountExceeded,
    RateExceeded,
    Punished,
}

/// Returned by `remove_connection` when the address has no tracked
/// connections.
#[derive(Clone, Copy, Debug, PartialEq, Eq, Structural)]
pub struct AddressNotInTableError {}

/// An IPv4 address as its four octets.
#[derive(Clone, Copy, Debug)]
pub struct Ipv4Addr {
    pub octets: [u8; 4],
}

/// An IPv6 address as its sixteen octets.
#[derive(Clone, Copy, Debug)]
pub struct Ipv6Addr {
    pub octets: [u8; 16],
}

/// An IP address of either family.
#[derive(Clone, Copy, Debug)]
pub enum IpAddress {
    V4(Ipv4Addr),
    V6(Ipv6Addr),
}

/// The canonical key the filter tracks: a whole IPv4 address, or an IPv6
/// prefix, packed into an integer so that keys compare structurally.
#[derive(Clone, Copy, Debug, PartialEq, Eq, Structural)]
pub struct IpBlock {
    /// Whether this key is an IPv6 prefix.
    pub is_v6: bool,
    /// The address bytes in big-endian order; for IPv6, already masked down
    /// to the configured prefix.
    pub value: u128,
}

/// Big-endian fold of address bytes into an integer.
pub open spec fn spec_bytes_to_u128(s: Seq<u8>) -> int
    decreases s.len(),
{
    if s.len() == 0 {
        0
    } else {
        spec_bytes_to_u128(s.take(s.len() - 1)) * 256 + s.last()
    }
}

/// The mask that keeps the top `keep` bits of a byte.
pub open spec fn spec_keep_mask(keep: int) -> u8 {
    if keep <= 0 {
        0x00
    } else if keep == 1 {
        0x80
    } else if keep == 2 {
        0xc0
    } else if keep == 3 {
        0xe0
    } else if keep == 4 {
        0xf0
    } else if keep == 5 {
        0xf8
    } else if keep == 6 {
        0xfc
    } else if keep == 7 {
        0xfe
    } else {
        0xff
    }
}

fn keep_mask(keep: usize) -> (r: u8)
    ensures
        r == spec_keep_mask(keep as int),
{
    if keep == 0 {
        0x00
    } else if keep == 1 {
        0x80
    } else if keep == 2 {
        0xc0
    } else if keep == 3 {
        0xe0
    } else if keep == 4 {
        0xf0
    } else if keep == 5 {
        0xf8
    } else if keep == 6 {
        0xfc
    } else if keep == 7 {
        0xfe
    } else {
        0xff
    }
}

/// Byte `i` of an IPv6 address masked down to a `prefix`-bit prefix.
pub open spec fn spec_masked_byte(b: u8, i: int, prefix: int) -> u8 {
    b & spec_keep_mask(prefix - 8 * i)
}

/// The sixteen masked bytes of an IPv6 address under a prefix length.
pub open spec fn spec_masked_v6(octets: Seq<u8>, prefix: int) -> Seq<u8> {
    Seq::new(16, |i: int| spec_masked_byte(octets[i], i, prefix))
}

/// The block an address belongs to: IPv4 addresses count individually, IPv6
/// addresses by their `prefix`-bit prefix.
pub open spec fn spec_ip_to_block(addr: IpAddress, prefix: int) -> IpBlock {
    match addr {
        IpAddress::V4(a) => IpBlock { is_v6: false, value: spec_bytes_to_u128(a.octets@) as u128 },
        IpAddress::V6(a) => IpBlock {
            is_v6: true,
            value: spec_bytes_to_u128(spec_masked_v6(a.octets@, prefix)) as u128,
        },
    }
}

/// Powers of 256.
pub open spec fn pow256(n: nat) -> int
    decreases n,
{
    if n == 0 {
        1
    } else {
        256 * pow256((n - 1) as nat)
    }
}

proof fn lemma_pow256_mono(a: nat, b: nat)
    requires
        a <= b,
    ensures
        pow256(a) <= pow256(b),
    decreases b,
{
    if a < b {
        lemma_pow256_mono(a, (b - 1) as nat);
        assert(pow256((b - 1) as nat) >= 1) by {
            lemma_pow256_pos((b - 1) as nat);
        }
    }
}

proof fn lemma_pow256_pos(n: nat)
    ensures
        pow256(n) >= 1,
    decreases n,
{
    if n > 0 {
        lemma_pow256_pos((n - 1) as nat);
    }
}

proof fn lemma_bytes_to_u128_bound(s: Seq<u8>)
    ensures
        0 <= spec_bytes_to_u128(s) < pow256(s.len()),
    decreases s.len(),
{
    if s.len() == 0 {
    } else {
        let prev = s.take(s.len() - 1);
        lemma_bytes_to_u128_bound(prev);
        let p = pow256((s.len() - 1) as nat);
        assert(spec_bytes_to_u128(prev) * 256 + s.last() < 256 * p) by (nonlinear_arith)
            requires
                spec_bytes_to_u128(prev) < p,
                s.last() < 256,
        ;
    }
}

pub fn fold_bytes(v: &Vec<u8>) -> (r: u128)
    requires
        v@.len() <= 16,
    ensures
        r == spec_bytes_to_u128(v@),
{
    let mut r: u128 = 0;
    let mut i: usize = 0;
    proof {
        assert(v@.take(0) =~= Seq::<u8>::empty());
    }
    while i < v.len()
        invariant
            i <= v@.len(),
            v@.len() <= 16,
            r == spec_bytes_to_u128(v@.take(i as int)),
        decreases v@.len() - i,
    {
        proof {
            lemma_bytes_to_u128_bound(v@.take(i as int + 1));
            lemma_pow256_mono((i + 1) as nat, 16);
            reveal_with_fuel(pow256, 17);
            assert(pow256(16) == 0x100000000000000000000000000000000);
            assert(v@.take(i as int + 1).take(i as int) =~= v@.take(i as int));
            assert(v@.take(i as int + 1).last() == v@[i as int]);
        }
        r = r * 256 + (v[i] as u128);
        i += 1;
    }
    proof {
        assert(v@.take(v@.len() as int) =~= v@);
    }
    r
}

/// Compute the block an address belongs to.
pub fn ip_to_ipblock(addr: &IpAddress, prefix: usize) -> (r: IpBlock)
    requires
        prefix <= 128,
    ensures
        r == spec_ip_to_block(*addr, prefix as int),
{
    match addr {
        IpAddress::V4(a) => {
            let mut v: Vec<u8> = Vec::new();
            let mut i: usize = 0;
            while i < 4
                invariant
                    i <= 4,
                    v@ == a.octets@.take(i as int),
                decreases 4 - i,
            {
                v.push(a.octets[i]);
                proof {
                    assert(v@ =~= a.octets@.take(i as int + 1));
                }
                i += 1;
            }
            proof {
                assert(v@ =~= a.octets@);
            }
            IpBlock { is_v6: false, value: fold_bytes(&v) }
        },
        IpAddress::V6(a) => {
            let mut v: Vec<u8> = Vec::new();
            let mut i: usize = 0;
            while i < 16
                invariant
                    i <= 16,
                    prefix <= 128,
                    v@ == spec_masked_v6(a.octets@, prefix as int).take(i as int),
                decreases 16 - i,
            {
                let keep: usize = if prefix >= 8 * i {
                    if prefix - 8 * i >= 8 {
                        8
                    } else {
                        prefix - 8 * i
                    }
                } else {
                    0
                };
                v.push(a.octets[i] & keep_mask(keep));
                proof {
                    assert(spec_keep_mask(keep as int) == spec_keep_mask(prefix - 8 * i));
                    assert(v@ =~= spec_masked_v6(a.octets@, prefix as int).take(i as int + 1));
                }
                i += 1;
            }
            proof {
                assert(v@ =~= spec_masked_v6(a.octets@, prefix as int));
            }
            IpBlock { is_v6: true, value: fold_bytes(&v) }
        },
    }
}

/// First-match lookup in an association list.
pub open spec fn aget<V>(s: Seq<(IpBlock, V)>, k: IpBlock) -> Option<V>
    decreases s.len(),
{
    if s.len() == 0 {
        None
    } else if s[0].0 == k {
        Some(s[0].1)
    } else {
        aget(s.skip(1), k)
    }
}

proof fn lemma_aget_update<V>(s: Seq<(IpBlock, V)>, i: int, k: IpBlock, v: V)
    requires
        0 <= i < s.len(),
        s[i].0 == k,
        forall|j: int| 0 <= j < i ==> s[j].0 != k,
    ensures
        aget(s.update(i, (k, v)), k) == Some(v),
        forall|k2: IpBlock| k2 != k ==> aget(s.update(i, (k, v)), k2) == aget(s, k2),
    decreases i,
{
    let s2 = s.update(i, (k, v));
    if i == 0 {
        assert(s2[0] == (k, v));
        assert(s2.skip(1) =~= s.skip(1));
        assert forall|k2: IpBlock| k2 != k implies aget(s2, k2) == aget(s, k2) by {
            assert(s2[0].0 == k);
            assert(s[0].0 == k);
            assert(aget(s2, k2) == aget(s2.skip(1), k2));
            assert(aget(s, k2) == aget(s.skip(1), k2));
        }
    } else {
        assert(s2[0] == s[0]);
        assert(s2.skip(1) =~= s.skip(1).update(i - 1, (k, v)));
        lemma_aget_update(s.skip(1), i - 1, k, v);
        assert forall|k2: IpBlock| k2 != k implies aget(s2, k2) == aget(s, k2) by {
            if s[0].0 != k2 {
                assert(aget(s2, k2) == aget(s2.skip(1), k2));
                assert(aget(s, k2) == aget(s.skip(1), k2));
            }
        }
        assert(s2[0].0 == s[0].0 && s[0].0 != k);
        assert(aget(s2, k) == aget(s2.skip(1), k));
    }
}

proof fn lemma_aget_push<V>(s: Seq<(IpBlock, V)>, k: IpBlock, v: V)
    requires
        aget(s, k) is None,
    ensures
        aget(s.push((k, v)), k) == Some(v),
        forall|k2: IpBlock| k2 != k ==> aget(s.push((k, v)), k2) == aget(s, k2),
    decreases s.len(),
{
    let s2 = s.push((k, v));
    if s.len() == 0 {
        assert(s2.skip(1) =~= Seq::<(IpBlock, V)>::empty());
        assert(s2[0] == (k, v));
        assert forall|k2: IpBlock| k2 != k implies aget(s2, k2) == aget(s, k2) by {
            assert(aget(s2, k2) == aget(s2.skip(1), k2));
        }
    } else {
        assert(s2[0] == s[0]);
        assert(s[0].0 != k);
        assert(s2.skip(1) =~= s.skip(1).push((k, v)));
        lemma_aget_push(s.skip(1), k, v);
        assert(aget(s2, k) == aget(s2.skip(1), k));
        assert forall|k2: IpBlock| k2 != k implies aget(s2, k2) == aget(s, k2) by {
            if s[0].0 != k2 {
                assert(aget(s2, k2) == aget(s2.skip(1), k2));
                assert(aget(s, k2) == aget(s.skip(1), k2));
            }
        }
    }
}


proof fn lemma_aget_ts_view(s: Seq<(IpBlock, Vec<u64>)>, k: IpBlock)
    ensures
        aget(s, k) matches Some(l) ==> aget(spec_ts_view(s), k) == Some(l@),
        aget(s, k) is None ==> aget(spec_ts_view(s), k) is None,
    decreases s.len(),
{
    if s.len() == 0 {
        assert(spec_ts_view(s) =~= Seq::<(IpBlock, Seq<u64>)>::empty());
    } else {
        assert(spec_ts_view(s)[0] == (s[0].0, s[0].1@));
        assert(spec_ts_view(s).skip(1) =~= spec_ts_view(s.skip(1)));
        lemma_aget_ts_view(s.skip(1), k);
    }
}

fn copy_push(v: &Vec<u64>, t: u64) -> (r: Vec<u64>)
    ensures
        r@ == v@.push(t),
{
    let mut r: Vec<u64> = Vec::new();
    let mut i: usize = 0;
    while i < v.len()
        invariant
            i <= v@.len(),
            r@ == v@.take(i as int),
        decreases v@.len() - i,
    {
        r.push(v[i]);
        proof {
            assert(r@ =~= v@.take(i as int + 1));
        }
        i += 1;
    }
    proof {
        assert(r@.push(t) =~= v@.push(t));
    }
    r.push(t);
    r
}

/// Find the first index holding key `k`.
fn afind<V>(s: &Vec<(IpBlock, V)>, k: IpBlock) -> (r: Option<usize>)
    ensures
        r matches Some(i) ==> 0 <= i < s@.len() && s@[i as int].0 == k && (forall|j: int|
            0 <= j < i ==> s@[j].0 != k) && (aget(s@, k) matches Some(v) && v == s@[i as int].1),
        r is None ==> aget(s@, k) is None,
{
    let mut i: usize = 0;
    proof {
        assert(s@.skip(0) =~= s@);
    }
    while i < s.len()
        invariant
            i <= s@.len(),
            forall|j: int| 0 <= j < i ==> s@[j].0 != k,
            aget(s@, k) == aget(s@.skip(i as int), k),
        decreases s@.len() - i,
    {
        proof {
            assert(s@.skip(i as int)[0] == s@[i as int]);
            assert(s@.skip(i as int).skip(1) =~= s@.skip(i as int + 1));
        }
        if s[i].0 == k {
            return Some(i);
        }
        i += 1;
    }
    None
}

/// Timestamps still inside the one-minute rate window at `cur_ts`.
pub open spec fn spec_fresh_ts(s: Seq<u64>, cur_ts: u64) -> Seq<u64> {
    s.filter(|t: u64| crate::bucket_entry::spec_sat_sub64(cur_ts, t) < MICROS_PER_MIN)
}

fn filter_fresh_ts(s: &Vec<u64>, cur_ts: u64) -> (r: Vec<u64>)
    ensures
        r@ == spec_fresh_ts(s@, cur_ts),
{
    let mut out: Vec<u64> = Vec::new();
    let mut i: usize = 0;
    proof {
        assert(s@.take(0).filter(
            |t: u64| crate::bucket_entry::spec_sat_sub64(cur_ts, t) < MICROS_PER_MIN,
        ) =~= Seq::<u64>::empty());
    }
    while i < s.len()
        invariant
            i <= s@.len(),
            out@ == s@.take(i as int).filter(
                |t: u64| crate::bucket_entry::spec_sat_sub64(cur_ts, t) < MICROS_PER_MIN,
            ),
        decreases s@.len() - i,
    {
        let t = s[i];
        proof {
            reveal_with_fuel(Seq::filter, 2);
            assert(s@.take(i as int + 1).drop_last() =~= s@.take(i as int));
            assert(s@.take(i as int + 1).last() == s@[i as int]);
        }
        if crate::timestamp_saturating_sub(cur_ts, t) < MICROS_PER_MIN {
            out.push(t);
        }
        i += 1;
    }
    proof {
        assert(s@.take(s@.len() as int) =~= s@);
    }
    out
}

/// The timestamp table after a purge: every list filtered to the one-minute
/// window, and entries whose lists became empty dropped.
pub open spec fn spec_purged_ts(s: Seq<(IpBlock, Vec<u64>)>, cur_ts: u64) -> Seq<
    (IpBlock, Seq<u64>),
>
    decreases s.len(),
{
    if s.len() == 0 {
        Seq::empty()
    } else {
        let f = spec_fresh_ts(s[0].1@, cur_ts);
        let rest = spec_purged_ts(s.skip(1), cur_ts);
        if f.len() == 0 {
            rest
        } else {
            seq![(s[0].0, f)] + rest
        }
    }
}

/// View of a timestamp table as key/sequence pairs.
pub open spec fn spec_ts_view(s: Seq<(IpBlock, Vec<u64>)>) -> Seq<(IpBlock, Seq<u64>)> {
    s.map_values(|e: (IpBlock, Vec<u64>)| (e.0, e.1@))
}

/// The punishment table after a purge: punishments older than the
/// punishment duration dropped.
pub open spec fn spec_purged_punishments(s: Seq<(IpBlock, u64)>, cur_ts: u64) -> Seq<
    (IpBlock, u64),
> {
    s.filter(
        |e: (IpBlock, u64)|
            crate::bucket_entry::spec_sat_sub64(cur_ts, e.1) <= PUNISHMENT_DURATION_MIN
                * MICROS_PER_MIN,
    )
}

/// Connection-count, connection-rate and punishment enforcement per address
/// block.
pub struct AddressFilter {
    /// Most simultaneous connections allowed from one IPv4 address.
    pub max_connections_per_ip4: usize,
    /// Most simultaneous connections allowed from one IPv6 prefix.
    pub max_connections_per_ip6_prefix: usize,
    /// Prefix length that defines an IPv6 block.
    pub max_connections_per_ip6_prefix_size: usize,
    /// Most connections allowed from one block within a minute.
    pub max_connection_frequency_per_min: usize,
    /// Live connection counts per block.
    pub conn_counts: Vec<(IpBlock, usize)>,
    /// Recent connection timestamps per block, oldest first.
    pub conn_timestamps: Vec<(IpBlock, Vec<u64>)>,
    /// When each punished block was punished.
    pub punishments: Vec<(IpBlock, u64)>,
}

impl AddressFilter {
    /// The connection-count limit that applies to a block.
    pub open spec fn spec_count_limit(&self, block: IpBlock) -> usize {
        if block.is_v6 {
            self.max_connections_per_ip6_prefix
        } else {
            self.max_connections_per_ip4
        }
    }

    /// The live connection count of a block.
    pub open spec fn spec_count_of(&self, block: IpBlock) -> usize {
        match aget(self.conn_counts@, block) {
            Some(c) => c,
            None => 0,
        }
    }

    pub fn new(
        max_connections_per_ip4: usize,
        max_connections_per_ip6_prefix: usize,
        max_connections_per_ip6_prefix_size: usize,
        max_connection_frequency_per_min: usize,
    ) -> (r: AddressFilter)
        requires
            max_connections_per_ip6_prefix_size <= 128,
        ensures
            r.max_connections_per_ip4 == max_connections_per_ip4,
            r.max_connections_per_ip6_prefix == max_connections_per_ip6_prefix,
            r.max_connections_per_ip6_prefix_size == max_connections_per_ip6_prefix_size,
            r.max_connection_frequency_per_min == max_connection_frequency_per_min,
            r.conn_counts@.len() == 0,
            r.conn_timestamps@.len() == 0,
            r.punishments@.len() == 0,
    {
        AddressFilter {
            max_connections_per_ip4,
            max_connections_per_ip6_prefix,
            max_connections_per_ip6_prefix_size,
            max_connection_frequency_per_min,
            conn_counts: Vec::new(),
            conn_timestamps: Vec::new(),
            punishments: Vec::new(),
        }
    }

    /// Drop rate-window timestamps older than one minute, and forget blocks
    /// whose window became empty.
    pub fn purge_old_timestamps(&mut self, cur_ts: u64)
        ensures
            spec_ts_view(final(self).conn_timestamps@) == spec_purged_ts(
                old(self).conn_timestamps@,
                cur_ts,
            ),
            final(self).conn_counts@ == old(self).conn_counts@,
            final(self).punishments@ == old(self).punishments@,
            final(self).max_connections_per_ip4 == old(self).max_connections_per_ip4,
            final(self).max_connections_per_ip6_prefix == old(
                self,
            ).max_connections_per_ip6_prefix,
            final(self).max_connections_per_ip6_prefix_size == old(
                self,
            ).max_connections_per_ip6_prefix_size,
            final(self).max_connection_frequency_per_min == old(
                self,
            ).max_connection_frequency_per_min,
    {
        let n = self.conn_timestamps.len();
        let mut out: Vec<(IpBlock, Vec<u64>)> = Vec::new();
        let mut i: usize = 0;
        proof {
            assert(self.conn_timestamps@.skip(0) =~= self.conn_timestamps@);
            assert(spec_ts_view(out@) =~= Seq::<(IpBlock, Seq<u64>)>::empty());
        }
        while i < n
            invariant
                i <= n,
                n == self.conn_timestamps@.len(),
                spec_purged_ts(self.conn_timestamps@, cur_ts) == spec_ts_view(out@)
                    + spec_purged_ts(self.conn_timestamps@.skip(i as int), cur_ts),
            decreases n - i,
        {
            proof {
                assert(self.conn_timestamps@.skip(i as int)[0] == self.conn_timestamps@[i as int]);
                assert(self.conn_timestamps@.skip(i as int).skip(1) =~= self.conn_timestamps@.skip(
                    i as int + 1,
                ));
            }
            let block = self.conn_timestamps[i].0;
            let fresh = filter_fresh_ts(&self.conn_timestamps[i].1, cur_ts);
            if fresh.len() > 0 {
                let ghost prev = spec_ts_view(out@);
                out.push((block, fresh));
                proof {
                    assert(spec_ts_view(out@) =~= prev + seq![
                        (block, spec_fresh_ts(self.conn_timestamps@[i as int].1@, cur_ts)),
                    ]);
                    assert(spec_ts_view(out@) + spec_purged_ts(
                        self.conn_timestamps@.skip(i as int + 1),
                        cur_ts,
                    ) =~= prev + spec_purged_ts(self.conn_timestamps@.skip(i as int), cur_ts));
                }
            }
            i += 1;
        }
        proof {
            assert(self.conn_timestamps@.skip(n as int) =~= Seq::<(IpBlock, Vec<u64>)>::empty());
            assert(spec_ts_view(out@) + spec_purged_ts(Seq::<(IpBlock, Vec<u64>)>::empty(), cur_ts)
                =~= spec_ts_view(out@));
        }
        self.conn_timestamps = out;
    }

    /// Forgive punishments older than the punishment duration.
    pub fn purge_old_punishments(&mut self, cur_ts: u64)
        ensures
            final(self).punishments@ == spec_purged_punishments(old(self).punishments@, cur_ts),
            final(self).conn_counts@ == old(self).conn_counts@,
            final(self).conn_timestamps@ == old(self).conn_timestamps@,
            final(self).max_connections_per_ip4 == old(self).max_connections_per_ip4,
            final(self).max_connections_per_ip6_prefix == old(
                self,
            ).max_connections_per_ip6_prefix,
            final(self).max_connections_per_ip6_prefix_size == old(
                self,
            ).max_connections_per_ip6_prefix_size,
            final(self).max_connection_frequency_per_min == old(
                self,
            ).max_connection_frequency_per_min,
    {
        let n = self.punishments.len();
        let mut out: Vec<(IpBlock, u64)> = Vec::new();
        let mut i: usize = 0;
        proof {
            assert(self.punishments@.take(0).filter(
                |e: (IpBlock, u64)|
                    crate::bucket_entry::spec_sat_sub64(cur_ts, e.1) <= PUNISHMENT_DURATION_MIN
                        * MICROS_PER_MIN,
            ) =~= Seq::<(IpBlock, u64)>::empty());
        }
        while i < n
            invariant
                i <= n,
                n == self.punishments@.len(),
                out@ == self.punishments@.take(i as int).filter(
                    |e: (IpBlock, u64)|
                        crate::bucket_entry::spec_sat_sub64(cur_ts, e.1) <= PUNISHMENT_DURATION_MIN
                            * MICROS_PER_MIN,
                ),
            decreases n - i,
        {
            proof {
                reveal_with_fuel(Seq::filter, 2);
                assert(self.punishments@.take(i as int + 1).drop_last() =~= self.punishments@.take(
                    i as int,
                ));
                assert(self.punishments@.take(i as int + 1).last() == self.punishments@[i as int]);
            }
            let e = self.punishments[i];
            if crate::timestamp_saturating_sub(cur_ts, e.1) <= PUNISHMENT_DURATION_MIN
                * MICROS_PER_MIN {
                out.push(e);
            }
            i += 1;
        }
        proof {
            assert(self.punishments@.take(n as int) =~= self.punishments@);
        }
        self.punishments = out;
    }

    /// Whether the block of this address is currently punished.
    pub fn is_punished(&self, addr: &IpAddress) -> (r: bool)
        requires
            self.max_connections_per_ip6_prefix_size <= 128,
        ensures
            r == (aget(
                self.punishments@,
                spec_ip_to_block(*addr, self.max_connections_per_ip6_prefix_size as int),
            ) is Some),
    {
        let block = ip_to_ipblock(addr, self.max_connections_per_ip6_prefix_size);
        afind(&self.punishments, block).is_some()
    }

    /// Punish the block of this address from `cur_ts` on, overwriting any
    /// earlier punishment timestamp.
    pub fn punish(&mut self, addr: &IpAddress, cur_ts: u64)
        requires
            old(self).max_connections_per_ip6_prefix_size <= 128,
        ensures
            aget(
                final(self).punishments@,
                spec_ip_to_block(*addr, old(self).max_connections_per_ip6_prefix_size as int),
            ) == Some(cur_ts),
            forall|k2: IpBlock|
                k2 != spec_ip_to_block(
                    *addr,
                    old(self).max_connections_per_ip6_prefix_size as int,
                ) ==> aget(final(self).punishments@, k2) == aget(old(self).punishments@, k2),
            final(self).conn_counts@ == old(self).conn_counts@,
            final(self).conn_timestamps@ == old(self).conn_timestamps@,
            final(self).max_connections_per_ip4 == old(self).max_connections_per_ip4,
            final(self).max_connections_per_ip6_prefix == old(
                self,
            ).max_connections_per_ip6_prefix,
            final(self).max_connections_per_ip6_prefix_size == old(
                self,
            ).max_connections_per_ip6_prefix_size,
            final(self).max_connection_frequency_per_min == old(
                self,
            ).max_connection_frequency_per_min,
    {
        let block = ip_to_ipblock(addr, self.max_connections_per_ip6_prefix_size);
        match afind(&self.punishments, block) {
            Some(i) => {
                let ghost s = self.punishments@;
                self.punishments.set(i, (block, cur_ts));
                proof {
                    lemma_aget_update(s, i as int, block, cur_ts);
                }
            },
            None => {
                let ghost s = self.punishments@;
                self.punishments.push((block, cur_ts));
                proof {
                    lemma_aget_push(s, block, cur_ts);
                }
            },
        }
    }

    /// Run the periodic purge: drop stale rate-window timestamps and expired
    /// punishments.
    pub fn address_filter_task_routine(&mut self, cur_ts: u64)
        ensures
            spec_ts_view(final(self).conn_timestamps@) == spec_purged_ts(
                old(self).conn_timestamps@,
                cur_ts,
            ),
            final(self).punishments@ == spec_purged_punishments(old(self).punishments@, cur_ts),
            final(self).conn_counts@ == old(self).conn_counts@,
            final(self).max_connections_per_ip4 == old(self).max_connections_per_ip4,
            final(self).max_connections_per_ip6_prefix == old(
                self,
            ).max_connections_per_ip6_prefix,
            final(self).max_connections_per_ip6_prefix_size == old(
                self,
            ).max_connections_per_ip6_prefix_size,
            final(self).max_connection_frequency_per_min == old(
                self,
            ).max_connection_frequency_per_min,
    {
        self.purge_old_timestamps(cur_ts);
        self.purge_old_punishments(cur_ts);
    }

    /// Ask to admit one more connection from this address at `cur_ts`.
    /// The rate window is purged first; then punishment, connection count
    /// and connection rate are checked in that order.  On success the count
    /// goes up by one and `cur_ts` joins the rate window.
    pub fn add_connection(&mut self, addr: &IpAddress, cur_ts: u64) -> (r: Result<
        (),
        AddressFilterError,
    >)
        requires
            old(self).max_connections_per_ip6_prefix_size <= 128,
        ensures
            ({
                let block = spec_ip_to_block(
                    *addr,
                    old(self).max_connections_per_ip6_prefix_size as int,
                );
                let punished = aget(old(self).punishments@, block) is Some;
                let cnt = old(self).spec_count_of(block);
                let limit = old(self).spec_count_limit(block);
                let purged = spec_purged_ts(old(self).conn_timestamps@, cur_ts);
                let rate = match aget(purged, block) {
                    Some(l) => l.len(),
                    None => 0,
                };
                let maxfreq = old(self).max_connection_frequency_per_min;
                &&& (r is Ok) <==> (!punished && cnt < limit && rate < maxfreq)
                &&& punished ==> r == Result::<(), AddressFilterError>::Err(
                    AddressFilterError::Punished,
                ) && final(self).conn_counts@ == old(self).conn_counts@ && spec_ts_view(
                    final(self).conn_timestamps@,
                ) == purged
                &&& (!punished && cnt >= limit) ==> r == Result::<(), AddressFilterError>::Err(
                    AddressFilterError::CountExceeded,
                )
                &&& (!punished && cnt < limit && rate >= maxfreq) ==> r == Result::<
                    (),
                    AddressFilterError,
                >::Err(AddressFilterError::RateExceeded)
                &&& (!punished && !(r is Ok)) ==> final(self).conn_counts@ == old(
                    self,
                ).conn_counts@ && spec_ts_view(final(self).conn_timestamps@) == purged
                &&& (r is Ok) ==> {
                    &&& aget(final(self).conn_counts@, block) == Some((cnt + 1) as usize)
                    &&& forall|k2: IpBlock|
                        k2 != block ==> aget(final(self).conn_counts@, k2) == aget(
                            old(self).conn_counts@,
                            k2,
                        )
                    &&& (aget(final(self).conn_timestamps@, block) matches Some(l) && l@ == (match
                        aget(purged, block) {
                        Some(pl) => pl,
                        None => Seq::<u64>::empty(),
                    }).push(cur_ts))
                    &&& forall|k2: IpBlock|
                        k2 != block ==> aget(spec_ts_view(final(self).conn_timestamps@), k2)
                            == aget(purged, k2)
                }
                &&& final(self).punishments@ == old(self).punishments@
                &&& final(self).max_connections_per_ip4 == old(self).max_connections_per_ip4
                &&& final(self).max_connections_per_ip6_prefix == old(
                    self,
                ).max_connections_per_ip6_prefix
                &&& final(self).max_connections_per_ip6_prefix_size == old(
                    self,
                ).max_connections_per_ip6_prefix_size
                &&& final(self).max_connection_frequency_per_min == old(
                    self,
                ).max_connection_frequency_per_min
            }),
    {
        let block = ip_to_ipblock(addr, self.max_connections_per_ip6_prefix_size);
        // the policy order: purge the rate window first, then check
        // punishment, count and rate
        self.purge_old_timestamps(cur_ts);
        proof {
            lemma_aget_ts_view(self.conn_timestamps@, block);
        }
        if afind(&self.punishments, block).is_some() {
            return Err(AddressFilterError::Punished);
        }
        let cnt = match afind(&self.conn_counts, block) {
            Some(i) => self.conn_counts[i].1,
            None => 0,
        };
        let limit = if block.is_v6 {
            self.max_connections_per_ip6_prefix
        } else {
            self.max_connections_per_ip4
        };
        if cnt >= limit {
            return Err(AddressFilterError::CountExceeded);
        }
        let ts_idx = afind(&self.conn_timestamps, block);
        let rate = match ts_idx {
            Some(i) => self.conn_timestamps[i].1.len(),
            None => 0,
        };
        if rate >= self.max_connection_frequency_per_min {
            return Err(AddressFilterError::RateExceeded);
        }
        match afind(&self.conn_counts, block) {
            Some(i) => {
                let ghost s = self.conn_counts@;
                self.conn_counts.set(i, (block, cnt + 1));
                proof {
                    lemma_aget_update(s, i as int, block, (cnt + 1) as usize);
                }
            },
            None => {
                let ghost s = self.conn_counts@;
                self.conn_counts.push((block, cnt + 1));
                proof {
                    lemma_aget_push(s, block, (cnt + 1) as usize);
                }
            },
        }
        match ts_idx {
            Some(i) => {
                let newlist = copy_push(&self.conn_timestamps[i].1, cur_ts);
                let ghost s = self.conn_timestamps@;
                let ghost nl = newlist@;
                self.conn_timestamps.set(i, (block, newlist));
                proof {
                    lemma_aget_update(s, i as int, block, self.conn_timestamps@[i as int].1);
                    assert(spec_ts_view(self.conn_timestamps@) =~= spec_ts_view(s).update(
                        i as int,
                        (block, nl),
                    ));
                    lemma_aget_ts_view(s, block);
                    assert forall|j: int| 0 <= j < i implies spec_ts_view(s)[j].0 != block by {
                        assert(spec_ts_view(s)[j].0 == s[j].0);
                    }
                    lemma_aget_update(spec_ts_view(s), i as int, block, nl);
                }
            },
            None => {
                let mut l: Vec<u64> = Vec::new();
                l.push(cur_ts);
                let ghost nl = l@;
                let ghost s = self.conn_timestamps@;
                self.conn_timestamps.push((block, l));
                proof {
                    lemma_aget_push(s, block, self.conn_timestamps@.last().1);
                    assert(spec_ts_view(self.conn_timestamps@) =~= spec_ts_view(s).push(
                        (block, nl),
                    ));
                    lemma_aget_ts_view(s, block);
                    lemma_aget_push(spec_ts_view(s), block, nl);
                    assert(nl =~= Seq::<u64>::empty().push(cur_ts));
                }
            },
        }
        Ok(())
    }

    /// Note that a connection from this address went away.  The rate window
    /// is purged; the count for the block, if any, goes down by one.
    pub fn remove_connection(&mut self, addr: &IpAddress, cur_ts: u64) -> (r: Result<
        (),
        AddressNotInTableError,
    >)
        requires
            old(self).max_connections_per_ip6_prefix_size <= 128,
        ensures
            ({
                let block = spec_ip_to_block(
                    *addr,
                    old(self).max_connections_per_ip6_prefix_size as int,
                );
                let cnt = aget(old(self).conn_counts@, block);
                let purged = spec_purged_ts(old(self).conn_timestamps@, cur_ts);
                &&& (r is Ok) <==> (cnt matches Some(c) && c > 0)
                &&& spec_ts_view(final(self).conn_timestamps@) == purged
                &&& (r is Ok) ==> {
                    &&& (cnt matches Some(c) && aget(final(self).conn_counts@, block) == Some(
                        (c - 1) as usize,
                    ))
                    &&& forall|k2: IpBlock|
                        k2 != block ==> aget(final(self).conn_counts@, k2) == aget(
                            old(self).conn_counts@,
                            k2,
                        )
                }
                &&& !(r is Ok) ==> final(self).conn_counts@ == old(self).conn_counts@
                &&& final(self).punishments@ == old(self).punishments@
                &&& final(self).max_connections_per_ip4 == old(self).max_connections_per_ip4
                &&& final(self).max_connections_per_ip6_prefix == old(
                    self,
                ).max_connections_per_ip6_prefix
                &&& final(self).max_connections_per_ip6_prefix_size == old(
                    self,
                ).max_connections_per_ip6_prefix_size
                &&& final(self).max_connection_frequency_per_min == old(
                    self,
                ).max_connection_frequency_per_min
            }),
    {
        let block = ip_to_ipblock(addr, self.max_connections_per_ip6_prefix_size);
        self.purge_old_timestamps(cur_ts);
        match afind(&self.conn_counts, block) {
            Some(i) => {
                let c = self.conn_counts[i].1;
                if c == 0 {
                    return Err(AddressNotInTableError {});
                }
                let ghost s = self.conn_counts@;
                self.conn_counts.set(i, (block, c - 1));
                proof {
                    lemma_aget_update(s, i as int, block, (c - 1) as usize);
                }
                Ok(())
            },
            None => Err(AddressNotInTableError {}),
        }
    }
}

} // verus!
