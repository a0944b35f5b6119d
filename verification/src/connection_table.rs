//! The connection table: live connections keyed by their descriptor, with
//! exact-match lookup, reuse by remote address, and the eviction decision
//! that makes way for a new outbound connection on a busy local port.

use vstd::prelude::*;
use crate::net_types::{Address, ConnectionDescriptor, PeerAddress, SocketAddress};

verus! {

/// Whether two addresses hold the same bytes.
pub open spec fn spec_addr_eq(a: Address, b: Address) -> bool {
    match (a, b) {
        (Address::IPV4(x), Address::IPV4(y)) => x.octets@ == y.octets@,
        (Address::IPV6(x), Address::IPV6(y)) => x.octets@ == y.octets@,
        _ => false,
    }
}

/// Whether two socket addresses are the same endpoint.
pub open spec fn spec_sockaddr_eq(a: SocketAddress, b: SocketAddress) -> bool {
    spec_addr_eq(a.address, b.address) && a.port == b.port
}

/// Whether two peer addresses are the same remote.
pub open spec fn spec_peer_addr_eq(a: PeerAddress, b: PeerAddress) -> bool {
    a.protocol_type == b.protocol_type && spec_sockaddr_eq(a.socket_address, b.socket_address)
}

/// Whether two descriptors name the same 5-tuple.
pub open spec fn spec_descriptor_eq(a: ConnectionDescriptor, b: ConnectionDescriptor) -> bool {
    spec_peer_addr_eq(a.remote, b.remote) && match (a.local, b.local) {
        (Some(x), Some(y)) => spec_sockaddr_eq(x, y),
        (None, None) => true,
        _ => false,
    }
}

/// Whether a live connection's descriptor blocks a new outbound connection
/// from `local_addr` to `remote_addr`: a connection-oriented protocol to the
/// same remote endpoint whose local side collides on the port with an equal
/// or unspecified address.
pub open spec fn spec_collides(
    d: ConnectionDescriptor,
    remote_addr: SocketAddress,
    local_addr: SocketAddress,
) -> bool {
    &&& d.remote.protocol_type != crate::net_types::ProtocolType::UDP
    &&& spec_sockaddr_eq(d.remote.socket_address, remote_addr)
    &&& (d.local matches Some(l) && l.port == local_addr.port && (l.address.spec_is_unspecified()
        || local_addr.address.spec_is_unspecified() || spec_addr_eq(l.address, local_addr.address)))
}

/// Whether the table holds a row with this descriptor.
pub open spec fn spec_table_has_descriptor(
    entries: Seq<ConnectionTableEntry>,
    d: ConnectionDescriptor,
) -> bool {
    exists|i: int|
        0 <= i < entries.len() && spec_descriptor_eq(d, (#[trigger] entries[i]).descriptor)
}

/// One table row: a descriptor and the connection id the transport layer
/// knows the connection by.
#[derive(Clone, Copy, Debug)]
pub struct ConnectionTableEntry {
    pub descriptor: ConnectionDescriptor,
    pub connection_id: u64,
}

/// The table of live connections. Its invariant is that no two rows carry
/// the same descriptor: a duplicate registration replaces nothing and is
/// refused, so the older of two equal descriptors must be removed first.
pub struct ConnectionTable {
    pub entries: Vec<ConnectionTableEntry>,
}

impl ConnectionTable {
    /// No two rows name the same 5-tuple.
    pub open spec fn wf(&self) -> bool {
        forall|i: int, j: int|
            0 <= i < self.entries@.len() && 0 <= j < self.entries@.len() && i != j
                ==> !spec_descriptor_eq(
                (#[trigger] self.entries@[i]).descriptor,
                (#[trigger] self.entries@[j]).descriptor,
            )
    }

    pub fn new() -> (r: ConnectionTable)
        ensures
            r.entries@.len() == 0,
            r.wf(),
    {
        ConnectionTable { entries: Vec::new() }
    }

    /// Exact-match lookup by descriptor.
    pub fn get_connection(&self, descriptor: &ConnectionDescriptor) -> (r: Option<u64>)
        ensures
            r matches Some(id) ==> (exists|i: int|
                0 <= i < self.entries@.len() && spec_descriptor_eq(
                    (#[trigger] self.entries@[i]).descriptor,
                    *descriptor,
                ) && self.entries@[i].connection_id == id),
            r is None ==> (forall|i: int|
                0 <= i < self.entries@.len() ==> !spec_descriptor_eq(
                    (#[trigger] self.entries@[i]).descriptor,
                    *descriptor,
                )),
    {
        let mut i: usize = 0;
        while i < self.entries.len()
            invariant
                i <= self.entries@.len(),
                forall|j: int|
                    0 <= j < i ==> !spec_descriptor_eq(
                        (#[trigger] self.entries@[j]).descriptor,
                        *descriptor,
                    ),
            decreases self.entries@.len() - i,
        {
            if descriptor_eq(&self.entries[i].descriptor, descriptor) {
                return Some(self.entries[i].connection_id);
            }
            i += 1;
        }
        None
    }

    /// Any existing connection to this remote, whatever its local side.
    pub fn get_last_connection_by_remote(&self, remote: &PeerAddress) -> (r: Option<u64>)
        ensures
            r matches Some(id) ==> (exists|i: int|
                0 <= i < self.entries@.len() && spec_peer_addr_eq(
                    (#[trigger] self.entries@[i]).descriptor.remote,
                    *remote,
                ) && self.entries@[i].connection_id == id),
            r is None ==> (forall|i: int|
                0 <= i < self.entries@.len() ==> !spec_peer_addr_eq(
                    (#[trigger] self.entries@[i]).descriptor.remote,
                    *remote,
                )),
    {
        let mut i: usize = 0;
        while i < self.entries.len()
            invariant
                i <= self.entries@.len(),
                forall|j: int|
                    0 <= j < i ==> !spec_peer_addr_eq(
                        (#[trigger] self.entries@[j]).descriptor.remote,
                        *remote,
                    ),
            decreases self.entries@.len() - i,
        {
            if peer_addr_eq(&self.entries[i].descriptor.remote, remote) {
                return Some(self.entries[i].connection_id);
            }
            i += 1;
        }
        None
    }

    /// Register a connection. Refused exactly when a row with the same
    /// descriptor is already present, which keeps the uniqueness invariant.
    pub fn add_connection(&mut self, descriptor: ConnectionDescriptor, connection_id: u64) -> (r:
        bool)
        requires
            old(self).wf(),
        ensures
            final(self).wf(),
            r == (forall|i: int|
                0 <= i < old(self).entries@.len() ==> !spec_descriptor_eq(
                    (#[trigger] old(self).entries@[i]).descriptor,
                    descriptor,
                )),
            !r ==> *final(self) == *old(self),
            r ==> final(self).entries@.len() == old(self).entries@.len() + 1
                && final(self).entries@.last().connection_id == connection_id
                && spec_descriptor_eq(final(self).entries@.last().descriptor, descriptor) && (
            forall|i: int|
                0 <= i < old(self).entries@.len() ==> final(self).entries@[i] == old(
                    self,
                ).entries@[i]),
    {
        let mut i: usize = 0;
        while i < self.entries.len()
            invariant
                i <= self.entries@.len(),
                *self == *old(self),
                old(self).wf(),
                forall|j: int|
                    0 <= j < i ==> !spec_descriptor_eq(
                        (#[trigger] self.entries@[j]).descriptor,
                        descriptor,
                    ),
            decreases self.entries@.len() - i,
        {
            if descriptor_eq(&self.entries[i].descriptor, &descriptor) {
                return false;
            }
            i += 1;
        }
        self.entries.push(ConnectionTableEntry { descriptor, connection_id });
        proof {
            let t = *self;
            let o = *old(self);
            assert forall|a: int, b: int|
                0 <= a < t.entries@.len() && 0 <= b < t.entries@.len() && a
                    != b implies !spec_descriptor_eq(
                (#[trigger] t.entries@[a]).descriptor,
                (#[trigger] t.entries@[b]).descriptor,
            ) by {
                if a < o.entries@.len() && b < o.entries@.len() {
                    assert(t.entries@[a] == o.entries@[a] && t.entries@[b] == o.entries@[b]);
                } else if a < o.entries@.len() {
                    assert(t.entries@[a] == o.entries@[a]);
                    assert(!spec_descriptor_eq(o.entries@[a].descriptor, descriptor));
                    lemma_descriptor_eq_sym(o.entries@[a].descriptor, descriptor);
                } else if b < o.entries@.len() {
                    assert(t.entries@[b] == o.entries@[b]);
                    assert(!spec_descriptor_eq(o.entries@[b].descriptor, descriptor));
                    lemma_descriptor_eq_sym(o.entries@[b].descriptor, descriptor);
                }
            }
        }
        true
    }

    /// Remove the connection with exactly this descriptor.
    pub fn remove_connection(&mut self, descriptor: &ConnectionDescriptor) -> (r: Option<u64>)
        requires
            old(self).wf(),
        ensures
            final(self).wf(),
            r is None ==> *final(self) == *old(self) && (forall|i: int|
                0 <= i < old(self).entries@.len() ==> !spec_descriptor_eq(
                    (#[trigger] old(self).entries@[i]).descriptor,
                    *descriptor,
                )),
            r matches Some(id) ==> final(self).entries@.len() == old(self).entries@.len() - 1 && (
            exists|i: int|
                0 <= i < old(self).entries@.len() && spec_descriptor_eq(
                    (#[trigger] old(self).entries@[i]).descriptor,
                    *descriptor,
                ) && old(self).entries@[i].connection_id == id) && (forall|i: int|
                0 <= i < final(self).entries@.len() ==> !spec_descriptor_eq(
                    (#[trigger] final(self).entries@[i]).descriptor,
                    *descriptor,
                )),
    {
        let mut i: usize = 0;
        while i < self.entries.len()
            invariant
                self.wf(),
                self == old(self),
                i <= self.entries@.len(),
                forall|j: int|
                    0 <= j < i ==> !spec_descriptor_eq(
                        (#[trigger] self.entries@[j]).descriptor,
                        *descriptor,
                    ),
            decreases self.entries@.len() - i,
        {
            if descriptor_eq(&self.entries[i].descriptor, descriptor) {
                let id = self.entries[i].connection_id;
                let ghost prev = self.entries@;
                self.entries.remove(i);
                proof {
                    assert(self.entries@ =~= prev.subrange(0, i as int) + prev.subrange(
                        i as int + 1,
                        prev.len() as int,
                    ));
                    assert forall|a: int|
                        0 <= a < self.entries@.len() implies (exists|b: int|
                        0 <= b < prev.len() && prev[b] == #[trigger] self.entries@[a] && b
                            != i) by {
                        if a < i {
                            assert(prev[a] == self.entries@[a]);
                        } else {
                            assert(prev[a + 1] == self.entries@[a]);
                        }
                    }
                    assert forall|a: int|
                        0 <= a < self.entries@.len() implies !spec_descriptor_eq(
                        (#[trigger] self.entries@[a]).descriptor,
                        *descriptor,
                    ) by {
                        let b = choose|b: int|
                            0 <= b < prev.len() && prev[b] == self.entries@[a] && b != i;
                        assert(!spec_descriptor_eq(prev[b].descriptor, prev[i as int].descriptor));
                        lemma_descriptor_eq_trans_target(
                            prev[b].descriptor,
                            prev[i as int].descriptor,
                            *descriptor,
                        );
                    }
                    assert forall|a: int, b: int|
                        0 <= a < self.entries@.len() && 0 <= b < self.entries@.len() && a
                            != b implies !spec_descriptor_eq(
                        (#[trigger] self.entries@[a]).descriptor,
                        (#[trigger] self.entries@[b]).descriptor,
                    ) by {
                        let a0 = choose|a0: int|
                            0 <= a0 < prev.len() && prev[a0] == self.entries@[a] && a0 != i;
                        let b0 = choose|b0: int|
                            0 <= b0 < prev.len() && prev[b0] == self.entries@[b] && b0 != i;
                        if a0 != b0 {
                        } else {
                            // two distinct positions mapped to one source is
                            // impossible for a removal
                            if a < i && b < i {
                                assert(prev[a] == self.entries@[a] && prev[b] == self.entries@[b]);
                                assert(!spec_descriptor_eq(
                                    prev[a].descriptor,
                                    prev[b].descriptor,
                                ));
                            } else if a < i {
                                assert(prev[a] == self.entries@[a] && prev[b + 1]
                                    == self.entries@[b]);
                                assert(!spec_descriptor_eq(
                                    prev[a].descriptor,
                                    prev[b + 1].descriptor,
                                ));
                            } else if b < i {
                                assert(prev[a + 1] == self.entries@[a] && prev[b]
                                    == self.entries@[b]);
                                assert(!spec_descriptor_eq(
                                    prev[a + 1].descriptor,
                                    prev[b].descriptor,
                                ));
                            } else {
                                assert(prev[a + 1] == self.entries@[a] && prev[b + 1]
                                    == self.entries@[b]);
                                assert(!spec_descriptor_eq(
                                    prev[a + 1].descriptor,
                                    prev[b + 1].descriptor,
                                ));
                            }
                        }
                    }
                }
                return Some(id);
            }
            i += 1;
        }
        None
    }

    /// The descriptors that would block a new outbound connection from
    /// `local_addr`: exactly the table rows whose descriptor collides, in
    /// table order. These are the connections the manager evicts before
    /// retrying the connect.
    pub fn find_colliding_descriptors(
        &self,
        remote_addr: &SocketAddress,
        local_addr: &SocketAddress,
    ) -> (r: Vec<ConnectionDescriptor>)
        ensures
            forall|x: int|
                0 <= x < r@.len() ==> spec_table_has_descriptor(self.entries@, #[trigger] r@[x])
                    && spec_collides(r@[x], *remote_addr, *local_addr),
            forall|i: int|
                0 <= i < self.entries@.len() && spec_collides(
                    (#[trigger] self.entries@[i]).descriptor,
                    *remote_addr,
                    *local_addr,
                ) ==> (exists|x: int|
                    0 <= x < r@.len() && spec_descriptor_eq(
                        #[trigger] r@[x],
                        self.entries@[i].descriptor,
                    )),
    {
        let mut r: Vec<ConnectionDescriptor> = Vec::new();
        let mut i: usize = 0;
        while i < self.entries.len()
            invariant
                i <= self.entries@.len(),
                forall|x: int|
                    0 <= x < r@.len() ==> spec_table_has_descriptor(self.entries@, #[trigger] r@[x])
                        && spec_collides(r@[x], *remote_addr, *local_addr),
                forall|j: int|
                    0 <= j < i && spec_collides(
                        (#[trigger] self.entries@[j]).descriptor,
                        *remote_addr,
                        *local_addr,
                    ) ==> (exists|x: int|
                        0 <= x < r@.len() && spec_descriptor_eq(
                            #[trigger] r@[x],
                            self.entries@[j].descriptor,
                        )),
            decreases self.entries@.len() - i,
        {
            let d = self.entries[i].descriptor;
            let ordered = d.remote.protocol_type.is_ordered();
            let mut hit = false;
            if ordered && sockaddr_eq(&d.remote.socket_address, remote_addr) {
                match d.local {
                    Some(l) => {
                        if l.port == local_addr.port && (l.address.is_unspecified()
                            || local_addr.address.is_unspecified() || addr_eq(
                            &l.address,
                            &local_addr.address,
                        )) {
                            hit = true;
                        }
                    },
                    None => {},
                }
            }
            proof {
                assert(hit == spec_collides(
                    self.entries@[i as int].descriptor,
                    *remote_addr,
                    *local_addr,
                ));
            }
            if hit {
                let ghost prevr = r@;
                r.push(d);
                proof {
                    lemma_descriptor_eq_refl(d);
                    assert forall|x: int| 0 <= x < r@.len() implies spec_table_has_descriptor(
                        self.entries@,
                        #[trigger] r@[x],
                    ) && spec_collides(r@[x], *remote_addr, *local_addr) by {
                        if x < prevr.len() {
                            assert(r@[x] == prevr[x]);
                        } else {
                            assert(spec_descriptor_eq(r@[x], self.entries@[i as int].descriptor));
                        }
                    }
                    assert forall|j: int|
                        0 <= j < i + 1 && spec_collides(
                            (#[trigger] self.entries@[j]).descriptor,
                            *remote_addr,
                            *local_addr,
                        ) implies (exists|x: int|
                        0 <= x < r@.len() && spec_descriptor_eq(
                            #[trigger] r@[x],
                            self.entries@[j].descriptor,
                        )) by {
                        if j < i {
                            let x = choose|x: int|
                                0 <= x < prevr.len() && spec_descriptor_eq(
                                    #[trigger] prevr[x],
                                    self.entries@[j].descriptor,
                                );
                            assert(r@[x] == prevr[x]);
                        } else {
                            assert(spec_descriptor_eq(
                                r@[r@.len() - 1],
                                self.entries@[i as int].descriptor,
                            ));
                        }
                    }
                }
            }
            i += 1;
        }
        r
    }
}

fn addr_eq(a: &Address, b: &Address) -> (r: bool)
    ensures
        r == spec_addr_eq(*a, *b),
{
    let e = *a == *b;
    proof {
        match (a, b) {
            (Address::IPV4(x), Address::IPV4(y)) => {
                if !e && x.octets@ == y.octets@ {
                    assert(x.octets =~= y.octets);
                    assert(*a =~= *b);
                }
            },
            (Address::IPV6(x), Address::IPV6(y)) => {
                if !e && x.octets@ == y.octets@ {
                    assert(x.octets =~= y.octets);
                    assert(*a =~= *b);
                }
            },
            _ => {},
        }
    }
    e
}

fn sockaddr_eq(a: &SocketAddress, b: &SocketAddress) -> (r: bool)
    ensures
        r == spec_sockaddr_eq(*a, *b),
{
    addr_eq(&a.address, &b.address) && a.port == b.port
}

fn peer_addr_eq(a: &PeerAddress, b: &PeerAddress) -> (r: bool)
    ensures
        r == spec_peer_addr_eq(*a, *b),
{
    a.protocol_type == b.protocol_type && sockaddr_eq(&a.socket_address, &b.socket_address)
}

fn descriptor_eq(a: &ConnectionDescriptor, b: &ConnectionDescriptor) -> (r: bool)
    ensures
        r == spec_descriptor_eq(*a, *b),
{
    if !peer_addr_eq(&a.remote, &b.remote) {
        return false;
    }
    match (&a.local, &b.local) {
        (Some(x), Some(y)) => sockaddr_eq(x, y),
        (None, None) => true,
        _ => false,
    }
}

proof fn lemma_descriptor_eq_refl(a: ConnectionDescriptor)
    ensures
        spec_descriptor_eq(a, a),
{
}

proof fn lemma_descriptor_eq_sym(a: ConnectionDescriptor, b: ConnectionDescriptor)
    ensures
        spec_descriptor_eq(a, b) == spec_descriptor_eq(b, a),
{
}

/// Descriptor equality carries across an equal target.
proof fn lemma_descriptor_eq_trans_target(
    a: ConnectionDescriptor,
    b: ConnectionDescriptor,
    c: ConnectionDescriptor,
)
    requires
        !spec_descriptor_eq(a, b),
        spec_descriptor_eq(b, c),
    ensures
        !spec_descriptor_eq(a, c),
{
}


/// How to satisfy a request for a connection to a remote: reuse any live
/// connection to that remote, or connect anew, evicting the connections
/// that would collide with the requested local address and retrying twice
/// when something had to be evicted.
#[derive(Debug)]
pub enum ConnectionPlan {
    /// A connection to this remote already exists: use it.
    UseExisting(u64),
    /// Connect anew after evicting these, with this many retries on failure.
    Connect { evict: Vec<ConnectionDescriptor>, retry_count: u8 },
}

impl ConnectionTable {
    /// Decide how to get or create a connection to `remote`, optionally from
    /// a fixed local address.
    pub fn plan_connection(&self, local: Option<SocketAddress>, remote: &PeerAddress) -> (r:
        ConnectionPlan)
        ensures
            r matches ConnectionPlan::UseExisting(id) ==> (exists|i: int|
                0 <= i < self.entries@.len() && spec_peer_addr_eq(
                    (#[trigger] self.entries@[i]).descriptor.remote,
                    *remote,
                ) && self.entries@[i].connection_id == id),
            r matches ConnectionPlan::Connect { evict, retry_count } ==> {
                &&& (forall|i: int|
                    0 <= i < self.entries@.len() ==> !spec_peer_addr_eq(
                        (#[trigger] self.entries@[i]).descriptor.remote,
                        *remote,
                    ))
                &&& (forall|x: int|
                    0 <= x < evict@.len() ==> spec_table_has_descriptor(
                        self.entries@,
                        #[trigger] evict@[x],
                    ))
                &&& retry_count == if evict@.len() > 0 {
                    2u8
                } else {
                    0u8
                }
                &&& (local is None ==> evict@.len() == 0)
            },
    {
        if let Some(id) = self.get_last_connection_by_remote(remote) {
            return ConnectionPlan::UseExisting(id);
        }
        let evict: Vec<ConnectionDescriptor> = match local {
            Some(la) => {
                if la.port != 0 {
                    self.find_colliding_descriptors(&remote.socket_address, &la)
                } else {
                    Vec::new()
                }
            },
            None => Vec::new(),
        };
        let retry_count: u8 = if evict.len() > 0 {
            2
        } else {
            0
        };
        ConnectionPlan::Connect { evict, retry_count }
    }
}


/// What a running connection loop just observed.
#[derive(Clone, Copy, Debug, PartialEq, Eq, Structural)]
pub enum ConnectionEvent {
    /// A frame arrived from the wire.
    FrameReceived,
    /// The mailbox handed us a message to send.
    SendRequested,
    /// Receiving failed.
    RecvFailed,
    /// Sending failed.
    SendFailed,
    /// The inactivity deadline passed.
    TimerExpired,
    /// A local or manager stop was requested.
    StopRequested,
}

/// What the connection loop does next.
#[derive(Clone, Copy, Debug, PartialEq, Eq, Structural)]
pub enum ConnectionStep {
    /// Keep running; the inactivity deadline is now this timestamp.
    Continue { deadline: u64 },
    /// Leave the loop and deregister the connection.
    Exit,
}

/// One turn of the per-connection loop, as a decision over plain values: a
/// received frame re-arms the inactivity timer, a send does not, and any
/// failure, timeout or stop ends the loop.
pub fn connection_loop_step(
    event: ConnectionEvent,
    cur_ts: u64,
    deadline: u64,
    inactivity_timeout_us: u64,
) -> (r: ConnectionStep)
    requires
        cur_ts + inactivity_timeout_us <= u64::MAX,
    ensures
        event == ConnectionEvent::FrameReceived ==> r == (ConnectionStep::Continue {
            deadline: (cur_ts + inactivity_timeout_us) as u64,
        }),
        event == ConnectionEvent::SendRequested ==> r == (ConnectionStep::Continue { deadline }),
        (event == ConnectionEvent::RecvFailed || event == ConnectionEvent::SendFailed || event
            == ConnectionEvent::TimerExpired || event == ConnectionEvent::StopRequested) ==> r
            == ConnectionStep::Exit,
{
    match event {
        ConnectionEvent::FrameReceived => ConnectionStep::Continue {
            deadline: cur_ts + inactivity_timeout_us,
        },
        ConnectionEvent::SendRequested => ConnectionStep::Continue { deadline },
        ConnectionEvent::RecvFailed | ConnectionEvent::SendFailed | ConnectionEvent::TimerExpired
            | ConnectionEvent::StopRequested => ConnectionStep::Exit,
    }
}

} // verus!
