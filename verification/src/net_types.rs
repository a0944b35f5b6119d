//! Network-facing value types: protocols, address types and their sets,
//! socket addresses, dial info, connection descriptors and dial-info
//! filters.

use vstd::prelude::*;
use crate::address_filter::{Ipv4Addr, Ipv6Addr};

verus! {

/// A transport protocol the overlay can dial.
#[derive(Clone, Copy, Debug, PartialEq, Eq, Structural)]
pub enum ProtocolType {
    UDP,
    TCP,
    WS,
    WSS,
}

impl ProtocolType {
    /// Whether the protocol delivers a stream in order (is connection
    /// oriented).
    pub fn is_ordered(&self) -> (r: bool)
        ensures
            r == (*self != ProtocolType::UDP),
    {
        match self {
            ProtocolType::UDP => false,
            _ => true,
        }
    }
}

/// A set of transport protocols.
#[derive(Clone, Copy, Debug, PartialEq, Eq, Structural)]
pub struct ProtocolTypeSet {
    pub udp: bool,
    pub tcp: bool,
    pub ws: bool,
    pub wss: bool,
}

impl ProtocolTypeSet {
    pub open spec fn spec_contains(&self, pt: ProtocolType) -> bool {
        match pt {
            ProtocolType::UDP => self.udp,
            ProtocolType::TCP => self.tcp,
            ProtocolType::WS => self.ws,
            ProtocolType::WSS => self.wss,
        }
    }

    pub fn all() -> (r: Self)
        ensures
            r == (ProtocolTypeSet { udp: true, tcp: true, ws: true, wss: true }),
    {
        ProtocolTypeSet { udp: true, tcp: true, ws: true, wss: true }
    }

    pub fn empty() -> (r: Self)
        ensures
            r == (ProtocolTypeSet { udp: false, tcp: false, ws: false, wss: false }),
    {
        ProtocolTypeSet { udp: false, tcp: false, ws: false, wss: false }
    }

    /// The set holding exactly one protocol.
    pub fn only(pt: ProtocolType) -> (r: Self)
        ensures
            forall|q: ProtocolType| r.spec_contains(q) == (q == pt),
    {
        ProtocolTypeSet {
            udp: matches!(pt, ProtocolType::UDP),
            tcp: matches!(pt, ProtocolType::TCP),
            ws: matches!(pt, ProtocolType::WS),
            wss: matches!(pt, ProtocolType::WSS),
        }
    }

    pub fn contains(&self, pt: ProtocolType) -> (r: bool)
        ensures
            r == self.spec_contains(pt),
    {
        match pt {
            ProtocolType::UDP => self.udp,
            ProtocolType::TCP => self.tcp,
            ProtocolType::WS => self.ws,
            ProtocolType::WSS => self.wss,
        }
    }

    /// Set intersection.
    pub fn intersect(&self, other: &Self) -> (r: Self)
        ensures
            forall|q: ProtocolType|
                r.spec_contains(q) == (self.spec_contains(q) && other.spec_contains(q)),
    {
        ProtocolTypeSet {
            udp: self.udp && other.udp,
            tcp: self.tcp && other.tcp,
            ws: self.ws && other.ws,
            wss: self.wss && other.wss,
        }
    }

    pub fn is_empty(&self) -> (r: bool)
        ensures
            r == (!self.udp && !self.tcp && !self.ws && !self.wss),
    {
        !self.udp && !self.tcp && !self.ws && !self.wss
    }
}

/// An address family.
#[derive(Clone, Copy, Debug, PartialEq, Eq, Structural)]
pub enum AddressType {
    IPV4,
    IPV6,
}

/// A set of address families.
#[derive(Clone, Copy, Debug, PartialEq, Eq, Structural)]
pub struct AddressTypeSet {
    pub ipv4: bool,
    pub ipv6: bool,
}

impl AddressTypeSet {
    pub open spec fn spec_contains(&self, at: AddressType) -> bool {
        match at {
            AddressType::IPV4 => self.ipv4,
            AddressType::IPV6 => self.ipv6,
        }
    }

    pub fn all() -> (r: Self)
        ensures
            r == (AddressTypeSet { ipv4: true, ipv6: true }),
    {
        AddressTypeSet { ipv4: true, ipv6: true }
    }

    pub fn empty() -> (r: Self)
        ensures
            r == (AddressTypeSet { ipv4: false, ipv6: false }),
    {
        AddressTypeSet { ipv4: false, ipv6: false }
    }

    pub fn only(at: AddressType) -> (r: Self)
        ensures
            forall|q: AddressType| r.spec_contains(q) == (q == at),
    {
        AddressTypeSet {
            ipv4: matches!(at, AddressType::IPV4),
            ipv6: matches!(at, AddressType::IPV6),
        }
    }

    pub fn contains(&self, at: AddressType) -> (r: bool)
        ensures
            r == self.spec_contains(at),
    {
        match at {
            AddressType::IPV4 => self.ipv4,
            AddressType::IPV6 => self.ipv6,
        }
    }

    pub fn intersect(&self, other: &Self) -> (r: Self)
        ensures
            forall|q: AddressType|
                r.spec_contains(q) == (self.spec_contains(q) && other.spec_contains(q)),
    {
        AddressTypeSet { ipv4: self.ipv4 && other.ipv4, ipv6: self.ipv6 && other.ipv6 }
    }

    pub fn is_empty(&self) -> (r: bool)
        ensures
            r == (!self.ipv4 && !self.ipv6),
    {
        !self.ipv4 && !self.ipv6
    }
}

/// An IP address of either family.
#[derive(Clone, Copy, Debug)]
pub enum Address {
    IPV4(Ipv4Addr),
    IPV6(Ipv6Addr),
}

impl PartialEq for Address {
    fn eq(&self, other: &Address) -> (r: bool) {
        match (self, other) {
            (Address::IPV4(a), Address::IPV4(b)) => {
                let mut i: usize = 0;
                while i < 4
                    invariant
                        i <= 4,
                        *self == Address::IPV4(*a),
                        *other == Address::IPV4(*b),
                        forall|j: int| 0 <= j < i ==> a.octets@[j] == b.octets@[j],
                    decreases 4 - i,
                {
                    if a.octets[i] != b.octets[i] {
                        proof {
                            assert(a.octets@ != b.octets@) by {
                                if a.octets@ == b.octets@ {
                                    assert(a.octets@[i as int] == b.octets@[i as int]);
                                }
                            }
                        }
                        return false;
                    }
                    i += 1;
                }
                proof {
                    assert(a.octets =~= b.octets);
                }
                true
            },
            (Address::IPV6(a), Address::IPV6(b)) => {
                let mut i: usize = 0;
                while i < 16
                    invariant
                        i <= 16,
                        *self == Address::IPV6(*a),
                        *other == Address::IPV6(*b),
                        forall|j: int| 0 <= j < i ==> a.octets@[j] == b.octets@[j],
                    decreases 16 - i,
                {
                    if a.octets[i] != b.octets[i] {
                        proof {
                            assert(a.octets@ != b.octets@) by {
                                if a.octets@ == b.octets@ {
                                    assert(a.octets@[i as int] == b.octets@[i as int]);
                                }
                            }
                        }
                        return false;
                    }
                    i += 1;
                }
                proof {
                    assert(a.octets =~= b.octets);
                }
                true
            },
            _ => false,
        }
    }
}

impl vstd::std_specs::cmp::PartialEqSpecImpl for Address {
    open spec fn obeys_eq_spec() -> bool {
        true
    }

    open spec fn eq_spec(&self, other: &Address) -> bool {
        match (self, other) {
            (Address::IPV4(a), Address::IPV4(b)) => a.octets@ == b.octets@,
            (Address::IPV6(a), Address::IPV6(b)) => a.octets@ == b.octets@,
            _ => false,
        }
    }
}

impl Eq for Address {}

impl Address {
    pub fn address_type(&self) -> (r: AddressType)
        ensures
            r == self.spec_address_type(),
    {
        match self {
            Address::IPV4(_) => AddressType::IPV4,
            Address::IPV6(_) => AddressType::IPV6,
        }
    }

    pub open spec fn spec_address_type(&self) -> AddressType {
        match self {
            Address::IPV4(_) => AddressType::IPV4,
            Address::IPV6(_) => AddressType::IPV6,
        }
    }

    pub open spec fn spec_is_unspecified(&self) -> bool {
        match self {
            Address::IPV4(a) => a.octets@ == Seq::new(4, |j: int| 0u8),
            Address::IPV6(a) => a.octets@ == Seq::new(16, |j: int| 0u8),
        }
    }

    /// Whether the address is the all-zero (unspecified) address of its
    /// family.
    pub fn is_unspecified(&self) -> (r: bool)
        ensures
            r == self.spec_is_unspecified(),
    {
        match self {
            Address::IPV4(a) => {
                let mut i: usize = 0;
                while i < 4
                    invariant
                        i <= 4,
                        *self == Address::IPV4(*a),
                        forall|j: int| 0 <= j < i ==> a.octets@[j] == 0,
                    decreases 4 - i,
                {
                    if a.octets[i] != 0 {
                        proof {
                            assert(a.octets@ != Seq::new(4, |j: int| 0u8)) by {
                                if a.octets@ == Seq::new(4, |j: int| 0u8) {
                                    assert(a.octets@[i as int] == 0);
                                }
                            }
                        }
                        return false;
                    }
                    i += 1;
                }
                proof {
                    assert(a.octets@ =~= Seq::new(4, |j: int| 0u8));
                }
                true
            },
            Address::IPV6(a) => {
                let mut i: usize = 0;
                while i < 16
                    invariant
                        i <= 16,
                        *self == Address::IPV6(*a),
                        forall|j: int| 0 <= j < i ==> a.octets@[j] == 0,
                    decreases 16 - i,
                {
                    if a.octets[i] != 0 {
                        proof {
                            assert(a.octets@ != Seq::new(16, |j: int| 0u8)) by {
                                if a.octets@ == Seq::new(16, |j: int| 0u8) {
                                    assert(a.octets@[i as int] == 0);
                                }
                            }
                        }
                        return false;
                    }
                    i += 1;
                }
                proof {
                    assert(a.octets@ =~= Seq::new(16, |j: int| 0u8));
                }
                true
            },
        }
    }

    /// Whether these sixteen octets spell an IPv4 address mapped into IPv6.
    pub open spec fn spec_is_v4_mapped(o: Seq<u8>) -> bool {
        (forall|j: int| 0 <= j < 10 ==> o[j] == 0) && o[10] == 0xff && o[11] == 0xff
    }

    /// The canonical form of an address: an IPv4 address mapped into IPv6
    /// becomes the IPv4 address itself, so both spellings of one endpoint
    /// compare equal; everything else is unchanged.
    pub fn to_canonical(&self) -> (r: Address)
        ensures
            match *self {
                Address::IPV6(x) => if Address::spec_is_v4_mapped(x.octets@) {
                    r matches Address::IPV4(y) && y.octets@ == x.octets@.subrange(12, 16)
                } else {
                    r == *self
                },
                Address::IPV4(_) => r == *self,
            },
    {
        match self {
            Address::IPV4(_) => *self,
            Address::IPV6(x) => {
                let mut zeros = true;
                let mut j: usize = 0;
                while j < 10
                    invariant
                        j <= 10,
                        zeros == (forall|t: int| 0 <= t < j ==> x.octets@[t] == 0),
                    decreases 10 - j,
                {
                    if x.octets[j] != 0 {
                        proof {
                            assert(x.octets@[j as int] != 0);
                        }
                        zeros = false;
                    }
                    j += 1;
                }
                if zeros && x.octets[10] == 0xff && x.octets[11] == 0xff {
                    let four = Ipv4Addr {
                        octets: [x.octets[12], x.octets[13], x.octets[14], x.octets[15]],
                    };
                    proof {
                        assert(four.octets@ =~= x.octets@.subrange(12, 16));
                    }
                    Address::IPV4(four)
                } else {
                    proof {
                        assert(!Address::spec_is_v4_mapped(x.octets@));
                    }
                    *self
                }
            },
        }
    }

    /// The address as an `IpAddress` for the address filter.
    pub fn to_ip_address(&self) -> (r: crate::address_filter::IpAddress)
        ensures
            (self matches Address::IPV4(a) ==> (r matches crate::address_filter::IpAddress::V4(b)
                && b.octets@ == a.octets@)),
            (self matches Address::IPV6(a) ==> (r matches crate::address_filter::IpAddress::V6(b)
                && b.octets@ == a.octets@)),
    {
        match self {
            Address::IPV4(a) => crate::address_filter::IpAddress::V4(*a),
            Address::IPV6(a) => crate::address_filter::IpAddress::V6(*a),
        }
    }
}

/// An IP address together with a port.
#[derive(Clone, Copy, Debug)]
pub struct SocketAddress {
    pub address: Address,
    pub port: u16,
}

impl PartialEq for SocketAddress {
    fn eq(&self, other: &SocketAddress) -> (r: bool) {
        self.address == other.address && self.port == other.port
    }
}

impl vstd::std_specs::cmp::PartialEqSpecImpl for SocketAddress {
    open spec fn obeys_eq_spec() -> bool {
        true
    }

    open spec fn eq_spec(&self, other: &SocketAddress) -> bool {
        vstd::std_specs::cmp::PartialEqSpec::eq_spec(&self.address, &other.address)
            && self.port == other.port
    }
}

impl Eq for SocketAddress {}

impl SocketAddress {
    pub fn new(address: Address, port: u16) -> (r: SocketAddress)
        ensures
            r.address == address,
            r.port == port,
    {
        SocketAddress { address, port }
    }

    pub fn address(&self) -> (r: Address)
        ensures
            r == self.address,
    {
        self.address
    }

    pub fn port(&self) -> (r: u16)
        ensures
            r == self.port,
    {
        self.port
    }

    pub fn address_type(&self) -> (r: AddressType)
        ensures
            r == self.address.spec_address_type(),
    {
        self.address.address_type()
    }
}

/// A remote endpoint: a socket address under a given protocol.
#[derive(Clone, Copy, Debug)]
pub struct PeerAddress {
    pub protocol_type: ProtocolType,
    pub socket_address: SocketAddress,
}

impl PartialEq for PeerAddress {
    fn eq(&self, other: &PeerAddress) -> (r: bool) {
        self.protocol_type == other.protocol_type && self.socket_address == other.socket_address
    }
}

impl vstd::std_specs::cmp::PartialEqSpecImpl for PeerAddress {
    open spec fn obeys_eq_spec() -> bool {
        true
    }

    open spec fn eq_spec(&self, other: &PeerAddress) -> bool {
        self.protocol_type == other.protocol_type
            && vstd::std_specs::cmp::PartialEqSpec::eq_spec(
            &self.socket_address,
            &other.socket_address,
        )
    }
}

impl Eq for PeerAddress {}

impl PeerAddress {
    /// Build a peer address, canonicalizing the socket address so that an
    /// IPv4 endpoint spelled as a mapped IPv6 address equals its plain IPv4
    /// spelling.
    pub fn new(socket_address: SocketAddress, protocol_type: ProtocolType) -> (r: PeerAddress)
        ensures
            r.protocol_type == protocol_type,
            r.socket_address.port == socket_address.port,
            match socket_address.address {
                Address::IPV6(x) => if Address::spec_is_v4_mapped(x.octets@) {
                    r.socket_address.address matches Address::IPV4(y) && y.octets@
                        == x.octets@.subrange(12, 16)
                } else {
                    r.socket_address.address == socket_address.address
                },
                Address::IPV4(_) => r.socket_address.address == socket_address.address,
            },
    {
        PeerAddress {
            protocol_type,
            socket_address: SocketAddress {
                address: socket_address.address.to_canonical(),
                port: socket_address.port,
            },
        }
    }

    pub fn socket_address(&self) -> (r: &SocketAddress)
        ensures
            r == self.socket_address,
    {
        &self.socket_address
    }

    pub fn protocol_type(&self) -> (r: ProtocolType)
        ensures
            r == self.protocol_type,
    {
        self.protocol_type
    }

    /// The bare socket address, without the protocol.
    pub fn to_socket_addr(&self) -> (r: SocketAddress)
        ensures
            r == self.socket_address,
    {
        self.socket_address
    }

    pub fn address_type(&self) -> (r: AddressType)
        ensures
            r == self.socket_address.address.spec_address_type(),
    {
        self.socket_address.address_type()
    }
}

/// A filter over dial info: which protocols and address families are
/// acceptable.
#[derive(Clone, Copy, Debug, PartialEq, Eq, Structural)]
pub struct DialInfoFilter {
    pub protocol_type_set: ProtocolTypeSet,
    pub address_type_set: AddressTypeSet,
}

impl DialInfoFilter {
    /// The filter that accepts everything.
    pub fn all() -> (r: Self)
        ensures
            r.protocol_type_set == ProtocolTypeSet::spec_all(),
            r.address_type_set == AddressTypeSet::spec_all(),
    {
        DialInfoFilter {
            protocol_type_set: ProtocolTypeSet::all(),
            address_type_set: AddressTypeSet::all(),
        }
    }

    /// Restrict to exactly one protocol.
    pub fn with_protocol_type(self, protocol_type: ProtocolType) -> (r: Self)
        ensures
            forall|q: ProtocolType| r.protocol_type_set.spec_contains(q) == (q == protocol_type),
            r.address_type_set == self.address_type_set,
    {
        DialInfoFilter {
            protocol_type_set: ProtocolTypeSet::only(protocol_type),
            address_type_set: self.address_type_set,
        }
    }

    /// Restrict to a protocol set.
    pub fn with_protocol_type_set(self, protocol_set: ProtocolTypeSet) -> (r: Self)
        ensures
            r.protocol_type_set == protocol_set,
            r.address_type_set == self.address_type_set,
    {
        DialInfoFilter { protocol_type_set: protocol_set, address_type_set: self.address_type_set }
    }

    /// Restrict to exactly one address family.
    pub fn with_address_type(self, address_type: AddressType) -> (r: Self)
        ensures
            forall|q: AddressType| r.address_type_set.spec_contains(q) == (q == address_type),
            r.protocol_type_set == self.protocol_type_set,
    {
        DialInfoFilter {
            protocol_type_set: self.protocol_type_set,
            address_type_set: AddressTypeSet::only(address_type),
        }
    }

    /// Restrict to an address-family set.
    pub fn with_address_type_set(self, address_set: AddressTypeSet) -> (r: Self)
        ensures
            r.address_type_set == address_set,
            r.protocol_type_set == self.protocol_type_set,
    {
        DialInfoFilter { protocol_type_set: self.protocol_type_set, address_type_set: address_set }
    }

    /// Intersect with another filter.
    pub fn filtered(self, other_dif: &DialInfoFilter) -> (r: Self)
        ensures
            forall|q: ProtocolType|
                r.protocol_type_set.spec_contains(q) == (self.protocol_type_set.spec_contains(q)
                    && other_dif.protocol_type_set.spec_contains(q)),
            forall|q: AddressType|
                r.address_type_set.spec_contains(q) == (self.address_type_set.spec_contains(q)
                    && other_dif.address_type_set.spec_contains(q)),
    {
        DialInfoFilter {
            protocol_type_set: self.protocol_type_set.intersect(&other_dif.protocol_type_set),
            address_type_set: self.address_type_set.intersect(&other_dif.address_type_set),
        }
    }

    /// A filter that can never match anything.
    pub fn is_dead(&self) -> (r: bool)
        ensures
            r == (self.protocol_type_set == ProtocolTypeSet::spec_empty()
                || self.address_type_set == AddressTypeSet::spec_empty()),
    {
        self.protocol_type_set.is_empty() || self.address_type_set.is_empty()
    }
}

impl ProtocolTypeSet {
    pub open spec fn spec_all() -> ProtocolTypeSet {
        ProtocolTypeSet { udp: true, tcp: true, ws: true, wss: true }
    }

    pub open spec fn spec_empty() -> ProtocolTypeSet {
        ProtocolTypeSet { udp: false, tcp: false, ws: false, wss: false }
    }
}

impl AddressTypeSet {
    pub open spec fn spec_all() -> AddressTypeSet {
        AddressTypeSet { ipv4: true, ipv6: true }
    }

    pub open spec fn spec_empty() -> AddressTypeSet {
        AddressTypeSet { ipv4: false, ipv6: false }
    }
}

/// Things a dial-info filter can accept or reject.
pub trait MatchesDialInfoFilter {
    fn matches_filter(&self, filter: &DialInfoFilter) -> bool;
}

/// The 5-tuple of an established connection: the remote peer address and,
/// for connection-oriented protocols, the local socket address.
#[derive(Clone, Copy, Debug)]
pub struct ConnectionDescriptor {
    pub remote: PeerAddress,
    pub local: Option<SocketAddress>,
}

impl PartialEq for ConnectionDescriptor {
    fn eq(&self, other: &ConnectionDescriptor) -> (r: bool) {
        if !(self.remote == other.remote) {
            return false;
        }
        match (&self.local, &other.local) {
            (Some(a), Some(b)) => *a == *b,
            (None, None) => true,
            _ => false,
        }
    }
}

impl vstd::std_specs::cmp::PartialEqSpecImpl for ConnectionDescriptor {
    open spec fn obeys_eq_spec() -> bool {
        true
    }

    open spec fn eq_spec(&self, other: &ConnectionDescriptor) -> bool {
        vstd::std_specs::cmp::PartialEqSpec::eq_spec(&self.remote, &other.remote) && match (
            self.local,
            other.local,
        ) {
            (Some(a), Some(b)) => vstd::std_specs::cmp::PartialEqSpec::eq_spec(&a, &b),
            (None, None) => true,
            _ => false,
        }
    }
}

impl Eq for ConnectionDescriptor {}

impl ConnectionDescriptor {
    /// A descriptor with a known local address. For connection-oriented
    /// protocols the local address must be a real (specified) address.
    pub fn new(remote: PeerAddress, local: SocketAddress) -> (r: Self)
        requires
            remote.protocol_type != ProtocolType::UDP ==> !local.address.spec_is_unspecified(),
        ensures
            r.remote == remote,
            r.local == Some(local),
    {
        ConnectionDescriptor { remote, local: Some(local) }
    }

    /// A descriptor for a medium with no local address.
    pub fn new_no_local(remote: PeerAddress) -> (r: Self)
        ensures
            r.remote == remote,
            r.local is None,
    {
        ConnectionDescriptor { remote, local: None }
    }

    pub fn remote(&self) -> (r: PeerAddress)
        ensures
            r == self.remote,
    {
        self.remote
    }

    pub fn remote_address(&self) -> (r: &SocketAddress)
        ensures
            r == self.remote.socket_address,
    {
        &self.remote.socket_address
    }

    pub fn local(&self) -> (r: Option<SocketAddress>)
        ensures
            r == self.local,
    {
        self.local
    }

    pub fn protocol_type(&self) -> (r: ProtocolType)
        ensures
            r == self.remote.protocol_type,
    {
        self.remote.protocol_type
    }

    pub fn address_type(&self) -> (r: AddressType)
        ensures
            r == self.remote.socket_address.address.spec_address_type(),
    {
        self.remote.address_type()
    }

    /// The filter that matches exactly this connection's protocol and
    /// address family.
    pub fn make_dial_info_filter(&self) -> (r: DialInfoFilter)
        ensures
            forall|q: ProtocolType|
                r.protocol_type_set.spec_contains(q) == (q == self.remote.protocol_type),
            forall|q: AddressType|
                r.address_type_set.spec_contains(q) == (q
                    == self.remote.socket_address.address.spec_address_type()),
    {
        DialInfoFilter::all().with_protocol_type(self.protocol_type()).with_address_type(
            self.address_type(),
        )
    }
}

impl MatchesDialInfoFilter for ConnectionDescriptor {
    fn matches_filter(&self, filter: &DialInfoFilter) -> (r: bool)
        ensures
            r == (filter.protocol_type_set.spec_contains(self.remote.protocol_type)
                && filter.address_type_set.spec_contains(
                self.remote.socket_address.address.spec_address_type(),
            )),
    {
        if !filter.protocol_type_set.contains(self.protocol_type()) {
            return false;
        }
        if !filter.address_type_set.contains(self.address_type()) {
            return false;
        }
        true
    }
}

/// How directly a dial info can be reached, best first.
#[derive(Clone, Copy, Debug, PartialEq, Eq, Structural)]
pub enum DialInfoClass {
    /// Reachable directly at the advertised address.
    Direct,
    /// Reachable at a port-mapped address.
    Mapped,
    /// Reachable through a full-cone NAT.
    FullConeNAT,
    /// Inbound blocked entirely; a relay is required.
    Blocked,
    /// Reachable only after outbound contact to the same address.
    AddressRestrictedNAT,
    /// Reachable only after outbound contact to the same address and port.
    PortRestrictedNAT,
}

impl DialInfoClass {
    /// Whether inbound contact needs a relay.
    pub fn requires_relay(&self) -> (r: bool)
        ensures
            r == (*self == DialInfoClass::Blocked),
    {
        matches!(self, DialInfoClass::Blocked)
    }

    /// Whether inbound contact needs a signal (hole punch) first.
    pub fn requires_signal(&self) -> (r: bool)
        ensures
            r == (*self == DialInfoClass::FullConeNAT || *self
                == DialInfoClass::AddressRestrictedNAT || *self
                == DialInfoClass::PortRestrictedNAT),
    {
        matches!(
            self,
            DialInfoClass::FullConeNAT | DialInfoClass::AddressRestrictedNAT
                | DialInfoClass::PortRestrictedNAT
        )
    }
}

/// One way to reach a node: a protocol, an address, and for WebSocket
/// transports a request path.
#[derive(Debug)]
pub enum DialInfo {
    UDP { socket_address: SocketAddress },
    TCP { socket_address: SocketAddress },
    WS { socket_address: SocketAddress, request: String },
    WSS { socket_address: SocketAddress, request: String },
}

impl Clone for DialInfo {
    fn clone(&self) -> (r: Self)
        ensures
            r.spec_protocol_type() == self.spec_protocol_type(),
            r.spec_socket_address() == self.spec_socket_address(),
            r.spec_request() == self.spec_request(),
    {
        match self {
            DialInfo::UDP { socket_address } => DialInfo::UDP { socket_address: *socket_address },
            DialInfo::TCP { socket_address } => DialInfo::TCP { socket_address: *socket_address },
            DialInfo::WS { socket_address, request } => DialInfo::WS {
                socket_address: *socket_address,
                request: request.clone(),
            },
            DialInfo::WSS { socket_address, request } => DialInfo::WSS {
                socket_address: *socket_address,
                request: request.clone(),
            },
        }
    }
}

impl DialInfo {
    /// The request path, for the WebSocket transports; empty otherwise.
    pub open spec fn spec_request(&self) -> Seq<char> {
        match self {
            DialInfo::WS { request, .. } => request@,
            DialInfo::WSS { request, .. } => request@,
            _ => Seq::empty(),
        }
    }

    pub fn protocol_type(&self) -> (r: ProtocolType)
        ensures
            r == self.spec_protocol_type(),
    {
        match self {
            DialInfo::UDP { .. } => ProtocolType::UDP,
            DialInfo::TCP { .. } => ProtocolType::TCP,
            DialInfo::WS { .. } => ProtocolType::WS,
            DialInfo::WSS { .. } => ProtocolType::WSS,
        }
    }

    pub open spec fn spec_protocol_type(&self) -> ProtocolType {
        match self {
            DialInfo::UDP { .. } => ProtocolType::UDP,
            DialInfo::TCP { .. } => ProtocolType::TCP,
            DialInfo::WS { .. } => ProtocolType::WS,
            DialInfo::WSS { .. } => ProtocolType::WSS,
        }
    }

    pub open spec fn spec_socket_address(&self) -> SocketAddress {
        match self {
            DialInfo::UDP { socket_address } => *socket_address,
            DialInfo::TCP { socket_address } => *socket_address,
            DialInfo::WS { socket_address, .. } => *socket_address,
            DialInfo::WSS { socket_address, .. } => *socket_address,
        }
    }

    pub fn socket_address(&self) -> (r: SocketAddress)
        ensures
            r == self.spec_socket_address(),
    {
        match self {
            DialInfo::UDP { socket_address } => *socket_address,
            DialInfo::TCP { socket_address } => *socket_address,
            DialInfo::WS { socket_address, .. } => *socket_address,
            DialInfo::WSS { socket_address, .. } => *socket_address,
        }
    }

    pub fn address_type(&self) -> (r: AddressType)
        ensures
            r == self.spec_socket_address().address.spec_address_type(),
    {
        self.socket_address().address_type()
    }

    /// The remote endpoint this dial info names.
    pub fn to_peer_address(&self) -> (r: PeerAddress)
        ensures
            r.protocol_type == self.spec_protocol_type(),
            r.socket_address == self.spec_socket_address(),
    {
        PeerAddress { protocol_type: self.protocol_type(), socket_address: self.socket_address() }
    }
}

impl MatchesDialInfoFilter for DialInfo {
    fn matches_filter(&self, filter: &DialInfoFilter) -> (r: bool)
        ensures
            r == (filter.protocol_type_set.spec_contains(self.spec_protocol_type())
                && filter.address_type_set.spec_contains(
                self.spec_socket_address().address.spec_address_type(),
            )),
    {
        if !filter.protocol_type_set.contains(self.protocol_type()) {
            return false;
        }
        if !filter.address_type_set.contains(self.address_type()) {
            return false;
        }
        true
    }
}

/// A dial info together with how directly it can be reached.
#[derive(Debug)]
pub struct DialInfoDetail {
    pub class: DialInfoClass,
    pub dial_info: DialInfo,
}

impl Clone for DialInfoDetail {
    fn clone(&self) -> (r: Self)
        ensures
            r.class == self.class,
            r.dial_info.spec_protocol_type() == self.dial_info.spec_protocol_type(),
            r.dial_info.spec_socket_address() == self.dial_info.spec_socket_address(),
            r.dial_info.spec_request() == self.dial_info.spec_request(),
    {
        DialInfoDetail { class: self.class, dial_info: self.dial_info.clone() }
    }
}

impl MatchesDialInfoFilter for DialInfoDetail {
    fn matches_filter(&self, filter: &DialInfoFilter) -> (r: bool)
        ensures
            r == (filter.protocol_type_set.spec_contains(self.dial_info.spec_protocol_type())
                && filter.address_type_set.spec_contains(
                self.dial_info.spec_socket_address().address.spec_address_type(),
            )),
    {
        self.dial_info.matches_filter(filter)
    }
}

} // verus!
