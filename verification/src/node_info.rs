//! What a node advertises about itself in one routing domain: its network
//! class, reachable dial info, supported envelopes, crypto kinds and
//! capabilities.

use vstd::prelude::*;
use crate::crypto_types::{CryptoKind, FourCC};
use crate::net_types::{
    AddressTypeSet, DialInfoDetail, DialInfoFilter, MatchesDialInfoFilter, ProtocolTypeSet,
};

verus! {

/// A capability four-character code.
pub type Capability = FourCC;

/// Capability: route other nodes' traffic.
pub fn cap_route() -> (r: Capability)
    ensures
        r == FourCC(0x52, 0x4f, 0x55, 0x54),
{
    FourCC(0x52, 0x4f, 0x55, 0x54)
}

/// Capability: assist with signalling (hole punching).
pub fn cap_signal() -> (r: Capability)
    ensures
        r == FourCC(0x53, 0x47, 0x4e, 0x4c),
{
    FourCC(0x53, 0x47, 0x4e, 0x4c)
}

/// Capability: act as a relay.
pub fn cap_relay() -> (r: Capability)
    ensures
        r == FourCC(0x52, 0x4c, 0x41, 0x59),
{
    FourCC(0x52, 0x4c, 0x41, 0x59)
}

/// Capability: validate dial info for other nodes.
pub fn cap_validate_dial_info() -> (r: Capability)
    ensures
        r == FourCC(0x44, 0x49, 0x41, 0x4c),
{
    FourCC(0x44, 0x49, 0x41, 0x4c)
}

/// Capability: serve distributed-hash-table values.
pub fn cap_dht() -> (r: Capability)
    ensures
        r == FourCC(0x44, 0x48, 0x54, 0x56),
{
    FourCC(0x44, 0x48, 0x54, 0x56)
}

/// Capability: deliver application messages.
pub fn cap_appmessage() -> (r: Capability)
    ensures
        r == FourCC(0x41, 0x50, 0x50, 0x4d),
{
    FourCC(0x41, 0x50, 0x50, 0x4d)
}

/// How a node can participate in the network in one routing domain.
#[derive(Clone, Copy, Debug, PartialEq, Eq, Structural)]
pub enum NetworkClass {
    /// Accepts inbound connections on some dial info.
    InboundCapable,
    /// Can only dial out; needs a relay for inbound contact.
    OutboundOnly,
    /// A browser node: outbound WebSocket only.
    WebApp,
    /// Not classified yet.
    Invalid,
}

/// What a node advertises about itself in one routing domain.
#[derive(Clone, Debug)]
pub struct NodeInfo {
    pub network_class: NetworkClass,
    pub outbound_protocols: ProtocolTypeSet,
    pub address_types: AddressTypeSet,
    pub envelope_support: Vec<u8>,
    pub crypto_support: Vec<CryptoKind>,
    pub capabilities: Vec<Capability>,
    pub dial_info_detail_list: Vec<DialInfoDetail>,
}

/// Whether `caps` holds `cap`.
pub open spec fn spec_has_capability(caps: Seq<Capability>, cap: Capability) -> bool {
    exists|i: int| 0 <= i < caps.len() && caps[i] == cap
}

/// The dial-info details of `dids` that match `filter`, in their original
/// order.
pub open spec fn spec_filtered_details(
    dids: Seq<DialInfoDetail>,
    filter: DialInfoFilter,
) -> Seq<DialInfoDetail> {
    dids.filter(
        |did: DialInfoDetail|
            filter.protocol_type_set.spec_contains(did.dial_info.spec_protocol_type())
                && filter.address_type_set.spec_contains(
                did.dial_info.spec_socket_address().address.spec_address_type(),
            ),
    )
}

impl NodeInfo {
    pub fn new(
        network_class: NetworkClass,
        outbound_protocols: ProtocolTypeSet,
        address_types: AddressTypeSet,
        envelope_support: Vec<u8>,
        crypto_support: Vec<CryptoKind>,
        capabilities: Vec<Capability>,
        dial_info_detail_list: Vec<DialInfoDetail>,
    ) -> (r: Self)
        ensures
            r.network_class == network_class,
            r.outbound_protocols == outbound_protocols,
            r.address_types == address_types,
            r.envelope_support@ == envelope_support@,
            r.crypto_support@ == crypto_support@,
            r.capabilities@ == capabilities@,
            r.dial_info_detail_list@ == dial_info_detail_list@,
    {
        Self {
            network_class,
            outbound_protocols,
            address_types,
            envelope_support,
            crypto_support,
            capabilities,
            dial_info_detail_list,
        }
    }

    pub fn network_class(&self) -> (r: NetworkClass)
        ensures
            r == self.network_class,
    {
        self.network_class
    }

    pub fn outbound_protocols(&self) -> (r: ProtocolTypeSet)
        ensures
            r == self.outbound_protocols,
    {
        self.outbound_protocols
    }

    pub fn address_types(&self) -> (r: AddressTypeSet)
        ensures
            r == self.address_types,
    {
        self.address_types
    }

    pub fn envelope_support(&self) -> (r: &Vec<u8>)
        ensures
            r@ == self.envelope_support@,
    {
        &self.envelope_support
    }

    pub fn crypto_support(&self) -> (r: &Vec<CryptoKind>)
        ensures
            r@ == self.crypto_support@,
    {
        &self.crypto_support
    }

    pub fn capabilities(&self) -> (r: &Vec<Capability>)
        ensures
            r@ == self.capabilities@,
    {
        &self.capabilities
    }

    pub fn dial_info_detail_list(&self) -> (r: &Vec<DialInfoDetail>)
        ensures
            r@ == self.dial_info_detail_list@,
    {
        &self.dial_info_detail_list
    }

    /// Whether the node advertises a given crypto kind.
    pub fn supports_crypto_kind(&self, kind: CryptoKind) -> (r: bool)
        ensures
            r == (exists|i: int|
                0 <= i < self.crypto_support@.len() && self.crypto_support@[i] == kind),
    {
        let mut i: usize = 0;
        while i < self.crypto_support.len()
            invariant
                i <= self.crypto_support@.len(),
                forall|j: int| 0 <= j < i ==> self.crypto_support@[j] != kind,
            decreases self.crypto_support@.len() - i,
        {
            if self.crypto_support[i] == kind {
                return true;
            }
            i += 1;
        }
        false
    }

    /// The first advertised dial info matching `filter`, in advertisement
    /// order. Callers that want the most direct class first sort the
    /// advertisement themselves; this library keeps the advertised order,
    /// which registration already sorts.
    pub fn first_filtered_dial_info_detail(&self, filter: &DialInfoFilter) -> (r: Option<
        DialInfoDetail,
    >)
        ensures
            ({
                let matching = spec_filtered_details(self.dial_info_detail_list@, *filter);
                match r {
                    Some(did) => matching.len() > 0 && did.class == matching[0].class
                        && did.dial_info.spec_protocol_type()
                        == matching[0].dial_info.spec_protocol_type()
                        && did.dial_info.spec_socket_address()
                        == matching[0].dial_info.spec_socket_address()
                        && did.dial_info.spec_request() == matching[0].dial_info.spec_request(),
                    None => matching.len() == 0,
                }
            }),
    {
        let all = self.all_filtered_dial_info_details(filter);
        if all.len() > 0 {
            let did = &all[0];
            Some(DialInfoDetail { class: did.class, dial_info: did.dial_info.clone() })
        } else {
            None
        }
    }

    /// Every advertised dial info matching `filter`, in advertisement order.
    pub fn all_filtered_dial_info_details(&self, filter: &DialInfoFilter) -> (r: Vec<
        DialInfoDetail,
    >)
        ensures
            r@.len() == spec_filtered_details(self.dial_info_detail_list@, *filter).len(),
            forall|i: int|
                0 <= i < r@.len() ==> spec_detail_like(
                    #[trigger] r@[i],
                    spec_filtered_details(self.dial_info_detail_list@, *filter)[i],
                ),
    {
        let dids = &self.dial_info_detail_list;
        let mut out: Vec<DialInfoDetail> = Vec::new();
        let mut i: usize = 0;
        let ghost pred = |did: DialInfoDetail|
            filter.protocol_type_set.spec_contains(did.dial_info.spec_protocol_type())
                && filter.address_type_set.spec_contains(
                did.dial_info.spec_socket_address().address.spec_address_type(),
            );
        proof {
            assert(dids@.take(0).filter(pred) =~= Seq::<DialInfoDetail>::empty());
        }
        while i < dids.len()
            invariant
                i <= dids@.len(),
                dids@ == self.dial_info_detail_list@,
                pred == (|did: DialInfoDetail|
                    filter.protocol_type_set.spec_contains(did.dial_info.spec_protocol_type())
                        && filter.address_type_set.spec_contains(
                        did.dial_info.spec_socket_address().address.spec_address_type(),
                    )),
                out@.len() == dids@.take(i as int).filter(pred).len(),
                forall|j: int|
                    0 <= j < out@.len() ==> spec_detail_like(
                        #[trigger] out@[j],
                        dids@.take(i as int).filter(pred)[j],
                    ),
            decreases dids@.len() - i,
        {
            proof {
                reveal_with_fuel(Seq::filter, 2);
                assert(dids@.take(i as int + 1).drop_last() =~= dids@.take(i as int));
                assert(dids@.take(i as int + 1).last() == dids@[i as int]);
            }
            let did = &dids[i];
            if did.matches_filter(filter) {
                out.push(DialInfoDetail { class: did.class, dial_info: did.dial_info.clone() });
            }
            i += 1;
        }
        proof {
            assert(dids@.take(dids@.len() as int) =~= dids@);
        }
        out
    }

    /// Does this node advertise any dial info?
    pub fn has_dial_info(&self) -> (r: bool)
        ensures
            r == (self.dial_info_detail_list@.len() > 0),
    {
        self.dial_info_detail_list.len() > 0
    }

    /// Is some relay required, either for inbound contact or because the
    /// node cannot accept inbound connections at all?
    pub fn requires_relay(&self) -> (r: bool)
        ensures
            r == match self.network_class {
                NetworkClass::InboundCapable => (exists|i: int|
                    0 <= i < self.dial_info_detail_list@.len()
                        && (#[trigger] self.dial_info_detail_list@[i]).class
                        == crate::net_types::DialInfoClass::Blocked),
                NetworkClass::OutboundOnly => true,
                NetworkClass::WebApp => true,
                NetworkClass::Invalid => false,
            },
    {
        match self.network_class {
            NetworkClass::InboundCapable => {
                let mut i: usize = 0;
                while i < self.dial_info_detail_list.len()
                    invariant
                        i <= self.dial_info_detail_list@.len(),
                        self.network_class == NetworkClass::InboundCapable,
                        forall|j: int|
                            0 <= j < i ==> (#[trigger] self.dial_info_detail_list@[j]).class
                                != crate::net_types::DialInfoClass::Blocked,
                    decreases self.dial_info_detail_list@.len() - i,
                {
                    if self.dial_info_detail_list[i].class.requires_relay() {
                        proof {
                            assert(self.dial_info_detail_list@[i as int].class
                                == crate::net_types::DialInfoClass::Blocked);
                        }
                        return true;
                    }
                    i += 1;
                }
                false
            },
            NetworkClass::OutboundOnly => true,
            NetworkClass::WebApp => true,
            NetworkClass::Invalid => false,
        }
    }

    /// Whether the node advertises a capability.
    pub fn has_capability(&self, cap: Capability) -> (r: bool)
        ensures
            r == spec_has_capability(self.capabilities@, cap),
    {
        let mut i: usize = 0;
        while i < self.capabilities.len()
            invariant
                i <= self.capabilities@.len(),
                forall|j: int| 0 <= j < i ==> self.capabilities@[j] != cap,
            decreases self.capabilities@.len() - i,
        {
            if self.capabilities[i] == cap {
                return true;
            }
            i += 1;
        }
        false
    }

    /// Whether the node advertises every one of the given capabilities.
    pub fn has_capabilities(&self, capabilities: &Vec<Capability>) -> (r: bool)
        ensures
            r == (forall|i: int|
                0 <= i < capabilities@.len() ==> spec_has_capability(
                    self.capabilities@,
                    #[trigger] capabilities@[i],
                )),
    {
        let mut i: usize = 0;
        while i < capabilities.len()
            invariant
                i <= capabilities@.len(),
                forall|j: int|
                    0 <= j < i ==> spec_has_capability(
                        self.capabilities@,
                        #[trigger] capabilities@[j],
                    ),
            decreases capabilities@.len() - i,
        {
            if !self.has_capability(capabilities[i]) {
                return false;
            }
            i += 1;
        }
        true
    }

    /// Can this node assist with signalling? Only if it advertises the
    /// signal capability, is inbound capable, and none of its own dial info
    /// needs a signal itself.
    pub fn is_signal_capable(&self) -> (r: bool)
        ensures
            r == (spec_has_capability(self.capabilities@, FourCC(0x53, 0x47, 0x4e, 0x4c))
                && self.network_class == NetworkClass::InboundCapable && (forall|i: int|
                0 <= i < self.dial_info_detail_list@.len() ==> !spec_class_requires_signal(
                    (#[trigger] self.dial_info_detail_list@[i]).class,
                ))),
    {
        if !self.has_capability(cap_signal()) {
            return false;
        }
        if !matches!(self.network_class, NetworkClass::InboundCapable) {
            return false;
        }
        let mut i: usize = 0;
        while i < self.dial_info_detail_list.len()
            invariant
                i <= self.dial_info_detail_list@.len(),
                forall|j: int|
                    0 <= j < i ==> !spec_class_requires_signal(
                        (#[trigger] self.dial_info_detail_list@[j]).class,
                    ),
            decreases self.dial_info_detail_list@.len() - i,
        {
            if self.dial_info_detail_list[i].class.requires_signal() {
                return false;
            }
            i += 1;
        }
        true
    }
}

/// Whether two dial-info details carry the same class, protocol, address
/// and request.
pub open spec fn spec_detail_like(a: DialInfoDetail, b: DialInfoDetail) -> bool {
    a.class == b.class && a.dial_info.spec_protocol_type() == b.dial_info.spec_protocol_type()
        && a.dial_info.spec_socket_address() == b.dial_info.spec_socket_address()
        && a.dial_info.spec_request() == b.dial_info.spec_request()
}

/// Whether a dial-info class needs a signal before inbound contact.
pub open spec fn spec_class_requires_signal(c: crate::net_types::DialInfoClass) -> bool {
    c == crate::net_types::DialInfoClass::FullConeNAT || c
        == crate::net_types::DialInfoClass::AddressRestrictedNAT || c
        == crate::net_types::DialInfoClass::PortRestrictedNAT
}

} // verus!
