//! RPC control-plane values: errors, destinations, respond-to resolution,
//! and the value-changed statement.

use vstd::prelude::*;
use crate::crypto_types::{CryptoKey, TypedKey};
use crate::safety::{SafetySelection, SafetySpec, Sequencing};
use crate::storage::{SignedValueData, ValueSubkey};

verus! {

/// Why an RPC operation failed locally.
#[derive(Clone, Debug)]
pub enum RPCError {
    Timeout,
    InvalidFormat,
    Unimplemented(String),
    Protocol(String),
    Internal(String),
}

/// An internal fault: a bug on our own side.
pub fn rpc_error_internal(x: String) -> (r: RPCError)
    ensures
        r matches RPCError::Internal(s) && s == x,
{
    RPCError::Internal(x)
}

/// A protocol fault: the remote sent something malformed.
pub fn rpc_error_protocol(x: String) -> (r: RPCError)
    ensures
        r matches RPCError::Protocol(s) && s == x,
{
    RPCError::Protocol(x)
}

/// An operation this node does not implement.
pub fn rpc_error_unimplemented(x: String) -> (r: RPCError)
    ensures
        r matches RPCError::Unimplemented(s) && s == x,
{
    RPCError::Unimplemented(x)
}

/// A hop of a private route as named in a respond-to: the responder needs
/// only the route's public key and its first hop here.
#[derive(Clone, Copy, Debug)]
pub struct CompiledPrivateRoute {
    /// The route's public key.
    pub public_key: CryptoKey,
    /// How many hops the route has; zero for a stub that addresses the
    /// destination directly.
    pub hop_count: u8,
    /// The first hop's node id, absent for a stub.
    pub first_hop: Option<CryptoKey>,
}

impl CompiledPrivateRoute {
    /// A stub private route that addresses a node directly.
    pub fn new_stub(public_key: CryptoKey) -> (r: CompiledPrivateRoute)
        ensures
            r.public_key == public_key,
            r.hop_count == 0,
            r.first_hop is None,
    {
        CompiledPrivateRoute { public_key, hop_count: 0, first_hop: None }
    }

    /// The node a response must enter the route through.
    pub fn first_hop_node_id(&self) -> (r: Option<CryptoKey>)
        ensures
            r == self.first_hop,
    {
        self.first_hop
    }
}

/// Where to send an RPC message.
#[derive(Clone, Debug)]
pub enum Destination {
    /// Send to the node directly.
    Direct { target: TypedKey, safety_selection: SafetySelection },
    /// The target is reachable only through the named relay.
    Relay { relay: TypedKey, target: TypedKey, safety_selection: SafetySelection },
    /// Terminate at a private route.
    PrivateRoute { private_route: CompiledPrivateRoute, safety_selection: SafetySelection },
}

impl Destination {
    /// A direct destination without a safety route.
    pub fn direct(target: TypedKey, sequencing: Sequencing) -> (r: Destination)
        ensures
            r matches Destination::Direct { target: t, safety_selection: s } && t == target && (
            s matches SafetySelection::Unsafe(q) && q == sequencing),
    {
        Destination::Direct { target, safety_selection: SafetySelection::Unsafe(sequencing) }
    }

    /// A relayed destination without a safety route.
    pub fn relay(relay: TypedKey, target: TypedKey, sequencing: Sequencing) -> (r: Destination)
        ensures
            r matches Destination::Relay { relay: rl, target: t, safety_selection: s } && rl
                == relay && t == target && (s matches SafetySelection::Unsafe(q) && q == sequencing),
    {
        Destination::Relay { relay, target, safety_selection: SafetySelection::Unsafe(sequencing) }
    }

    /// A private-route destination.
    pub fn private_route(
        private_route: CompiledPrivateRoute,
        safety_selection: SafetySelection,
    ) -> (r: Destination)
        ensures
            r matches Destination::PrivateRoute { private_route: p, safety_selection: s } && p
                == private_route && s == safety_selection,
    {
        Destination::PrivateRoute { private_route, safety_selection }
    }

    /// The same destination with another safety selection.
    pub fn with_safety(self, safety_selection: SafetySelection) -> (r: Destination)
        ensures
            match self {
                Destination::Direct { target, .. } => r matches Destination::Direct {
                    target: t,
                    safety_selection: s,
                } && t == target && s == safety_selection,
                Destination::Relay { relay, target, .. } => r matches Destination::Relay {
                    relay: rl,
                    target: t,
                    safety_selection: s,
                } && rl == relay && t == target && s == safety_selection,
                Destination::PrivateRoute { private_route, .. } => r
                    matches Destination::PrivateRoute { private_route: p, safety_selection: s } && p
                    == private_route && s == safety_selection,
            },
    {
        match self {
            Destination::Direct { target, safety_selection: _ } => Destination::Direct {
                target,
                safety_selection,
            },
            Destination::Relay { relay, target, safety_selection: _ } => Destination::Relay {
                relay,
                target,
                safety_selection,
            },
            Destination::PrivateRoute { private_route, safety_selection: _ } => {
                Destination::PrivateRoute { private_route, safety_selection }
            },
        }
    }

    /// The destination's safety selection.
    pub fn get_safety_selection(&self) -> (r: &SafetySelection)
        ensures
            r == self.spec_safety_selection(),
    {
        match self {
            Destination::Direct { safety_selection, .. } => safety_selection,
            Destination::Relay { safety_selection, .. } => safety_selection,
            Destination::PrivateRoute { safety_selection, .. } => safety_selection,
        }
    }

    pub open spec fn spec_safety_selection(&self) -> SafetySelection {
        match self {
            Destination::Direct { safety_selection, .. } => *safety_selection,
            Destination::Relay { safety_selection, .. } => *safety_selection,
            Destination::PrivateRoute { safety_selection, .. } => *safety_selection,
        }
    }
}

/// How the responder should reach us with the answer.
#[derive(Clone, Debug)]
pub enum RespondTo {
    /// Respond directly to the sender.
    Sender,
    /// Respond through this private route.
    PrivateRoute(CompiledPrivateRoute),
}

/// How a stub route names this node: by bare node id once the remote route
/// has seen our node info, else with our full peer info attached.
#[derive(Clone, Copy, Debug, PartialEq, Eq, Structural)]
pub enum StubNodeForm {
    NodeIdOnly,
    FullPeerInfo,
}

/// The respond-to resolution of the question path, as a decision over plain
/// values: the destination, whether a private route could be produced for a
/// safe selection, and, for an unsafe private-route destination, how to name
/// ourselves.
///
/// An unsafe direct or relayed question is answered to the sender. A safe
/// question must name a private route; without one there is no connection.
/// A question to a private route names a stub route back to us when unsafe
/// (by bare id when the remote route has already seen our node info), and
/// reuses the destination route itself when it is also the preferred safety
/// route (the loopback test).
#[derive(Clone, Debug)]
pub enum RespondToResolution {
    /// Use this respond-to.
    Use(RespondTo),
    /// Use a stub route back to ourselves, naming us in the given form.
    UseStub { stub: CompiledPrivateRoute, form: StubNodeForm },
    /// No private route is available right now; the caller reports no
    /// connection.
    NoPrivateRoute,
    /// The destination private route has no first hop; the caller reports an
    /// internal error.
    MissingFirstHop,
}

/// Resolve the respond-to for a question.
///
/// `available_route` is the private route the route store produced for the
/// safety spec, if one was asked for and found; `own_node_id` is our id used
/// for stub routes.
pub fn get_destination_respond_to(
    dest: &Destination,
    available_route: Option<CompiledPrivateRoute>,
    own_node_id: CryptoKey,
    remote_has_seen_our_node_info: bool,
) -> (r: RespondToResolution)
    ensures
        ({
            let sel = dest.spec_safety_selection();
            match dest {
                Destination::Direct { .. } | Destination::Relay { .. } => match sel {
                    SafetySelection::Unsafe(_) => r == RespondToResolution::Use(RespondTo::Sender),
                    SafetySelection::Safe(_) => match available_route {
                        Some(pr) => r == RespondToResolution::Use(RespondTo::PrivateRoute(pr)),
                        None => r == RespondToResolution::NoPrivateRoute,
                    },
                },
                Destination::PrivateRoute { private_route, .. } => {
                    if private_route.first_hop is None && private_route.hop_count != 0 {
                        r == RespondToResolution::MissingFirstHop
                    } else {
                        match sel {
                            SafetySelection::Unsafe(_) => (r matches RespondToResolution::UseStub {
                                stub,
                                form,
                            } && stub.public_key == own_node_id && stub.hop_count == 0 && form
                                == (if remote_has_seen_our_node_info {
                                StubNodeForm::NodeIdOnly
                            } else {
                                StubNodeForm::FullPeerInfo
                            })),
                            SafetySelection::Safe(spec) => {
                                if spec.preferred_route == Some(private_route.public_key) {
                                    r == RespondToResolution::Use(
                                        RespondTo::PrivateRoute(*private_route),
                                    )
                                } else {
                                    match available_route {
                                        Some(pr) => r == RespondToResolution::Use(
                                            RespondTo::PrivateRoute(pr),
                                        ),
                                        None => r == RespondToResolution::NoPrivateRoute,
                                    }
                                }
                            },
                        }
                    }
                },
            }
        }),
{
    match dest {
        Destination::Direct { safety_selection, .. } | Destination::Relay {
            safety_selection,
            ..
        } => {
            match safety_selection {
                SafetySelection::Unsafe(_) => RespondToResolution::Use(RespondTo::Sender),
                SafetySelection::Safe(_) => match available_route {
                    Some(pr) => RespondToResolution::Use(RespondTo::PrivateRoute(pr)),
                    None => RespondToResolution::NoPrivateRoute,
                },
            }
        },
        Destination::PrivateRoute { private_route, safety_selection } => {
            if private_route.first_hop.is_none() && private_route.hop_count != 0 {
                return RespondToResolution::MissingFirstHop;
            }
            match safety_selection {
                SafetySelection::Unsafe(_) => {
                    RespondToResolution::UseStub {
                        stub: CompiledPrivateRoute::new_stub(own_node_id),
                        form: if remote_has_seen_our_node_info {
                            StubNodeForm::NodeIdOnly
                        } else {
                            StubNodeForm::FullPeerInfo
                        },
                    }
                },
                SafetySelection::Safe(spec) => {
                    let loopback = match spec.preferred_route {
                        Some(pk) => {
                            let e = pk == private_route.public_key;
                            proof {
                                if e {
                                    assert(pk.bytes =~= private_route.public_key.bytes);
                                } else {
                                    if pk.bytes@ == private_route.public_key.bytes@ {
                                        assert(pk.bytes =~= private_route.public_key.bytes);
                                    }
                                }
                            }
                            e
                        },
                        None => false,
                    };
                    if loopback {
                        RespondToResolution::Use(RespondTo::PrivateRoute(*private_route))
                    } else {
                        match available_route {
                            Some(pr) => RespondToResolution::Use(RespondTo::PrivateRoute(pr)),
                            None => RespondToResolution::NoPrivateRoute,
                        }
                    }
                },
            }
        },
    }
}

/// How a question arrived, as far as responding is concerned.
#[derive(Clone, Copy, Debug, PartialEq, Eq, Structural)]
pub enum ReceivedKind {
    /// Straight from a peer, possibly through its relay.
    Direct,
    /// Through someone's safety route, origin hidden.
    SafetyRouted,
    /// Over one of our own private routes.
    PrivateRouted,
}

/// Turn a question's respond-to into the destination of its answer. A
/// sender respond-to is answered directly, or through the peer that relayed
/// it; it is invalid over a routed path. A private-route respond-to is
/// answered over that route, safely only when the question came in over our
/// own private route.
pub fn get_respond_to_destination(
    respond_to: &RespondTo,
    received: ReceivedKind,
    sender_id: TypedKey,
    peer_id: TypedKey,
    sequencing: Sequencing,
    safety_spec: Option<SafetySpec>,
) -> (r: Option<Destination>)
    ensures
        match respond_to {
            RespondTo::Sender => match received {
                ReceivedKind::Direct => (r matches Some(d) && if sender_id.value.bytes@
                    == peer_id.value.bytes@ {
                    d matches Destination::Direct { target, safety_selection } && target == peer_id
                        && (safety_selection matches SafetySelection::Unsafe(q) && q == sequencing)
                } else {
                    d matches Destination::Relay { relay, target, safety_selection } && relay
                        == peer_id && target == sender_id && (safety_selection
                        matches SafetySelection::Unsafe(q) && q == sequencing)
                }),
                _ => r is None,
            },
            RespondTo::PrivateRoute(pr) => match received {
                ReceivedKind::Direct => r is None,
                ReceivedKind::SafetyRouted => (r matches Some(d) && d
                    matches Destination::PrivateRoute { private_route, safety_selection }
                    && private_route == pr && (safety_selection matches SafetySelection::Unsafe(q)
                    && q == sequencing)),
                ReceivedKind::PrivateRouted => match safety_spec {
                    Some(spec) => (r matches Some(d) && d matches Destination::PrivateRoute {
                        private_route,
                        safety_selection,
                    } && private_route == pr && (safety_selection matches SafetySelection::Safe(sp)
                        && sp == spec)),
                    None => r is None,
                },
            },
        },
{
    match respond_to {
        RespondTo::Sender => match received {
            ReceivedKind::Direct => {
                let same = sender_id.value == peer_id.value;
                proof {
                    if same {
                        assert(sender_id.value.bytes =~= peer_id.value.bytes);
                    } else {
                        if sender_id.value.bytes@ == peer_id.value.bytes@ {
                            assert(sender_id.value.bytes =~= peer_id.value.bytes);
                        }
                    }
                }
                if same {
                    Some(Destination::direct(peer_id, sequencing))
                } else {
                    Some(Destination::relay(peer_id, sender_id, sequencing))
                }
            },
            _ => None,
        },
        RespondTo::PrivateRoute(pr) => match received {
            ReceivedKind::Direct => None,
            ReceivedKind::SafetyRouted => Some(
                Destination::PrivateRoute {
                    private_route: *pr,
                    safety_selection: SafetySelection::Unsafe(sequencing),
                },
            ),
            ReceivedKind::PrivateRouted => match safety_spec {
                Some(spec) => Some(
                    Destination::PrivateRoute {
                        private_route: *pr,
                        safety_selection: SafetySelection::Safe(spec),
                    },
                ),
                None => None,
            },
        },
    }
}

/// The value-changed statement: a watched record's subkeys changed.
#[derive(Debug)]
pub struct RPCOperationValueChanged {
    pub key: TypedKey,
    pub subkeys: Vec<(ValueSubkey, ValueSubkey)>,
    pub count: u32,
    pub value: SignedValueData,
}

impl RPCOperationValueChanged {
    pub fn new(
        key: TypedKey,
        subkeys: Vec<(ValueSubkey, ValueSubkey)>,
        count: u32,
        value: SignedValueData,
    ) -> (r: Self)
        ensures
            r.key == key,
            r.subkeys@ == subkeys@,
            r.count == count,
            r.value == value,
    {
        Self { key, subkeys, count, value }
    }

    /// Validate the subkey ranges: each runs forward and they arrive in
    /// ascending, non-overlapping order.
    pub fn validate(&self) -> (r: bool)
        ensures
            r == spec_valid_ranges(self.subkeys@),
    {
        let mut i: usize = 0;
        while i < self.subkeys.len()
            invariant
                i <= self.subkeys@.len(),
                forall|j: int|
                    0 <= j < i ==> (#[trigger] self.subkeys@[j]).0 <= self.subkeys@[j].1,
                forall|j: int|
                    0 < j < i ==> (#[trigger] self.subkeys@[j]).0 > self.subkeys@[j - 1].1,
            decreases self.subkeys@.len() - i,
        {
            if self.subkeys[i].0 > self.subkeys[i].1 {
                return false;
            }
            if i > 0 {
                if self.subkeys[i].0 <= self.subkeys[i - 1].1 {
                    return false;
                }
            }
            i += 1;
        }
        true
    }

    pub fn key(&self) -> (r: &TypedKey)
        ensures
            r == self.key,
    {
        &self.key
    }

    pub fn subkeys(&self) -> (r: &Vec<(ValueSubkey, ValueSubkey)>)
        ensures
            r@ == self.subkeys@,
    {
        &self.subkeys
    }

    pub fn count(&self) -> (r: u32)
        ensures
            r == self.count,
    {
        self.count
    }

    pub fn value(&self) -> (r: &SignedValueData)
        ensures
            r == self.value,
    {
        &self.value
    }

    /// Take the statement apart.
    pub fn destructure(self) -> (r: (TypedKey, Vec<(ValueSubkey, ValueSubkey)>, u32, SignedValueData))
        ensures
            r.0 == self.key,
            r.1@ == self.subkeys@,
            r.2 == self.count,
            r.3 == self.value,
    {
        (self.key, self.subkeys, self.count, self.value)
    }
}

/// Subkey ranges are valid when each runs forward and they ascend without
/// touching.
pub open spec fn spec_valid_ranges(s: Seq<(ValueSubkey, ValueSubkey)>) -> bool {
    &&& forall|j: int| 0 <= j < s.len() ==> (#[trigger] s[j]).0 <= s[j].1
    &&& forall|j: int| 0 < j < s.len() ==> (#[trigger] s[j]).0 > s[j - 1].1
}


/// What a status question carries and where it goes, decided from the
/// destination and its safety selection: an unsafe question includes our
/// node status for the routing domain the target is reachable in, and fails
/// as a send failure when the target has no routing domain; a safe question
/// hides everything and always uses the public internet domain.
#[derive(Clone, Copy, Debug, PartialEq, Eq, Structural)]
pub enum StatusContext {
    /// Send with our node status for this domain attached.
    WithNodeStatus { public_internet: bool },
    /// Send with nothing attached, over the public internet domain.
    Anonymous,
    /// The target or relay has no routing domain: record a send failure and
    /// report no connection.
    NoRoutingDomain,
}

/// Decide the context of a status question. `target_domain_public` is
/// whether the destination's first hop is reachable in the public internet
/// domain, if it is reachable at all.
pub fn status_question_context(
    dest: &Destination,
    target_domain_public: Option<bool>,
) -> (r: StatusContext)
    ensures
        dest.spec_safety_selection() is Safe ==> r == StatusContext::Anonymous,
        dest.spec_safety_selection() is Unsafe ==> match dest {
            Destination::Direct { .. } | Destination::Relay { .. } => match target_domain_public {
                Some(p) => r == StatusContext::WithNodeStatus { public_internet: p },
                None => r == StatusContext::NoRoutingDomain,
            },
            Destination::PrivateRoute { .. } => r == StatusContext::WithNodeStatus {
                public_internet: true,
            },
        },
{
    match dest.get_safety_selection() {
        SafetySelection::Safe(_) => StatusContext::Anonymous,
        SafetySelection::Unsafe(_) => match dest {
            Destination::Direct { .. } | Destination::Relay { .. } => match target_domain_public {
                Some(p) => StatusContext::WithNodeStatus { public_internet: p },
                None => StatusContext::NoRoutingDomain,
            },
            Destination::PrivateRoute { .. } => StatusContext::WithNodeStatus {
                public_internet: true,
            },
        },
    }
}

/// Check a status answer's node status against the domain we asked in: a
/// status for another routing domain is an invalid message, an absent one
/// is fine.
pub fn validate_status_answer(
    asked_public_internet: bool,
    answer_status_public_internet: Option<bool>,
) -> (r: bool)
    ensures
        r == match answer_status_public_internet {
            Some(p) => p == asked_public_internet,
            None => true,
        },
{
    match answer_status_public_internet {
        Some(p) => p == asked_public_internet,
        None => true,
    }
}

} // verus!
