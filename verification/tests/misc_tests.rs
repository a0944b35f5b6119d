//! Fanout queue, network results, dial-info filters, respond-to resolution
//! and attachment classification.

use veilid_core::attachment::{translate_routing_table_health, AttachmentLimits,
    AttachmentManagerState, AttachmentState};
use veilid_core::crypto_types::{vld0_kind, CryptoKey, FourCC, TypedKey};
use veilid_core::fanout_queue::{FanoutNode, FanoutQueue};
use veilid_core::net_types::{AddressType, DialInfoFilter, ProtocolType, ProtocolTypeSet};
use veilid_core::network_result::{IoError, IoErrorKind, NetworkResult};
use veilid_core::routing_context::RoutingContext;
use veilid_core::routing_table::RoutingTableHealth;
use veilid_core::rpc::{get_destination_respond_to, get_respond_to_destination,
    CompiledPrivateRoute, Destination, ReceivedKind, RespondTo, RespondToResolution,
    StubNodeForm};
use veilid_core::safety::{SafetySelection, SafetySpec, Sequencing, Stability};
use veilid_core::connection_table::{ConnectionPlan, ConnectionTable};
use veilid_core::rpc::{status_question_context, validate_status_answer, StatusContext};
use veilid_core::net_types::{Address, ConnectionDescriptor, PeerAddress, SocketAddress};
use veilid_core::address_filter::{Ipv4Addr, Ipv6Addr};
use veilid_core::crypto::{compute_dh, generate_keypair, DhCache};

fn key(b: u8) -> CryptoKey {
    let mut bytes = [0u8; 32];
    bytes[0] = b;
    CryptoKey { bytes }
}

fn typed(b: u8) -> TypedKey {
    TypedKey { kind: vld0_kind(), value: key(b) }
}

#[test]
fn fanout_queue_never_repeats_candidates() {
    let mut q = FanoutQueue::new(vld0_kind());
    let batch = vec![
        FanoutNode::new(vec![typed(1)]),
        FanoutNode::new(vec![typed(2)]),
        FanoutNode::new(vec![typed(3)]),
    ];
    q.add(&batch);
    assert_eq!(q.nodes().len(), 3);
    // offering the same batch again changes nothing
    q.add(&batch);
    assert_eq!(q.nodes().len(), 3);

    let mut seen: Vec<u8> = Vec::new();
    while let Some(n) = q.next() {
        let id = n.node_id(vld0_kind()).unwrap();
        assert!(!seen.contains(&id.bytes[0]));
        seen.push(id.bytes[0]);
        // re-offering mid-drain never resurrects a handed-out candidate
        q.add(&batch);
    }
    assert_eq!(seen.len(), 3);
}

#[test]
fn fanout_queue_skips_unkeyed_candidates() {
    let mut q = FanoutQueue::new(vld0_kind());
    let other_kind = FourCC(0x58, 0x58, 0x58, 0x58);
    q.add(&vec![FanoutNode::new(vec![TypedKey { kind: other_kind, value: key(9) }])]);
    assert_eq!(q.nodes().len(), 0);
    assert!(q.next().is_none());
}

#[test]
fn network_result_folds() {
    let v: NetworkResult<u32> = NetworkResult::value(7);
    assert!(v.is_value());
    assert_eq!(v.into_result().unwrap(), 7);

    let t: NetworkResult<u32> = NetworkResult::timeout();
    assert!(t.is_timeout());
    assert_eq!(t.into_result().unwrap_err().kind, IoErrorKind::TimedOut);

    let nc: NetworkResult<u32> =
        NetworkResult::no_connection(IoError::new(IoErrorKind::ConnectionRefused, String::new()));
    assert!(nc.is_no_connection());

    let im: NetworkResult<u32> = NetworkResult::invalid_message(String::from("bad"));
    match im.into_result() {
        Err(e) => assert_eq!(e.kind, IoErrorKind::InvalidData),
        Ok(_) => panic!("invalid message is an error"),
    }
}

#[test]
fn dial_info_filter_composition() {
    let f = DialInfoFilter::all()
        .with_protocol_type(ProtocolType::TCP)
        .with_address_type(AddressType::IPV4);
    assert!(f.protocol_type_set.contains(ProtocolType::TCP));
    assert!(!f.protocol_type_set.contains(ProtocolType::UDP));
    assert!(f.address_type_set.contains(AddressType::IPV4));
    assert!(!f.address_type_set.contains(AddressType::IPV6));
    assert!(!f.is_dead());

    let g = f.filtered(&DialInfoFilter::all().with_protocol_type(ProtocolType::UDP));
    assert!(g.is_dead());

    let empty = DialInfoFilter::all().with_protocol_type_set(ProtocolTypeSet::empty());
    assert!(empty.is_dead());
}

#[test]
fn respond_to_resolution_rules() {
    let own = key(42);
    let unsafe_direct = Destination::direct(typed(1), Sequencing::NoPreference);
    match get_destination_respond_to(&unsafe_direct, None, own, false) {
        RespondToResolution::Use(RespondTo::Sender) => {},
        _ => panic!("unsafe direct answers to the sender"),
    }

    let spec = SafetySpec {
        preferred_route: None,
        hop_count: 2,
        stability: Stability::LowLatency,
        sequencing: Sequencing::NoPreference,
    };
    let safe_direct =
        Destination::direct(typed(1), Sequencing::NoPreference).with_safety(SafetySelection::Safe(spec));
    match get_destination_respond_to(&safe_direct, None, own, false) {
        RespondToResolution::NoPrivateRoute => {},
        _ => panic!("safe question with no route available has no connection"),
    }
    let pr = CompiledPrivateRoute { public_key: key(7), hop_count: 2, first_hop: Some(key(8)) };
    match get_destination_respond_to(&safe_direct, Some(pr), own, false) {
        RespondToResolution::Use(RespondTo::PrivateRoute(p)) => assert_eq!(p.public_key, key(7)),
        _ => panic!("safe question uses the produced route"),
    }

    // loopback: the destination route doubles as the responder route
    let spec_loop = SafetySpec { preferred_route: Some(key(7)), ..spec };
    let to_route = Destination::private_route(pr, SafetySelection::Safe(spec_loop));
    match get_destination_respond_to(&to_route, None, own, false) {
        RespondToResolution::Use(RespondTo::PrivateRoute(p)) => assert_eq!(p.public_key, key(7)),
        _ => panic!("loopback reuses the destination route"),
    }

    // unsafe to a private route: a stub naming ourselves, by bare id only
    // when the remote route has already seen our node info
    let to_route_unsafe = Destination::private_route(pr, SafetySelection::Unsafe(Sequencing::NoPreference));
    match get_destination_respond_to(&to_route_unsafe, None, own, true) {
        RespondToResolution::UseStub { stub, form } => {
            assert_eq!(stub.public_key, own);
            assert_eq!(stub.hop_count, 0);
            assert_eq!(form, StubNodeForm::NodeIdOnly);
        },
        _ => panic!("unsafe to a route answers over a stub"),
    }
    match get_destination_respond_to(&to_route_unsafe, None, own, false) {
        RespondToResolution::UseStub { form, .. } => {
            assert_eq!(form, StubNodeForm::FullPeerInfo);
        },
        _ => panic!("unsafe to a route answers over a stub"),
    }
}

#[test]
fn cached_dh_agrees_with_fresh() {
    let a = generate_keypair();
    let b = generate_keypair();
    let mut cache = DhCache::new();
    let s1 = cache.cached_dh(&b.key, &a.secret).expect("valid key");
    let s2 = cache.cached_dh(&b.key, &a.secret).expect("cached");
    let fresh = compute_dh(&b.key, &a.secret).expect("valid key");
    assert_eq!(s1, s2);
    assert_eq!(s1, fresh);
    assert_eq!(cache.entries.len(), 1);
}

#[test]
fn respond_to_destination_rules() {
    // direct question, sender is the peer: answer directly
    let d = get_respond_to_destination(
        &RespondTo::Sender,
        ReceivedKind::Direct,
        typed(5),
        typed(5),
        Sequencing::NoPreference,
        None,
    )
    .expect("direct answer");
    assert!(matches!(d, Destination::Direct { .. }));

    // direct question through a relay: answer through the relay
    let d2 = get_respond_to_destination(
        &RespondTo::Sender,
        ReceivedKind::Direct,
        typed(5),
        typed(6),
        Sequencing::NoPreference,
        None,
    )
    .expect("relayed answer");
    assert!(matches!(d2, Destination::Relay { .. }));

    // a sender respond-to over a routed path is invalid
    assert!(get_respond_to_destination(
        &RespondTo::Sender,
        ReceivedKind::SafetyRouted,
        typed(5),
        typed(6),
        Sequencing::NoPreference,
        None,
    )
    .is_none());

    // over our own private route: respond safely through the named route
    let pr = CompiledPrivateRoute { public_key: key(9), hop_count: 2, first_hop: Some(key(1)) };
    let spec = SafetySpec {
        preferred_route: None,
        hop_count: 2,
        stability: Stability::LowLatency,
        sequencing: Sequencing::NoPreference,
    };
    let d3 = get_respond_to_destination(
        &RespondTo::PrivateRoute(pr),
        ReceivedKind::PrivateRouted,
        typed(5),
        typed(6),
        Sequencing::NoPreference,
        Some(spec),
    )
    .expect("safe routed answer");
    match d3 {
        Destination::PrivateRoute { safety_selection, .. } => {
            assert!(matches!(safety_selection, SafetySelection::Safe(_)));
        },
        _ => panic!("answer goes over the route"),
    }
}

#[test]
fn attachment_classification_thresholds() {
    let limits = AttachmentLimits {
        limit_over_attached: 64,
        limit_fully_attached: 32,
        limit_attached_strong: 16,
        limit_attached_good: 8,
        limit_attached_weak: 4,
    };
    let h = |reliable: usize, unreliable: usize| RoutingTableHealth {
        reliable_entry_count: reliable,
        unreliable_entry_count: unreliable,
        dead_entry_count: 0,
        public_internet_ready: true,
        local_network_ready: false,
    };
    assert_eq!(translate_routing_table_health(&h(0, 0), &limits), AttachmentState::Attaching);
    assert_eq!(translate_routing_table_health(&h(0, 4), &limits), AttachmentState::AttachedWeak);
    assert_eq!(translate_routing_table_health(&h(4, 0), &limits), AttachmentState::AttachedWeak);
    assert_eq!(translate_routing_table_health(&h(8, 0), &limits), AttachmentState::AttachedGood);
    assert_eq!(
        translate_routing_table_health(&h(16, 99), &limits),
        AttachmentState::AttachedStrong
    );
    assert_eq!(translate_routing_table_health(&h(32, 0), &limits), AttachmentState::FullyAttached);
    assert_eq!(translate_routing_table_health(&h(64, 0), &limits), AttachmentState::OverAttached);

    let mut st = AttachmentManagerState::new();
    assert!(st.update_attachment(h(8, 0), &limits));
    assert_eq!(st.last_attachment_state, AttachmentState::AttachedGood);
    // identical health: no update
    assert!(!st.update_attachment(h(8, 0), &limits));
    // same state, changed counts but same readiness: no update sent
    assert!(!st.update_attachment(h(9, 0), &limits));
    // crossing a threshold sends an update
    assert!(st.update_attachment(h(16, 0), &limits));
}

#[test]
fn routing_context_policies() {
    let rc = RoutingContext::new(2);
    assert_eq!(rc.sequencing(), Sequencing::NoPreference);
    let rc2 = rc.with_sequencing(Sequencing::EnsureOrdered);
    assert_eq!(rc2.sequencing(), Sequencing::EnsureOrdered);
    let rc3 = rc2.with_privacy();
    match rc3.safety_selection {
        SafetySelection::Safe(spec) => {
            assert_eq!(spec.hop_count, 2);
            assert_eq!(spec.sequencing, Sequencing::EnsureOrdered);
            assert!(spec.preferred_route.is_none());
        },
        _ => panic!("privacy selected"),
    }
    let rc4 = RoutingContext::new(3).with_custom_privacy(Stability::Reliable);
    match rc4.safety_selection {
        SafetySelection::Safe(spec) => assert_eq!(spec.stability, Stability::Reliable),
        _ => panic!("privacy selected"),
    }
}

#[test]
fn peer_address_canonicalizes_mapped_spelling() {
    // ::ffff:10.0.0.1 and 10.0.0.1 are the same endpoint
    let mut mapped = [0u8; 16];
    mapped[10] = 0xff;
    mapped[11] = 0xff;
    mapped[12] = 10;
    mapped[15] = 1;
    let as_v6 = SocketAddress { address: Address::IPV6(Ipv6Addr { octets: mapped }), port: 80 };
    let as_v4 = SocketAddress {
        address: Address::IPV4(Ipv4Addr { octets: [10, 0, 0, 1] }),
        port: 80,
    };
    let p6 = PeerAddress::new(as_v6, ProtocolType::TCP);
    let p4 = PeerAddress::new(as_v4, ProtocolType::TCP);
    assert_eq!(p6, p4);
    // a plain IPv6 address stays what it is
    let mut plain = [0u8; 16];
    plain[0] = 0x20;
    let v6 = SocketAddress { address: Address::IPV6(Ipv6Addr { octets: plain }), port: 80 };
    let pp = PeerAddress::new(v6, ProtocolType::TCP);
    assert!(matches!(pp.socket_address.address, Address::IPV6(_)));
}

#[test]
fn connection_table_uniqueness_and_eviction_plan() {
    let remote = PeerAddress {
        protocol_type: ProtocolType::TCP,
        socket_address: SocketAddress {
            address: Address::IPV4(Ipv4Addr { octets: [10, 0, 0, 1] }),
            port: 5150,
        },
    };
    let local = SocketAddress {
        address: Address::IPV4(Ipv4Addr { octets: [192, 168, 1, 5] }),
        port: 4444,
    };
    let d = ConnectionDescriptor::new(remote, local);

    let mut table = ConnectionTable::new();
    assert!(table.add_connection(d, 1));
    // the same 5-tuple cannot be registered twice
    assert!(!table.add_connection(d, 2));
    assert_eq!(table.get_connection(&d), Some(1));
    assert_eq!(table.get_last_connection_by_remote(&remote), Some(1));

    // a new outbound connection from the same local port to the same remote
    // would collide: the old connection is what must be evicted
    let colliding = table.find_colliding_descriptors(&remote.socket_address, &local);
    assert_eq!(colliding.len(), 1);
    assert_eq!(table.remove_connection(&colliding[0]), Some(1));
    assert_eq!(table.get_connection(&d), None);
    assert!(table.add_connection(d, 3));
}

#[test]
fn status_question_context_rules() {
    let unsafe_direct = Destination::direct(typed(1), Sequencing::NoPreference);
    assert_eq!(
        status_question_context(&unsafe_direct, Some(true)),
        StatusContext::WithNodeStatus { public_internet: true }
    );
    assert_eq!(
        status_question_context(&unsafe_direct, None),
        StatusContext::NoRoutingDomain
    );
    let spec = SafetySpec {
        preferred_route: None,
        hop_count: 2,
        stability: Stability::LowLatency,
        sequencing: Sequencing::NoPreference,
    };
    let safe_direct = Destination::direct(typed(1), Sequencing::NoPreference)
        .with_safety(SafetySelection::Safe(spec));
    assert_eq!(status_question_context(&safe_direct, Some(true)), StatusContext::Anonymous);

    assert!(validate_status_answer(true, Some(true)));
    assert!(!validate_status_answer(true, Some(false)));
    assert!(validate_status_answer(false, None));
}

#[test]
fn connection_plan_reuse_and_eviction() {
    let remote = PeerAddress {
        protocol_type: ProtocolType::TCP,
        socket_address: SocketAddress {
            address: Address::IPV4(Ipv4Addr { octets: [10, 0, 0, 2] }),
            port: 5150,
        },
    };
    let local = SocketAddress {
        address: Address::IPV4(Ipv4Addr { octets: [192, 168, 1, 5] }),
        port: 4444,
    };
    let mut table = ConnectionTable::new();
    // empty table: connect fresh, nothing to evict
    match table.plan_connection(Some(local), &remote) {
        ConnectionPlan::Connect { evict, retry_count } => {
            assert_eq!(evict.len(), 0);
            assert_eq!(retry_count, 0);
        },
        _ => panic!("nothing to reuse"),
    }
    let d = ConnectionDescriptor::new(remote, local);
    assert!(table.add_connection(d, 9));
    // now the connection is reused
    match table.plan_connection(Some(local), &remote) {
        ConnectionPlan::UseExisting(id) => assert_eq!(id, 9),
        _ => panic!("existing connection is reused"),
    }
    // a different remote on the same local port evicts the collider
    let remote2 = PeerAddress {
        protocol_type: ProtocolType::TCP,
        socket_address: SocketAddress {
            address: Address::IPV4(Ipv4Addr { octets: [10, 0, 0, 3] }),
            port: 5150,
        },
    };
    match table.plan_connection(Some(local), &remote2) {
        ConnectionPlan::Connect { evict, retry_count } => {
            assert_eq!(evict.len(), 0);
            assert_eq!(retry_count, 0);
        },
        _ => panic!("different remote: fresh connect"),
    }
}
