//! Bucket-entry liveness classification and routing-table behavior.

use veilid_core::bucket_entry::{BucketEntryInner, BucketEntryState};
use veilid_core::crypto_types::{vld0_kind, CryptoKey, TypedKey};
use veilid_core::net_types::{Address, ConnectionDescriptor, PeerAddress, ProtocolType,
    SocketAddress};
use veilid_core::address_filter::Ipv4Addr;
use veilid_core::net_types::DialInfo;
use veilid_core::routing_table::{bootstrap_merge, RoutingTableInner};

const SECS: u64 = 1_000_000;

fn key_with_first_byte(b: u8) -> CryptoKey {
    let mut bytes = [0u8; 32];
    bytes[0] = b;
    CryptoKey { bytes }
}

fn typed(b: u8) -> TypedKey {
    TypedKey { kind: vld0_kind(), value: key_with_first_byte(b) }
}

fn descriptor() -> ConnectionDescriptor {
    let remote = PeerAddress {
        protocol_type: ProtocolType::UDP,
        socket_address: SocketAddress {
            address: Address::IPV4(Ipv4Addr { octets: [1, 2, 3, 4] }),
            port: 5150,
        },
    };
    ConnectionDescriptor::new_no_local(remote)
}

#[test]
fn bucket_entry_classification() {
    // fresh entry: unreliable
    let mut e = BucketEntryInner::new(0);
    assert_eq!(e.state(0), BucketEntryState::Unreliable);

    // question sent expecting an answer, then a question received after 70
    // seconds: still within a fresh consecutive-seen span, so unreliable
    e.question_sent(0, 100, true);
    e.question_rcvd(70 * SECS, 100);
    assert_eq!(e.state(70 * SECS), BucketEntryState::Unreliable);

    // keep exchanging at five-second intervals for 65 more seconds with no
    // failed sends: the span matures and the entry becomes reliable
    let mut t = 70 * SECS;
    while t <= 135 * SECS {
        e.question_sent(t, 100, true);
        e.answer_rcvd(t, t + 1000, 100);
        t += 5 * SECS;
    }
    assert_eq!(e.state(135 * SECS), BucketEntryState::Reliable);

    // three consecutive failures to send: dead
    e.failed_to_send(135 * SECS, true);
    e.failed_to_send(135 * SECS, true);
    e.failed_to_send(135 * SECS, true);
    assert_eq!(e.state(135 * SECS), BucketEntryState::Dead);
}

#[test]
fn bucket_entry_never_seen_lost_answers_dead() {
    let mut e = BucketEntryInner::new(0);
    e.question_sent(0, 10, true);
    e.question_lost();
    e.question_sent(0, 10, true);
    e.question_lost();
    assert_eq!(e.state(1), BucketEntryState::Unreliable);
    e.question_sent(0, 10, true);
    e.question_lost();
    assert_eq!(e.state(1), BucketEntryState::Dead);
}

#[test]
fn bucket_entry_needs_ping_cadence() {
    let mut e = BucketEntryInner::new(0);
    e.question_rcvd(0, 10);
    // unreliable: pinged every five seconds
    assert!(!e.needs_ping(4 * SECS, false));
    assert!(e.needs_ping(5 * SECS, false));
    // our relay: keepalive every twenty seconds regardless
    assert!(!e.needs_ping(19 * SECS, true));
    assert!(e.needs_ping(20 * SECS, true));
}

#[test]
fn routing_table_register_lookup_and_health() {
    let own = typed(0);
    let mut table = RoutingTableInner::new(vec![own]).expect("distinct kinds");

    let a = typed(0b1000_0000);
    let b = typed(0b0100_0000);
    let ea = table
        .register_node_with_existing_connection(a, descriptor(), 10 * SECS)
        .expect("registered");
    let eb = table
        .register_node_with_existing_connection(b, descriptor(), 10 * SECS)
        .expect("registered");
    assert_ne!(ea, eb);

    assert_eq!(table.lookup_node_ref(a), Some(ea));
    assert_eq!(table.lookup_node_ref(b), Some(eb));
    assert_eq!(table.lookup_node_ref(typed(0b0010_0000)), None);

    // our own id is refused
    assert_eq!(table.register_node_with_existing_connection(own, descriptor(), 0), None);

    // both peers were just seen, so they are unreliable, not dead
    let health = table.get_routing_table_health(11 * SECS);
    assert_eq!(health.reliable_entry_count, 0);
    assert_eq!(health.unreliable_entry_count, 2);
    assert_eq!(health.dead_entry_count, 0);
    assert!(!health.public_internet_ready);
}

#[test]
fn routing_table_find_closest_orders_by_distance() {
    let own = typed(0);
    let mut table = RoutingTableInner::new(vec![own]).expect("distinct kinds");
    let near = typed(0b0000_0011);
    let mid = typed(0b0000_1100);
    let far = typed(0b1100_0000);
    let e_near = table.register_node_with_existing_connection(near, descriptor(), 0).unwrap();
    let e_mid = table.register_node_with_existing_connection(mid, descriptor(), 0).unwrap();
    let e_far = table.register_node_with_existing_connection(far, descriptor(), 0).unwrap();

    // target is our own zero key: order should be ascending first byte
    let r = table.find_closest_nodes(3, typed(0), 1);
    assert_eq!(r, vec![e_near, e_mid, e_far]);

    let r2 = table.find_closest_nodes(2, typed(0), 1);
    assert_eq!(r2, vec![e_near, e_mid]);
}

#[test]
fn routing_table_kick_bucket_keeps_referenced() {
    let own = typed(0);
    let mut table = RoutingTableInner::new(vec![own]).expect("distinct kinds");
    // first bytes with the top bit set all land in bucket zero
    let mut eis = Vec::new();
    for i in 0..4u8 {
        let t = typed(0b1000_0000 | (i + 1));
        let ei = table.register_node_with_existing_connection(t, descriptor(), 0).unwrap();
        eis.push(ei);
    }
    // bucket zero is deep (256), so nothing is evicted
    let removed = table.kick_bucket(vld0_kind(), 0);
    assert_eq!(removed, 0);
    for (i, ei) in eis.iter().enumerate() {
        let t = typed(0b1000_0000 | (i as u8 + 1));
        assert_eq!(table.lookup_node_ref(t), Some(*ei));
    }
}

#[test]
fn routing_table_bucket_serialize_round_trip() {
    let own = typed(0);
    let mut table = RoutingTableInner::new(vec![own]).expect("distinct kinds");
    for i in 1..=6u8 {
        let t = typed(i << 2);
        table
            .register_node_with_existing_connection(t, descriptor(), 0)
            .expect("registered");
    }
    let blobs = table.serialize_buckets();
    assert_eq!(blobs.len(), 256);
    let recovered = veilid_core::routing_table::deserialize_buckets(&blobs).expect("parses back");
    assert_eq!(recovered.len(), 256);
    // recovered buckets equal the originals position by position, in count
    // and ordered contents
    let mut total = 0;
    for g in 0..256 {
        assert_eq!(recovered[g].len(), table.buckets[g].entries.len());
        for j in 0..recovered[g].len() {
            assert_eq!(recovered[g][j].0.bytes, table.buckets[g].entries[j].0.bytes);
            assert_eq!(recovered[g][j].1, table.buckets[g].entries[j].1);
        }
        total += recovered[g].len();
    }
    assert_eq!(total, 6);
}

#[test]
fn bucket_blob_rejects_garbage() {
    let garbage: Vec<u8> = vec![7u8; 13];
    assert!(veilid_core::routing_table::deserialize_bucket(&garbage).is_none());
}

#[test]
fn bootstrap_merge_groups_by_node_id() {
    let sa = |port: u16| SocketAddress {
        address: Address::IPV4(Ipv4Addr { octets: [5, 6, 7, 8] }),
        port,
    };
    let entries = vec![
        (typed(1), DialInfo::UDP { socket_address: sa(100) }),
        (typed(2), DialInfo::TCP { socket_address: sa(200) }),
        (typed(1), DialInfo::TCP { socket_address: sa(300) }),
    ];
    let merged = bootstrap_merge(&entries);
    assert_eq!(merged.len(), 2);
    // one row per id, ids distinct, dial infos grouped in order
    assert_eq!(merged[0].0, typed(1));
    assert_eq!(merged[0].1.len(), 2);
    assert_eq!(merged[0].1[0].socket_address().port, 100);
    assert_eq!(merged[0].1[1].socket_address().port, 300);
    assert_eq!(merged[1].0, typed(2));
    assert_eq!(merged[1].1.len(), 1);
}
