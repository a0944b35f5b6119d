//! Route allocation: uniqueness of hop sequences and route keys.

use veilid_core::crypto::generate_keypair;
use veilid_core::crypto_types::CryptoKey;
use veilid_core::route_spec_store::{DirectionSet, RouteSpecStore};

fn node(b: u8) -> CryptoKey {
    let mut bytes = [0u8; 32];
    bytes[0] = b;
    CryptoKey { bytes }
}

fn full_mesh(n: usize) -> Vec<Vec<bool>> {
    let mut m = Vec::new();
    for _ in 0..n {
        m.push(vec![true; n]);
    }
    m
}

#[test]
fn route_allocation_unique_sequences_and_keys() {
    let mut rss = RouteSpecStore::new();
    let nodes: Vec<CryptoKey> = (1..=10u8).map(node).collect();
    let mesh = full_mesh(10);
    let dirs = DirectionSet { outbound: true, inbound: true };

    let mut keys: Vec<CryptoKey> = Vec::new();
    for _ in 0..5 {
        let kp = generate_keypair();
        let k = rss
            .allocate_route(&nodes, &mesh, 3, 8, dirs, &kp, 100)
            .expect("enough nodes for a fresh route");
        assert_eq!(k, kp.key);
        keys.push(k);
    }
    assert_eq!(rss.route_count(), 5);
    assert_eq!(rss.hop_cache.len(), 5);

    // all route keys are distinct
    for i in 0..keys.len() {
        for j in 0..keys.len() {
            if i != j {
                assert_ne!(keys[i], keys[j]);
            }
        }
    }
    // all hop sequences are distinct
    for i in 0..rss.details.len() {
        for j in 0..rss.details.len() {
            if i != j {
                assert_ne!(
                    rss.details[i].1.hops.iter().map(|k| k.bytes).collect::<Vec<_>>(),
                    rss.details[j].1.hops.iter().map(|k| k.bytes).collect::<Vec<_>>()
                );
            }
        }
    }

    // every hop sequence has no repeated node
    for i in 0..rss.details.len() {
        let hops = &rss.details[i].1.hops;
        for a in 0..hops.len() {
            for b in 0..hops.len() {
                if a != b {
                    assert_ne!(hops[a], hops[b]);
                }
            }
        }
    }

    // a hop count over the maximum is refused
    assert!(rss.allocate_route(&nodes, &mesh, 11, 8, dirs, &generate_keypair(), 101).is_none());
    // a single hop is refused
    assert!(rss.allocate_route(&nodes, &mesh, 1, 8, dirs, &generate_keypair(), 101).is_none());
    // more hops than nodes is refused
    let three: Vec<CryptoKey> = (1..=3u8).map(node).collect();
    assert!(rss
        .allocate_route(&three, &full_mesh(3), 4, 8, dirs, &generate_keypair(), 101)
        .is_none());
}

#[test]
fn route_allocation_respects_reachability() {
    let mut rss = RouteSpecStore::new();
    let nodes: Vec<CryptoKey> = (1..=2u8).map(node).collect();
    // nobody can contact anybody: no outbound route can exist
    let mesh = vec![vec![false; 2], vec![false; 2]];
    let dirs = DirectionSet { outbound: true, inbound: false };
    assert!(rss.allocate_route(&nodes, &mesh, 2, 8, dirs, &generate_keypair(), 0).is_none());

    // with contact restored the route allocates
    let mesh2 = full_mesh(2);
    assert!(rss.allocate_route(&nodes, &mesh2, 2, 8, dirs, &generate_keypair(), 0).is_some());
}

#[test]
fn route_lifecycle_publish_touch_release() {
    let mut rss = RouteSpecStore::new();
    let nodes: Vec<CryptoKey> = (1..=4u8).map(node).collect();
    let mesh = full_mesh(4);
    let dirs = DirectionSet { outbound: true, inbound: true };
    let k = rss.allocate_route(&nodes, &mesh, 2, 8, dirs, &generate_keypair(), 7).expect("route");

    assert!(!rss.details[0].1.published);
    assert!(rss.mark_route_published(&k));
    assert!(rss.details[0].1.published);
    assert_eq!(rss.details[0].1.created_ts, 7);

    assert!(rss.touch_route_checked(&k, 99));
    assert_eq!(rss.details[0].1.last_checked_ts, Some(99));

    assert!(rss.release_route(&k));
    assert_eq!(rss.route_count(), 0);
    assert!(!rss.release_route(&k));
}
