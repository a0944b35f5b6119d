//! Address-filter enforcement: counts, rates and punishment.

use veilid_core::address_filter::{AddressFilter, AddressFilterError, IpAddress, Ipv4Addr,
    Ipv6Addr, ip_to_ipblock};

const MIN: u64 = 60_000_000;

fn ip4(a: u8, b: u8, c: u8, d: u8) -> IpAddress {
    IpAddress::V4(Ipv4Addr { octets: [a, b, c, d] })
}

#[test]
fn address_filter_count_and_punishment() {
    let mut f = AddressFilter::new(3, 3, 64, 5);
    let ip = ip4(1, 2, 3, 4);
    let t0 = 1000 * MIN;

    assert!(f.add_connection(&ip, t0).is_ok());
    assert!(f.add_connection(&ip, t0 + 1).is_ok());
    assert!(f.add_connection(&ip, t0 + 2).is_ok());
    assert_eq!(f.add_connection(&ip, t0 + 3), Err(AddressFilterError::CountExceeded));

    f.punish(&ip, t0 + 4);
    assert!(f.is_punished(&ip));
    assert_eq!(f.add_connection(&ip, t0 + 5), Err(AddressFilterError::Punished));

    // sixty-one minutes later the periodic task forgives the punishment
    let t1 = t0 + 61 * MIN;
    f.address_filter_task_routine(t1);
    assert!(!f.is_punished(&ip));

    // one connection goes away, so another may come in
    assert!(f.remove_connection(&ip, t1).is_ok());
    assert!(f.add_connection(&ip, t1).is_ok());
}

#[test]
fn address_filter_rate_limit() {
    let mut f = AddressFilter::new(100, 100, 64, 2);
    let ip = ip4(9, 9, 9, 9);
    let t0 = 50 * MIN;
    assert!(f.add_connection(&ip, t0).is_ok());
    assert!(f.add_connection(&ip, t0 + 1).is_ok());
    assert_eq!(f.add_connection(&ip, t0 + 2), Err(AddressFilterError::RateExceeded));
    // a minute later the rate window has drained
    assert!(f.add_connection(&ip, t0 + MIN + 3).is_ok());
}

#[test]
fn address_filter_remove_unknown() {
    let mut f = AddressFilter::new(3, 3, 64, 5);
    assert!(f.remove_connection(&ip4(8, 8, 8, 8), 0).is_err());
}

#[test]
fn address_filter_ipv6_prefix_block() {
    // two addresses in the same /64 share one block
    let mut o1 = [0u8; 16];
    o1[0] = 0x20;
    o1[15] = 1;
    let mut o2 = [0u8; 16];
    o2[0] = 0x20;
    o2[15] = 2;
    let a1 = IpAddress::V6(Ipv6Addr { octets: o1 });
    let a2 = IpAddress::V6(Ipv6Addr { octets: o2 });
    assert_eq!(ip_to_ipblock(&a1, 64), ip_to_ipblock(&a2, 64));
    assert_ne!(ip_to_ipblock(&a1, 128), ip_to_ipblock(&a2, 128));

    let mut f = AddressFilter::new(10, 1, 64, 10);
    let t0 = 100 * MIN;
    assert!(f.add_connection(&a1, t0).is_ok());
    assert_eq!(f.add_connection(&a2, t0 + 1), Err(AddressFilterError::CountExceeded));
}
