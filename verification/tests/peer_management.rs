use std::time::{Duration, Instant, UNIX_EPOCH};
use thunder_net::addr::{get_bucket, SocketAddr, SocketAddrV4, SocketAddrV6};
use thunder_net::addrman::AddrMan;
use thunder_net::errors::{NetError, PeerManagementError};
use thunder_net::message::AddrMessage;
use thunder_net::peer_info::PeerInfo;
use thunder_net::services::PeerServices;

fn ipv4(octets: [u8; 4], port: u16) -> SocketAddr {
    SocketAddr::V4(SocketAddrV4 { ip: u32::from_be_bytes(octets), port })
}

fn create_test_addr(port: u16) -> SocketAddr {
    ipv4([127, 0, 0, 1], port)
}

fn pause(span: Duration) {
    let start = Instant::now();
    while start.elapsed() < span {}
}

fn tried(port: u16, last_seen: u64) -> PeerInfo {
    let mut peer = PeerInfo::new(create_test_addr(port), create_test_addr(1));
    peer.is_tried = true;
    peer.last_seen = last_seen;
    peer
}

fn ports(addrman: &AddrMan) -> Vec<u16> {
    let mut ports: Vec<u16> = addrman
        .get_all_peers()
        .iter()
        .map(|p| match p.addr {
            SocketAddr::V4(a) => a.port,
            SocketAddr::V6(a) => a.port,
        })
        .collect();
    ports.sort();
    ports
}

#[test]
fn test_add_peer() {
    let mut addrman = AddrMan::new(100, 100);
    let addr = create_test_addr(8333);
    let source = create_test_addr(8334);

    let peer = PeerInfo::new(addr, source);
    addrman.add_peer(peer);

    assert_eq!(addrman.new_peer_count(), 1);
    assert_eq!(addrman.tried_peer_count(), 0);
}

#[test]
fn test_peer_services() {
    let mut services = PeerServices::none();
    assert!(!services.has_service(PeerServices::network()));

    services.add_service(PeerServices::network());
    assert!(services.has_service(PeerServices::network()));

    services.add_service(PeerServices::bloom());
    assert!(services.has_service(PeerServices::network()));
    assert!(services.has_service(PeerServices::bloom()));
}

#[test]
fn test_peer_info_updates() {
    let addr = create_test_addr(8333);
    let source = create_test_addr(8334);
    let mut peer = PeerInfo::new(addr, source);

    assert_eq!(peer.attempts, 0);
    assert_eq!(peer.last_seen, 0);
    assert_eq!(peer.last_try, 0);

    peer.update_last_try();
    assert_eq!(peer.attempts, 1);
    assert!(peer.last_try > 0);

    peer.update_last_seen();
    assert!(peer.last_seen > 0);
}

#[test]
fn test_peer_selection() {
    let mut addrman = AddrMan::new(100, 100);
    let addr1 = create_test_addr(8333);
    let addr2 = create_test_addr(8334);
    let source = create_test_addr(8335);

    // Add a tried peer
    let mut peer1 = PeerInfo::new(addr1, source);
    peer1.is_tried = true;
    addrman.add_peer(peer1);

    // Add a new peer
    let peer2 = PeerInfo::new(addr2, source);
    addrman.add_peer(peer2);

    // Should select tried peer first
    let selected = addrman.select_peer();
    assert!(selected.is_some());
    assert_eq!(selected.unwrap(), addr1);
}

#[test]
fn test_max_peers_limit() {
    let mut addrman = AddrMan::new(2, 2); // Small limits for testing

    // Add more peers than the limit
    for i in 0..4 {
        let addr = create_test_addr(8333 + i);
        let source = create_test_addr(8334);
        let mut peer = PeerInfo::new(addr, source);
        peer.is_tried = i < 2; // First two are tried
        addrman.add_peer(peer);
    }

    assert_eq!(addrman.tried_peer_count(), 2);
    assert_eq!(addrman.new_peer_count(), 2);
}

#[test]
fn test_oldest_peer_removal() {
    let mut addrman = AddrMan::new(2, 2);
    let source = create_test_addr(8334);

    // Add three tried peers
    for i in 0..3 {
        let addr = create_test_addr(8333 + i);
        let mut peer = PeerInfo::new(addr, source);
        peer.is_tried = true;
        pause(Duration::from_millis(10)); // Ensure different timestamps
        peer.update_last_seen();
        addrman.add_peer(peer);
    }

    assert_eq!(addrman.tried_peer_count(), 2); // Should remove oldest
}

#[test]
fn test_get_all_peers() {
    let mut addrman = AddrMan::new(100, 100);
    let source = create_test_addr(8334);

    // Add some peers
    for i in 0..5 {
        let addr = create_test_addr(8333 + i);
        let mut peer = PeerInfo::new(addr, source);
        peer.is_tried = i < 3; // First three are tried
        addrman.add_peer(peer);
    }

    let all_peers = addrman.get_all_peers();
    assert_eq!(all_peers.len(), 5);
    assert_eq!(addrman.tried_peer_count(), 3);
    assert_eq!(addrman.new_peer_count(), 2);
}

#[test]
fn test_peer_bucketing() {
    let mut addrman = AddrMan::new(100, 100);
    let source = create_test_addr(8334);

    // Add peers with different IPs
    let addr1 = ipv4([192, 168, 1, 1], 8333);
    let addr2 = ipv4([192, 168, 1, 2], 8333);

    let peer1 = PeerInfo::new(addr1, source);
    let peer2 = PeerInfo::new(addr2, source);

    addrman.add_peer(peer1);
    addrman.add_peer(peer2);

    assert_eq!(addrman.new_peer_count(), 2);
}

#[test]
fn test_addr_message_creation() {
    let addr1 = create_test_addr(8333);
    let addr2 = create_test_addr(8334);
    let source = create_test_addr(8335);

    let mut peer1 = PeerInfo::new(addr1, source);
    let mut peer2 = PeerInfo::new(addr2, source);
    peer1.services.add_service(PeerServices::network());
    peer2.services.add_service(PeerServices::bloom());

    let peers = vec![peer1, peer2];
    let addr_message = AddrMessage::from(peers.clone());

    assert_eq!(addr_message.addresses.len(), 2);
    assert_eq!(addr_message.addresses[0].addr, addr1);
    assert_eq!(addr_message.addresses[1].addr, addr2);
    assert!(addr_message.addresses[0].services.has_service(PeerServices::network()));
    assert!(addr_message.addresses[1].services.has_service(PeerServices::bloom()));
}

#[test]
fn test_addr_message_handling() {
    let mut addrman = AddrMan::new(100, 100);
    let addr1 = create_test_addr(8333);
    let addr2 = create_test_addr(8334);
    let source = create_test_addr(8335);

    // Create and add initial peer
    let mut peer1 = PeerInfo::new(addr1, source);
    peer1.services.add_service(PeerServices::network());
    addrman.add_peer(peer1);

    // Create addr message with new peer
    let mut peer2 = PeerInfo::new(addr2, source);
    peer2.services.add_service(PeerServices::bloom());
    let addr_message = AddrMessage::from(vec![peer2]);

    // Simulate receiving addr message
    for peer_info in addr_message.addresses {
        addrman.add_peer(peer_info);
    }

    // Verify both peers are now in addrman
    let all_peers = addrman.get_all_peers();
    assert_eq!(all_peers.len(), 2);
    assert!(all_peers.iter().any(|p| p.addr == addr1));
    assert!(all_peers.iter().any(|p| p.addr == addr2));
}

#[test]
fn test_addr_message_duplicate_handling() {
    let mut addrman = AddrMan::new(100, 100);
    let addr = create_test_addr(8333);
    let source = create_test_addr(8334);

    // Create and add initial peer
    let mut peer = PeerInfo::new(addr, source);
    peer.services.add_service(PeerServices::network());
    addrman.add_peer(peer);

    // Create addr message with the same peer
    let mut peer_duplicate = PeerInfo::new(addr, source);
    peer_duplicate.services.add_service(PeerServices::bloom());
    let addr_message = AddrMessage::from(vec![peer_duplicate]);

    // Simulate receiving addr message
    for peer_info in addr_message.addresses {
        addrman.add_peer(peer_info);
    }

    // Verify only one instance of the peer exists
    let all_peers = addrman.get_all_peers();
    assert_eq!(all_peers.len(), 1);
    assert_eq!(all_peers[0].addr, addr);
    // Verify services were updated
    assert!(all_peers[0].services.has_service(PeerServices::bloom()));
}

#[test]
fn test_addr_message_broadcast() {
    let mut addrman = AddrMan::new(100, 100);
    let source = create_test_addr(8334);

    // Add multiple peers
    for i in 0..5 {
        let addr = create_test_addr(8333 + i);
        let mut peer = PeerInfo::new(addr, source);
        peer.services.add_service(PeerServices::network());
        addrman.add_peer(peer);
    }

    // Get all peers for broadcast
    let all_peers = addrman.get_all_peers();
    let addr_message = AddrMessage::from(all_peers.iter().map(|p| **p).collect::<Vec<_>>());

    // Verify broadcast message contains all peers
    assert_eq!(addr_message.addresses.len(), 5);
    for i in 0..5 {
        let addr = create_test_addr(8333 + i);
        assert!(addr_message.addresses.iter().any(|p| p.addr == addr));
    }
}

#[test]
fn test_addr_message_services_preservation() {
    let mut addrman = AddrMan::new(100, 100);
    let addr = create_test_addr(8333);
    let source = create_test_addr(8334);

    // Create peer with multiple services
    let mut peer = PeerInfo::new(addr, source);
    peer.services.add_service(PeerServices::network());
    peer.services.add_service(PeerServices::bloom());
    peer.services.add_service(PeerServices::witness());

    // Add to addrman
    addrman.add_peer(peer);

    // Create addr message
    let all_peers = addrman.get_all_peers();
    let addr_message = AddrMessage::from(all_peers.iter().map(|p| **p).collect::<Vec<_>>());

    // Verify services are preserved in the message
    assert_eq!(addr_message.addresses.len(), 1);
    let peer_services = addr_message.addresses[0].services;
    assert!(peer_services.has_service(PeerServices::network()));
    assert!(peer_services.has_service(PeerServices::bloom()));
    assert!(peer_services.has_service(PeerServices::witness()));
}

#[test]
fn service_bits() {
    assert_eq!(PeerServices::none().services, 0);
    assert_eq!(PeerServices::network().services, 1 << 0);
    assert_eq!(PeerServices::bloom().services, 1 << 1);
    assert_eq!(PeerServices::witness().services, 1 << 2);
    assert_eq!(PeerServices::compact_filters().services, 1 << 3);
    assert_eq!(PeerServices::network_limited().services, 1 << 10);
}

#[test]
fn no_service_is_never_found() {
    let mut services = PeerServices::network();
    services.add_service(PeerServices::none());
    assert_eq!(services, PeerServices::network());
    assert!(!services.has_service(PeerServices::none()));
}

#[test]
fn services_add_up_in_any_order() {
    let mut one = PeerServices::network();
    one.add_service(PeerServices::network_limited());
    one.add_service(PeerServices::network_limited());
    let mut other = PeerServices::network_limited();
    other.add_service(PeerServices::network());
    assert_eq!(one, other);
    assert_eq!(one.services, 1025);
    assert!(!one.has_service(PeerServices::bloom()));
}

#[test]
fn a_clock_reading_becomes_whole_seconds() {
    let mut peer = PeerInfo::new(create_test_addr(8333), create_test_addr(8334));
    peer.seen_at(&Ok(Duration::from_millis(41_999)));
    assert_eq!(peer.last_seen, 41);
    assert_eq!(peer.last_try, 0);
    assert_eq!(peer.attempts, 0);
    peer.tried_at(&Ok(Duration::new(77, 5)));
    peer.tried_at(&Ok(Duration::new(78, 5)));
    assert_eq!(peer.last_try, 78);
    assert_eq!(peer.attempts, 2);
    assert_eq!(peer.last_seen, 41);
}

#[test]
fn a_timestamp_is_noted_as_it_is() {
    let mut peer = PeerInfo::new(create_test_addr(8333), create_test_addr(8334));
    peer.seen_at_timestamp(1_700_000_000);
    peer.tried_at_timestamp(1_700_000_001);
    peer.tried_at_timestamp(1_700_000_002);
    assert_eq!(
        (peer.last_seen, peer.last_try, peer.attempts),
        (1_700_000_000, 1_700_000_002, 2)
    );
}

#[test]
fn a_clock_before_the_epoch_reads_zero() {
    let before_epoch = UNIX_EPOCH.duration_since(UNIX_EPOCH + Duration::from_secs(9));
    assert!(before_epoch.is_err());
    let mut peer = PeerInfo::new(create_test_addr(8333), create_test_addr(8334));
    peer.last_seen = 5;
    peer.last_try = 5;
    peer.seen_at(&before_epoch);
    peer.tried_at(&before_epoch);
    assert_eq!((peer.last_seen, peer.last_try, peer.attempts), (0, 0, 1));
}

#[test]
fn updates_read_the_clock_in_seconds() {
    let mut peer = PeerInfo::new(create_test_addr(8333), create_test_addr(8334));
    let before = UNIX_EPOCH.elapsed().unwrap().as_secs();
    peer.update_last_seen();
    peer.update_last_try();
    let after = UNIX_EPOCH.elapsed().unwrap().as_secs();
    assert!(before <= peer.last_seen && peer.last_seen <= after);
    assert!(before <= peer.last_try && peer.last_try <= after);
}

#[test]
fn a_new_peer_starts_blank() {
    let addr = create_test_addr(8333);
    let source = create_test_addr(8334);
    let peer = PeerInfo::new(addr, source);
    assert_eq!(
        peer,
        PeerInfo {
            addr,
            last_seen: 0,
            services: PeerServices { services: 0 },
            source,
            last_try: 0,
            attempts: 0,
            is_tried: false,
        }
    );
}

#[test]
fn the_oldest_peer_leaves() {
    let mut addrman = AddrMan::new(3, 3);
    addrman.add_peer(tried(1, 30));
    addrman.add_peer(tried(2, 10));
    addrman.add_peer(tried(3, 20));
    addrman.add_peer(tried(4, 40));
    assert_eq!(ports(&addrman), vec![1, 3, 4]);
    addrman.add_peer(tried(5, 50));
    assert_eq!(ports(&addrman), vec![1, 4, 5]);
}

#[test]
fn a_late_comer_may_itself_be_the_oldest() {
    let mut addrman = AddrMan::new(2, 2);
    addrman.add_peer(tried(1, 30));
    addrman.add_peer(tried(2, 20));
    addrman.add_peer(tried(3, 10));
    assert_eq!(ports(&addrman), vec![1, 2]);
}

#[test]
fn a_limit_of_zero_keeps_nothing() {
    let mut addrman = AddrMan::new(0, 0);
    addrman.add_peer(tried(1, 30));
    addrman.add_peer(PeerInfo::new(create_test_addr(2), create_test_addr(3)));
    assert_eq!(addrman.tried_peer_count(), 0);
    assert_eq!(addrman.new_peer_count(), 0);
    assert_eq!(addrman.select_peer(), None);
}

#[test]
fn limits_hold_over_many_peers() {
    let mut addrman = AddrMan::new(7, 11);
    for i in 0..200u16 {
        let mut peer = tried(i % 60, (i as u64 * 37) % 101);
        peer.is_tried = i % 3 == 0;
        addrman.add_peer(peer);
        assert!(addrman.tried_peer_count() <= 7);
        assert!(addrman.new_peer_count() <= 11);
        let mut seen = ports(&addrman);
        let n = seen.len();
        assert_eq!(n, addrman.tried_peer_count() + addrman.new_peer_count());
        seen.dedup();
        assert_eq!(seen.len(), n);
    }
    assert_eq!(addrman.tried_peer_count(), 7);
    assert_eq!(addrman.new_peer_count(), 11);
}

#[test]
fn a_duplicate_does_not_push_others_out() {
    let mut addrman = AddrMan::new(2, 2);
    addrman.add_peer(tried(1, 30));
    addrman.add_peer(tried(2, 20));
    addrman.add_peer(tried(1, 60));
    assert_eq!(ports(&addrman), vec![1, 2]);
    let all_peers = addrman.get_all_peers();
    assert!(all_peers.iter().any(|p| **p == tried(1, 60)));
    assert!(all_peers.iter().any(|p| **p == tried(2, 20)));
}

#[test]
fn connecting_moves_a_peer_to_the_tried_set() {
    let mut addrman = AddrMan::new(10, 10);
    let mut peer = PeerInfo::new(create_test_addr(1), create_test_addr(2));
    addrman.add_peer(peer);
    peer.is_tried = true;
    peer.last_seen = 12;
    addrman.add_peer(peer);
    assert_eq!((addrman.tried_peer_count(), addrman.new_peer_count()), (1, 0));
    assert_eq!(*addrman.get_all_peers()[0], peer);
}

#[test]
fn a_new_peer_stays_where_the_tried_set_has_no_room() {
    let mut addrman = AddrMan::new(0, 10);
    let gossip = PeerInfo::new(create_test_addr(1), create_test_addr(77));
    addrman.add_peer(gossip);
    addrman.add_peer(tried(1, 50));
    assert_eq!((addrman.tried_peer_count(), addrman.new_peer_count()), (0, 1));
    assert_eq!(*addrman.get_all_peers()[0], gossip);

    let mut addrman = AddrMan::new(2, 10);
    addrman.add_peer(tried(2, 60));
    addrman.add_peer(tried(3, 70));
    addrman.add_peer(gossip);
    addrman.add_peer(tried(1, 50));
    assert_eq!((addrman.tried_peer_count(), addrman.new_peer_count()), (2, 1));
    assert_eq!(*addrman.get_all_peers()[2], gossip);
    // Once it is seen later than another, it takes that one's place
    addrman.add_peer(tried(1, 65));
    assert_eq!((addrman.tried_peer_count(), addrman.new_peer_count()), (2, 0));
    assert_eq!(ports(&addrman), vec![1, 3]);
}

#[test]
fn hearsay_about_a_tried_peer_tells_only_its_services() {
    let mut addrman = AddrMan::new(10, 10);
    let mut ours = tried(1, 30);
    ours.last_try = 20;
    ours.attempts = 3;
    ours.services.add_service(PeerServices::network());
    addrman.add_peer(ours);
    let mut gossip = PeerInfo::new(create_test_addr(1), create_test_addr(77));
    gossip.services.add_service(PeerServices::bloom());
    addrman.add_peer(gossip);
    assert_eq!((addrman.tried_peer_count(), addrman.new_peer_count()), (1, 0));
    ours.services = PeerServices::bloom();
    assert_eq!(*addrman.get_all_peers()[0], ours);
}

#[test]
fn a_set_ends_up_with_the_peers_seen_last() {
    let mut addrman = AddrMan::new(3, 2);
    for (port, last_seen) in [(1, 50), (2, 10), (3, 70), (4, 20), (5, 60), (6, 40), (7, 30)] {
        addrman.add_peer(tried(port, last_seen));
    }
    assert_eq!(ports(&addrman), vec![1, 3, 5]);
    for (port, last_seen) in [(11, 5), (12, 9), (13, 7), (14, 8)] {
        let mut peer = tried(port, last_seen);
        peer.is_tried = false;
        addrman.add_peer(peer);
    }
    assert_eq!(ports(&addrman), vec![1, 3, 5, 12, 14]);
}

#[test]
fn the_least_recently_tried_peer_is_selected() {
    let mut addrman = AddrMan::new(10, 10);
    assert_eq!(addrman.select_peer(), None);
    for (port, last_try) in [(1, 50), (2, 20), (3, 90)] {
        let mut peer = PeerInfo::new(create_test_addr(port), create_test_addr(9));
        peer.last_try = last_try;
        addrman.add_peer(peer);
    }
    assert_eq!(addrman.select_peer(), Some(create_test_addr(2)));
    for (port, last_try) in [(4, 800), (5, 700)] {
        let mut peer = tried(port, 0);
        peer.last_try = last_try;
        addrman.add_peer(peer);
    }
    assert_eq!(addrman.select_peer(), Some(create_test_addr(5)));
}

#[test]
fn tried_peers_are_listed_first() {
    let mut addrman = AddrMan::new(10, 10);
    for port in 0..8 {
        let mut peer = tried(port, 0);
        peer.is_tried = port % 2 == 1;
        addrman.add_peer(peer);
    }
    let flags: Vec<bool> = addrman.get_all_peers().iter().map(|p| p.is_tried).collect();
    assert_eq!(flags, vec![true, true, true, true, false, false, false, false]);
}

#[test]
fn equal_addresses_share_a_bucket() {
    let v6 = SocketAddr::V6(SocketAddrV6 { ip: 1, port: 8333, flowinfo: 0, scope_id: 0 });
    assert_eq!(get_bucket(&v6), get_bucket(&v6));
    assert_eq!(get_bucket(&create_test_addr(1)), get_bucket(&create_test_addr(1)));
    assert_ne!(get_bucket(&create_test_addr(1)), get_bucket(&create_test_addr(2)));
    assert_ne!(get_bucket(&v6), get_bucket(&create_test_addr(8333)));
}

#[test]
fn addresses_of_both_families_are_kept_apart() {
    let mut addrman = AddrMan::new(10, 10);
    let source = create_test_addr(9);
    let v4 = SocketAddr::V4(SocketAddrV4 { ip: 1, port: 8333 });
    let v6 = SocketAddr::V6(SocketAddrV6 { ip: 1, port: 8333, flowinfo: 0, scope_id: 0 });
    let scoped = SocketAddr::V6(SocketAddrV6 { ip: 1, port: 8333, flowinfo: 0, scope_id: 2 });
    for addr in [v4, v6, scoped, v6] {
        addrman.add_peer(PeerInfo::new(addr, source));
    }
    assert_eq!(addrman.new_peer_count(), 3);
}

#[test]
fn a_storage_error_becomes_a_peer_management_error() {
    let error = NetError { reason: String::from("closed") };
    assert_eq!(
        PeerManagementError::from(error.clone()),
        PeerManagementError::Database(error)
    );
}
