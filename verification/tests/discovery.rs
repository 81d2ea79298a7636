use ipnd::beacon::{Beacon, DecodeError, Service};
use ipnd::discovery::{
    announce_destinations, cla_kinds_of, contact_duration, handle_datagram, ClaKinds,
    DiscardReason, IpConfig,
};
use ipnd::neighbors::{IpAddress, NeighborTable, PeerAddr};

fn own_kinds_tcpclv3() -> ClaKinds {
    ClaKinds { tcpclv4: false, tcpclv3: true, mtcpcl: false }
}

fn beacon_from(node_id: Option<&str>, seq: u64) -> Vec<u8> {
    let mut b = Beacon::new();
    b.node_id = node_id.map(|s| s.to_string());
    b.sequence_number = seq;
    b.services.push(Service::TCPCLv3(4556));
    b.period = Some(30);
    b.as_bytes()
}

fn addr_v4(a: u32, port: u16) -> PeerAddr {
    PeerAddr { ip: IpAddress::V4(a), port }
}

#[test]
fn scenario_fresh_stale_fresh() {
    let mut table = NeighborTable::new();
    let own = "dtn://self/".to_string();
    let kinds = own_kinds_tcpclv3();
    let src = addr_v4(0x0a000001, 3005); // 10.0.0.1

    // empty table, sequence 1: accepted, contact emitted
    let r1 = handle_datagram(&mut table, &own, kinds, &IpConfig::Both, src, &beacon_from(Some("dtn://peer/"), 1));
    let c1 = r1.expect("first beacon from a new address is accepted");
    assert_eq!(c1.peer_id, "dtn://peer/");
    assert_eq!(c1.cla_address, "tcpclv3:10.0.0.1:4556");
    assert_eq!(c1.duration_secs, 60); // twice the declared period

    // the same sequence number again: not strictly greater, rejected
    let r2 = handle_datagram(&mut table, &own, kinds, &IpConfig::Both, src, &beacon_from(Some("dtn://peer/"), 1));
    assert_eq!(r2.unwrap_err(), DiscardReason::Stale);

    // sequence 2: accepted again
    let r3 = handle_datagram(&mut table, &own, kinds, &IpConfig::Both, src, &beacon_from(Some("dtn://peer/"), 2));
    assert!(r3.is_ok());

    // an older number after that: rejected
    let r4 = handle_datagram(&mut table, &own, kinds, &IpConfig::Both, src, &beacon_from(Some("dtn://peer/"), 1));
    assert_eq!(r4.unwrap_err(), DiscardReason::Stale);
}

#[test]
fn freshness_is_per_source_address() {
    let mut table = NeighborTable::new();
    let own = "dtn://self/".to_string();
    let kinds = own_kinds_tcpclv3();
    let a = addr_v4(0x0a000001, 3005);
    let b = addr_v4(0x0a000002, 3005);
    assert!(handle_datagram(&mut table, &own, kinds, &IpConfig::Both, a, &beacon_from(Some("p"), 5)).is_ok());
    // a different address starts its own freshness slot
    assert!(handle_datagram(&mut table, &own, kinds, &IpConfig::Both, b, &beacon_from(Some("q"), 1)).is_ok());
}

#[test]
fn self_beacon_is_rejected_regardless_of_sequence() {
    let mut table = NeighborTable::new();
    let own = "dtn://self/".to_string();
    let kinds = own_kinds_tcpclv3();
    let src = addr_v4(0x0a000001, 3005);
    for seq in [0u64, 1, 1000, u64::MAX] {
        let r = handle_datagram(&mut table, &own, kinds, &IpConfig::Both, src, &beacon_from(Some("dtn://self/"), seq));
        assert_eq!(r.unwrap_err(), DiscardReason::SelfBeacon);
    }
    // the table was never touched: sequence 0 from that address is still fresh
    let r = handle_datagram(&mut table, &own, kinds, &IpConfig::Both, src, &beacon_from(Some("dtn://peer/"), 0));
    assert!(r.is_ok());
}

#[test]
fn no_matching_service_no_contact() {
    let mut table = NeighborTable::new();
    let own = "dtn://self/".to_string();
    // this node only offers TCPCLv4; the beacon only offers TCPCLv3
    let kinds = ClaKinds { tcpclv4: true, tcpclv3: false, mtcpcl: false };
    let src = addr_v4(0x0a000001, 3005);
    let r = handle_datagram(&mut table, &own, kinds, &IpConfig::Both, src, &beacon_from(Some("dtn://peer/"), 1));
    assert_eq!(r.unwrap_err(), DiscardReason::NoMatchingService);
    // the freshness slot was still consumed
    let r2 = handle_datagram(&mut table, &own, kinds, &IpConfig::Both, src, &beacon_from(Some("dtn://peer/"), 1));
    assert_eq!(r2.unwrap_err(), DiscardReason::Stale);
}

#[test]
fn missing_node_id_no_contact() {
    let mut table = NeighborTable::new();
    let own = "dtn://self/".to_string();
    let kinds = own_kinds_tcpclv3();
    let src = addr_v4(0x0a000001, 3005);
    let r = handle_datagram(&mut table, &own, kinds, &IpConfig::Both, src, &beacon_from(None, 1));
    assert_eq!(r.unwrap_err(), DiscardReason::MissingNodeId);
}

#[test]
fn decode_failure_is_reported_and_changes_nothing() {
    let mut table = NeighborTable::new();
    let own = "dtn://self/".to_string();
    let kinds = own_kinds_tcpclv3();
    let src = addr_v4(0x0a000001, 3005);
    let r = handle_datagram(&mut table, &own, kinds, &IpConfig::Both, src, &[0x83, 0x07, 0x00, 0x00]);
    assert_eq!(r.unwrap_err(), DiscardReason::DecodeFailed(DecodeError::UnsupportedVersion));
    let r2 = handle_datagram(&mut table, &own, kinds, &IpConfig::Both, src, &[0xff]);
    assert_eq!(r2.unwrap_err(), DiscardReason::DecodeFailed(DecodeError::MalformedEncoding));
}

#[test]
fn ipv6_only_discards_v4_mapped_sources_after_the_freshness_check() {
    let mut table = NeighborTable::new();
    let own = "dtn://self/".to_string();
    let kinds = own_kinds_tcpclv3();
    // ::ffff:10.0.0.1
    let mapped = PeerAddr { ip: IpAddress::V6((0xffffu128 << 32) | 0x0a000001), port: 3005 };
    let r = handle_datagram(&mut table, &own, kinds, &IpConfig::Ipv6Only, mapped, &beacon_from(Some("p"), 1));
    assert_eq!(r.unwrap_err(), DiscardReason::WrongAddressFamily);
    // in dual-stack operation the same datagram is accepted, and the
    // mapped source is rendered in its IPv4 form
    let r2 = handle_datagram(&mut table, &own, kinds, &IpConfig::Both, mapped, &beacon_from(Some("p"), 1));
    assert_eq!(r2.unwrap().cla_address, "tcpclv3:10.0.0.1:4556");
}

#[test]
fn plain_ipv6_sources_are_rendered_bracketed() {
    let mut table = NeighborTable::new();
    let own = "dtn://self/".to_string();
    let kinds = own_kinds_tcpclv3();
    // fe80::1
    let src = PeerAddr { ip: IpAddress::V6(0xfe80u128 << 112 | 1), port: 3005 };
    let r = handle_datagram(&mut table, &own, kinds, &IpConfig::Ipv6Only, src, &beacon_from(Some("p"), 1));
    assert_eq!(r.unwrap().cla_address, "tcpclv3:[fe80:0:0:0:0:0:0:1]:4556");
}

#[test]
fn first_matching_service_wins() {
    let mut table = NeighborTable::new();
    let own = "dtn://self/".to_string();
    let kinds = ClaKinds { tcpclv4: true, tcpclv3: true, mtcpcl: false };
    let src = addr_v4(0x7f000001, 3005);
    let mut b = Beacon::new();
    b.node_id = Some("p".to_string());
    b.sequence_number = 1;
    b.services.push(Service::MTCPCL(1)); // not offered by this node
    b.services.push(Service::TCPCLv3(2222)); // first mutual kind
    b.services.push(Service::TCPCLv4(3333));
    let r = handle_datagram(&mut table, &own, kinds, &IpConfig::Both, src, &b.as_bytes());
    assert_eq!(r.unwrap().cla_address, "tcpclv3:127.0.0.1:2222");
}

#[test]
fn default_contact_duration_without_period() {
    let mut table = NeighborTable::new();
    let own = "dtn://self/".to_string();
    let kinds = own_kinds_tcpclv3();
    let src = addr_v4(0x0a000001, 3005);
    let mut b = Beacon::new();
    b.node_id = Some("p".to_string());
    b.sequence_number = 1;
    b.services.push(Service::TCPCLv3(4556));
    let r = handle_datagram(&mut table, &own, kinds, &IpConfig::Both, src, &b.as_bytes());
    assert_eq!(r.unwrap().duration_secs, 30);
}

#[test]
fn contact_duration_saturates() {
    assert_eq!(contact_duration(Some(30)), 60);
    assert_eq!(contact_duration(None), 30);
    assert_eq!(contact_duration(Some(u64::MAX)), u64::MAX);
    assert_eq!(contact_duration(Some(u64::MAX / 2)), u64::MAX - 1);
}

#[test]
fn cla_kinds_derived_from_own_services() {
    let mut b = Beacon::new();
    b.services.push(Service::TCPCLv3(4556));
    b.services.push(Service::Address("x".to_string()));
    let kinds = cla_kinds_of(&b.services);
    assert_eq!(kinds, ClaKinds { tcpclv4: false, tcpclv3: true, mtcpcl: false });
    assert_eq!(
        cla_kinds_of(&Vec::new()),
        ClaKinds { tcpclv4: false, tcpclv3: false, mtcpcl: false }
    );
}

#[test]
fn neighbor_table_lookup_and_record() {
    let mut t = NeighborTable::new();
    let a = addr_v4(1, 1);
    let b = addr_v4(2, 1);
    assert_eq!(t.lookup(a), None);
    t.record(a, 7);
    assert_eq!(t.lookup(a), Some(7));
    assert_eq!(t.lookup(b), None);
    t.record(a, 9);
    assert_eq!(t.lookup(a), Some(9));
    t.record(b, 1);
    assert_eq!(t.lookup(a), Some(9));
    assert_eq!(t.lookup(b), Some(1));
}

#[test]
fn destinations_follow_configuration() {
    let multi = announce_destinations(&IpConfig::Both, false);
    assert_eq!(multi, vec!["[ff02::d4cd:0305:3af1:aeef:75de]:3005", "224.0.0.108:3005"]);
    let bcast = announce_destinations(&IpConfig::Both, true);
    assert_eq!(bcast, vec!["[ff02::1]:3005", "255.255.255.255:3005"]);
    let v4 = announce_destinations(&IpConfig::Ipv4Only, false);
    assert_eq!(v4, vec!["224.0.0.108:3005"]);
    let v6 = announce_destinations(&IpConfig::Ipv6Only, true);
    assert_eq!(v6, vec!["[ff02::1]:3005"]);
}
