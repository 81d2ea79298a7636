//! The discovery engine's decisions: which received beacons are
//! accepted, what is recorded, and which contact request is emitted.
//! The loops around these decisions (sockets, sleeping, the shutdown
//! flag) live outside the library and hand in plain values.

use vstd::prelude::*;
use crate::beacon::{Beacon, BeaconModel, DecodeError, Service, ServiceModel};
use crate::codec::decode_beacon_spec;
use crate::neighbors::{beacon_is_fresh, IpAddress, NeighborTable, PeerAddr};
use crate::text::{dec_chars, hex_chars, push_dec, push_hex};

verus! {

/// Which address families the node listens and emits on.
#[derive(Debug, Clone, Copy, PartialEq, Eq, Structural)]
pub enum IpConfig {
    Ipv4Only,
    Ipv6Only,
    Both,
}

/// Contact validity when the beacon declares no period, in seconds.
pub const DEFAULT_CONTACT_SECS: u64 = 30;

/// The set of convergence-layer kinds this node itself advertises,
/// used to find a mutually usable transport with a neighbor.
#[derive(Debug, Clone, Copy, PartialEq, Eq, Structural)]
pub struct ClaKinds {
    pub tcpclv4: bool,
    pub tcpclv3: bool,
    pub mtcpcl: bool,
}

/// True when the service is a convergence-layer entry of a kind in the
/// set.
pub open spec fn kind_matches(k: ClaKinds, sv: ServiceModel) -> bool {
    match sv {
        ServiceModel::TCPCLv4(_) => k.tcpclv4,
        ServiceModel::TCPCLv3(_) => k.tcpclv3,
        ServiceModel::MTCPCL(_) => k.mtcpcl,
        _ => false,
    }
}

/// The convergence-layer kinds present in a service list; derived at
/// startup from the node's own advertised beacon.
pub fn cla_kinds_of(services: &Vec<Service>) -> (r: ClaKinds)
    ensures
        r.tcpclv4 == exists|i: int|
            0 <= i < services@.len() && (#[trigger] services@[i]@) is TCPCLv4,
        r.tcpclv3 == exists|i: int|
            0 <= i < services@.len() && (#[trigger] services@[i]@) is TCPCLv3,
        r.mtcpcl == exists|i: int|
            0 <= i < services@.len() && (#[trigger] services@[i]@) is MTCPCL,
{
    let mut r = ClaKinds { tcpclv4: false, tcpclv3: false, mtcpcl: false };
    let n = services.len();
    let mut i: usize = 0;
    while i < n
        invariant
            i <= n,
            n == services@.len(),
            r.tcpclv4 == exists|j: int| 0 <= j < i && (#[trigger] services@[j]@) is TCPCLv4,
            r.tcpclv3 == exists|j: int| 0 <= j < i && (#[trigger] services@[j]@) is TCPCLv3,
            r.mtcpcl == exists|j: int| 0 <= j < i && (#[trigger] services@[j]@) is MTCPCL,
        decreases n - i,
    {
        let is4 = matches!(&services[i], Service::TCPCLv4(_));
        let is3 = matches!(&services[i], Service::TCPCLv3(_));
        let ism = matches!(&services[i], Service::MTCPCL(_));
        proof {
            assert(is4 == (services@[i as int]@ is TCPCLv4));
            assert(is3 == (services@[i as int]@ is TCPCLv3));
            assert(ism == (services@[i as int]@ is MTCPCL));
        }
        r.tcpclv4 = r.tcpclv4 || is4;
        r.tcpclv3 = r.tcpclv3 || is3;
        r.mtcpcl = r.mtcpcl || ism;
        i += 1;
    }
    r
}

/// The index of the first service whose kind is in the set, if any is.
pub fn find_matching_service(services: &Vec<Service>, kinds: ClaKinds) -> (r: Option<usize>)
    ensures
        match r {
            Some(i) => {
                &&& i < services@.len()
                &&& kind_matches(kinds, services@[i as int]@)
                &&& forall|j: int| 0 <= j < i ==> !kind_matches(kinds, #[trigger] services@[j]@)
            },
            None => forall|j: int|
                0 <= j < services@.len() ==> !kind_matches(kinds, #[trigger] services@[j]@),
        },
{
    let n = services.len();
    let mut i: usize = 0;
    while i < n
        invariant
            i <= n,
            n == services@.len(),
            forall|j: int| 0 <= j < i ==> !kind_matches(kinds, #[trigger] services@[j]@),
        decreases n - i,
    {
        let found = match &services[i] {
            Service::TCPCLv4(_) => kinds.tcpclv4,
            Service::TCPCLv3(_) => kinds.tcpclv3,
            Service::MTCPCL(_) => kinds.mtcpcl,
            _ => false,
        };
        if found {
            return Some(i);
        }
        i += 1;
    }
    None
}

/// True of an IPv6 address that carries an IPv4 address: the
/// IPv4-mapped and IPv4-compatible forms, whose upper 96 bits are
/// `::ffff:0:0` or zero.
pub open spec fn is_v4_in_v6(ip: IpAddress) -> bool {
    match ip {
        IpAddress::V6(a) => (a >> 32) == 0 || (a >> 32) == 0xffff,
        IpAddress::V4(_) => false,
    }
}

/// Executable form of [`is_v4_in_v6`].
pub fn v4_in_v6(ip: &IpAddress) -> (r: bool)
    ensures
        r == is_v4_in_v6(*ip),
{
    match ip {
        IpAddress::V6(a) => (*a >> 32) == 0 || (*a >> 32) == 0xffff,
        IpAddress::V4(_) => false,
    }
}

/// How long a contact derived from a beacon is valid: twice the declared
/// period (saturating at the top of the range), or a fixed default when
/// no period was declared.
pub open spec fn contact_duration_spec(period: Option<u64>) -> u64 {
    match period {
        Some(p) => if p <= u64::MAX / 2 {
            (2 * p) as u64
        } else {
            u64::MAX
        },
        None => DEFAULT_CONTACT_SECS,
    }
}

/// Executable form of [`contact_duration_spec`].
pub fn contact_duration(period: Option<u64>) -> (r: u64)
    ensures
        r == contact_duration_spec(period),
{
    match period {
        Some(p) => if p <= u64::MAX / 2 {
            2 * p
        } else {
            u64::MAX
        },
        None => DEFAULT_CONTACT_SECS,
    }
}

// ---------------------------------------------------------------------
// the convergence-layer address handed to the routing agent
// ---------------------------------------------------------------------
/// The scheme name of a convergence-layer service.
pub open spec fn cla_scheme_chars(sv: ServiceModel) -> Seq<char> {
    match sv {
        ServiceModel::TCPCLv4(_) => "tcpclv4"@,
        ServiceModel::TCPCLv3(_) => "tcpclv3"@,
        ServiceModel::MTCPCL(_) => "mtcpcl"@,
        _ => Seq::empty(),
    }
}

/// The port of a convergence-layer service.
pub open spec fn cla_port(sv: ServiceModel) -> u16 {
    match sv {
        ServiceModel::TCPCLv4(p) => p,
        ServiceModel::TCPCLv3(p) => p,
        ServiceModel::MTCPCL(p) => p,
        _ => 0,
    }
}

/// Dotted-decimal rendering of an IPv4 address.
pub open spec fn ipv4_chars(a: u32) -> Seq<char> {
    dec_chars(((a >> 24) & 0xff) as nat) + "."@ + dec_chars(((a >> 16) & 0xff) as nat) + "."@
        + dec_chars(((a >> 8) & 0xff) as nat) + "."@ + dec_chars((a & 0xff) as nat)
}

/// Eight colon-separated hexadecimal groups of an IPv6 address.
pub open spec fn ipv6_chars(a: u128) -> Seq<char> {
    hex_chars(((a >> 112) & 0xffff) as nat) + ":"@ + hex_chars(((a >> 96) & 0xffff) as nat) + ":"@
        + hex_chars(((a >> 80) & 0xffff) as nat) + ":"@ + hex_chars(((a >> 64) & 0xffff) as nat)
        + ":"@ + hex_chars(((a >> 48) & 0xffff) as nat) + ":"@ + hex_chars(
        ((a >> 32) & 0xffff) as nat,
    ) + ":"@ + hex_chars(((a >> 16) & 0xffff) as nat) + ":"@ + hex_chars((a & 0xffff) as nat)
}

/// The host part of a contact address: an IPv4 address dotted, an
/// IPv4-mapped IPv6 address rendered in its IPv4 form for readability,
/// any other IPv6 address bracketed.
pub open spec fn host_chars(ip: IpAddress) -> Seq<char> {
    match ip {
        IpAddress::V4(a) => ipv4_chars(a),
        IpAddress::V6(a) => if (a >> 32) == 0xffff {
            ipv4_chars((a & 0xffff_ffff) as u32)
        } else {
            "["@ + ipv6_chars(a) + "]"@
        },
    }
}

/// The whole convergence-layer address: scheme, host and port.
pub open spec fn cla_address_chars(sv: ServiceModel, ip: IpAddress) -> Seq<char> {
    cla_scheme_chars(sv) + ":"@ + host_chars(ip) + ":"@ + dec_chars(cla_port(sv) as nat)
}

/// Appends the dotted-decimal rendering of an IPv4 address.
fn push_ipv4(out: &mut String, a: u32)
    ensures
        final(out)@ == old(out)@ + ipv4_chars(a),
{
    push_dec(out, ((a >> 24) & 0xff) as u64);
    out.append(".");
    push_dec(out, ((a >> 16) & 0xff) as u64);
    out.append(".");
    push_dec(out, ((a >> 8) & 0xff) as u64);
    out.append(".");
    push_dec(out, (a & 0xff) as u64);
    proof {
        assert(out@ =~= old(out)@ + ipv4_chars(a));
    }
}

/// Appends the eight hexadecimal groups of an IPv6 address.
fn push_ipv6(out: &mut String, a: u128)
    ensures
        final(out)@ == old(out)@ + ipv6_chars(a),
{
    proof {
        assert((a >> 112) & 0xffff <= 0xffff && (a >> 96) & 0xffff <= 0xffff && (a >> 80) & 0xffff
            <= 0xffff && (a >> 64) & 0xffff <= 0xffff && (a >> 48) & 0xffff <= 0xffff && (a >> 32)
            & 0xffff <= 0xffff && (a >> 16) & 0xffff <= 0xffff && a & 0xffff <= 0xffff)
            by (bit_vector);
    }
    push_hex(out, ((a >> 112) & 0xffff) as u64);
    out.append(":");
    push_hex(out, ((a >> 96) & 0xffff) as u64);
    out.append(":");
    push_hex(out, ((a >> 80) & 0xffff) as u64);
    out.append(":");
    push_hex(out, ((a >> 64) & 0xffff) as u64);
    out.append(":");
    push_hex(out, ((a >> 48) & 0xffff) as u64);
    out.append(":");
    push_hex(out, ((a >> 32) & 0xffff) as u64);
    out.append(":");
    push_hex(out, ((a >> 16) & 0xffff) as u64);
    out.append(":");
    push_hex(out, (a & 0xffff) as u64);
    proof {
        assert(out@ =~= old(out)@ + ipv6_chars(a));
    }
}

/// Appends the host part of a contact address.
fn push_host(out: &mut String, ip: &IpAddress)
    ensures
        final(out)@ == old(out)@ + host_chars(*ip),
{
    match ip {
        IpAddress::V4(a) => {
            push_ipv4(out, *a);
        },
        IpAddress::V6(a) => {
            if (*a >> 32) == 0xffff {
                proof {
                    assert(a & 0xffff_ffff <= 0xffff_ffff) by (bit_vector);
                }
                push_ipv4(out, (*a & 0xffff_ffff) as u32);
            } else {
                out.append("[");
                push_ipv6(out, *a);
                out.append("]");
                proof {
                    assert(out@ =~= old(out)@ + host_chars(*ip));
                }
            }
        },
    }
}

/// Synthesizes the convergence-layer address string for a matched
/// service and the observed source address.
pub fn make_cla_address(sv: &Service, ip: &IpAddress) -> (r: String)
    requires
        sv@ is TCPCLv4 || sv@ is TCPCLv3 || sv@ is MTCPCL,
    ensures
        r@ == cla_address_chars(sv@, *ip),
{
    let mut out = String::new();
    match sv {
        Service::TCPCLv4(_) => out.append("tcpclv4"),
        Service::TCPCLv3(_) => out.append("tcpclv3"),
        Service::MTCPCL(_) => out.append("mtcpcl"),
        _ => {
        },
    }
    out.append(":");
    push_host(&mut out, ip);
    out.append(":");
    let port: u16 = match sv {
        Service::TCPCLv4(p) => *p,
        Service::TCPCLv3(p) => *p,
        Service::MTCPCL(p) => *p,
        _ => 0,
    };
    push_dec(&mut out, port as u64);
    proof {
        assert(out@ =~= cla_address_chars(sv@, *ip));
    }
    out
}

// ---------------------------------------------------------------------
// receiving one datagram
// ---------------------------------------------------------------------
/// Why a received datagram produced no contact request.
#[derive(Debug, Clone, Copy, PartialEq, Eq, Structural)]
pub enum DiscardReason {
    /// The buffer did not decode to a beacon.
    DecodeFailed(DecodeError),
    /// The beacon carries this node's own identifier, reflected back.
    SelfBeacon,
    /// The sequence number is not strictly greater than the recorded one.
    Stale,
    /// An IPv4-carried source discarded in IPv6-only operation.
    WrongAddressFamily,
    /// No service kind overlaps this node's own convergence layers.
    NoMatchingService,
    /// An otherwise-accepted beacon without a node identifier.
    MissingNodeId,
}

/// What the routing agent is asked to add: a contact with the peer,
/// valid from now for the given duration, unbounded data rate.
#[derive(Debug)]
pub struct ContactRequest {
    /// The peer's node identifier.
    pub peer_id: String,
    /// The convergence-layer address to reach it at.
    pub cla_address: String,
    /// Validity of the contact, in seconds from now.
    pub duration_secs: u64,
}

/// Judges one received datagram and updates the freshness table.
///
/// Self-rejection: a beacon carrying this node's own identifier is never
/// accepted, whatever its sequence number.  Freshness: a beacon is
/// accepted exactly when its source is new or its sequence number is
/// strictly greater than the recorded one.  No match, no contact: a
/// beacon with no service kind in this node's own set yields no contact
/// request, and neither does one without a node identifier; both still
/// advance the freshness slot.
#[verifier::rlimit(100)]
pub fn handle_datagram(
    table: &mut NeighborTable,
    own_node_id: &String,
    own_kinds: ClaKinds,
    ip_config: &IpConfig,
    src: PeerAddr,
    datagram: &[u8],
) -> (r: Result<ContactRequest, DiscardReason>)
    requires
        old(table).wf(),
    ensures
        final(table).wf(),
        ({
            let d = decode_beacon_spec(datagram@);
            match d {
                Err(e) => r == Err::<ContactRequest, DiscardReason>(DiscardReason::DecodeFailed(e))
                    && final(table)@ == old(table)@,
                Ok(b) => {
                    let self_beacon = b.node_id == Some(own_node_id@);
                    let fresh = beacon_is_fresh(old(table)@, src, b.sequence_number);
                    let filtered = ip_config is Ipv6Only && is_v4_in_v6(src.ip);
                    &&& self_beacon ==> r == Err::<ContactRequest, DiscardReason>(
                        DiscardReason::SelfBeacon,
                    ) && final(table)@ == old(table)@
                    &&& !self_beacon && !fresh ==> r == Err::<ContactRequest, DiscardReason>(
                        DiscardReason::Stale,
                    ) && final(table)@ == old(table)@
                    &&& !self_beacon && fresh && filtered ==> r == Err::<
                        ContactRequest,
                        DiscardReason,
                    >(DiscardReason::WrongAddressFamily) && final(table)@ == old(table)@
                    &&& !self_beacon && fresh && !filtered ==> {
                        &&& final(table)@ == old(table)@.insert(src, b.sequence_number)
                        &&& (forall|j: int|
                            0 <= j < b.services.len() ==> !kind_matches(
                                own_kinds,
                                #[trigger] b.services[j],
                            )) ==> r == Err::<ContactRequest, DiscardReason>(
                            DiscardReason::NoMatchingService,
                        )
                        &&& (exists|j: int|
                            0 <= j < b.services.len() && kind_matches(
                                own_kinds,
                                #[trigger] b.services[j],
                            )) ==> match b.node_id {
                            None => r == Err::<ContactRequest, DiscardReason>(
                                DiscardReason::MissingNodeId,
                            ),
                            Some(nid) => match r {
                                Ok(c) => {
                                    &&& c.peer_id@ == nid
                                    &&& c.duration_secs == contact_duration_spec(b.period)
                                    &&& exists|i: int|
                                        #![auto]
                                        {
                                            &&& 0 <= i < b.services.len()
                                            &&& kind_matches(own_kinds, b.services[i])
                                            &&& forall|j: int|
                                                0 <= j < i ==> !kind_matches(
                                                    own_kinds,
                                                    #[trigger] b.services[j],
                                                )
                                            &&& c.cla_address@ == cla_address_chars(
                                                b.services[i],
                                                src.ip,
                                            )
                                        }
                                },
                                Err(_) => false,
                            },
                        }
                    }
                },
            }
        }),
{
    let beacon = match Beacon::parse(datagram) {
        Err(e) => {
            return Err(DiscardReason::DecodeFailed(e));
        },
        Ok(b) => b,
    };
    if let Some(nid) = &beacon.node_id {
        if *nid == *own_node_id {
            return Err(DiscardReason::SelfBeacon);
        }
    }
    let fresh = match table.lookup(src) {
        Some(recorded) => beacon.sequence_number > recorded,
        None => true,
    };
    if !fresh {
        return Err(DiscardReason::Stale);
    }
    if matches!(ip_config, IpConfig::Ipv6Only) && v4_in_v6(&src.ip) {
        return Err(DiscardReason::WrongAddressFamily);
    }
    table.record(src, beacon.sequence_number);
    let matched = match find_matching_service(&beacon.services, own_kinds) {
        None => {
            return Err(DiscardReason::NoMatchingService);
        },
        Some(i) => i,
    };
    proof {
        assert(beacon@.services[matched as int] == beacon.services[matched as int]@);
    }
    let cla_address = make_cla_address(&beacon.services[matched], &src.ip);
    let peer_id = match beacon.node_id {
        None => {
            return Err(DiscardReason::MissingNodeId);
        },
        Some(nid) => nid,
    };
    let duration_secs = contact_duration(beacon.period);
    Ok(ContactRequest { peer_id, cla_address, duration_secs })
}

// ---------------------------------------------------------------------
// announcing
// ---------------------------------------------------------------------
/// The IPv6 group beacons go to: the all-nodes link-local address when
/// broadcasting, the discovery multicast group otherwise.
pub open spec fn v6_destination(broadcast: bool) -> Seq<char> {
    if broadcast {
        "[ff02::1]:3005"@
    } else {
        "[ff02::d4cd:0305:3af1:aeef:75de]:3005"@
    }
}

/// The IPv4 destination: the limited broadcast address when
/// broadcasting, the discovery multicast group otherwise.
pub open spec fn v4_destination(broadcast: bool) -> Seq<char> {
    if broadcast {
        "255.255.255.255:3005"@
    } else {
        "224.0.0.108:3005"@
    }
}

/// The group destinations one announcement round sends to, IPv6 first,
/// as the address-family configuration selects them.  Statically
/// configured unicast peers come on top of these.
pub fn announce_destinations(ip_config: &IpConfig, broadcast: bool) -> (r: Vec<String>)
    ensures
        ({
            let v6 = ip_config is Both || ip_config is Ipv6Only;
            let v4 = ip_config is Both || ip_config is Ipv4Only;
            &&& r@.len() == (if v6 {
                1int
            } else {
                0int
            }) + (if v4 {
                1int
            } else {
                0int
            })
            &&& v6 ==> r@[0]@ == v6_destination(broadcast)
            &&& v4 ==> r@[r@.len() - 1]@ == v4_destination(broadcast)
        }),
{
    let mut r: Vec<String> = Vec::new();
    if matches!(ip_config, IpConfig::Both) || matches!(ip_config, IpConfig::Ipv6Only) {
        let d: &str = if broadcast {
            "[ff02::1]:3005"
        } else {
            "[ff02::d4cd:0305:3af1:aeef:75de]:3005"
        };
        r.push(d.to_owned());
    }
    if matches!(ip_config, IpConfig::Both) || matches!(ip_config, IpConfig::Ipv4Only) {
        let d: &str = if broadcast {
            "255.255.255.255:3005"
        } else {
            "224.0.0.108:3005"
        };
        r.push(d.to_owned());
    }
    r
}

} // verus!
