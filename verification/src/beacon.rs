//! The beacon data model: one periodic advertisement of a node's
//! identity and transport capabilities.

use vstd::prelude::*;
use vstd::slice::slice_to_vec;
use vstd::utf8::encode_utf8;
use crate::cbor::{skip_item, OPAQUE_DEPTH};

verus! {

/// The single wire version this library understands.
pub const SUPPORTED_VERSION: u8 = 8;

/// A stable node identifier string.
pub type NodeIdentifier = String;

/// One capability or attribute entry of a beacon: a tagged union over
/// the three convergence-layer transports, two informational entries,
/// and a catch-all that keeps an unrecognized entry's tag and its raw
/// encoded payload verbatim.
#[derive(Debug)]
pub enum Service {
    /// TCP Convergence Layer v4; the TCP port to connect to.
    TCPCLv4(u16),
    /// TCP Convergence Layer v3; the TCP port to connect to.
    TCPCLv3(u16),
    /// Minimal TCP Convergence Layer; the TCP port to connect to.
    MTCPCL(u16),
    /// Geographic location of the node as the IEEE-754 bit patterns of
    /// two 32-bit floats (latitude, longitude), exactly as they stand
    /// on the wire.
    GeoLocation(u32, u32),
    /// Physical address of the node.
    Address(String),
    /// An unrecognized service: its tag and its encoded payload, one
    /// complete wire item, re-emitted unchanged.
    Unknown(u8, Vec<u8>),
}

/// Mathematical model of one service entry.
pub enum ServiceModel {
    TCPCLv4(u16),
    TCPCLv3(u16),
    MTCPCL(u16),
    GeoLocation(u32, u32),
    Address(Seq<char>),
    Unknown(u8, Seq<u8>),
}

impl View for Service {
    type V = ServiceModel;

    open spec fn view(&self) -> ServiceModel {
        match self {
            Service::TCPCLv4(p) => ServiceModel::TCPCLv4(*p),
            Service::TCPCLv3(p) => ServiceModel::TCPCLv3(*p),
            Service::MTCPCL(p) => ServiceModel::MTCPCL(*p),
            Service::GeoLocation(lat, lon) => ServiceModel::GeoLocation(*lat, *lon),
            Service::Address(a) => ServiceModel::Address(a@),
            Service::Unknown(tag, raw) => ServiceModel::Unknown(*tag, raw@),
        }
    }
}

/// Wire tags of the recognized service variants.
pub const TAG_TCPCLV4: u8 = 0;

pub const TAG_TCPCLV3: u8 = 1;

pub const TAG_MTCPCL: u8 = 2;

pub const TAG_GEOLOCATION: u8 = 64;

pub const TAG_ADDRESS: u8 = 65;

/// True of the tags that decode to a recognized variant.
pub open spec fn is_known_tag(tag: u8) -> bool {
    tag == TAG_TCPCLV4 || tag == TAG_TCPCLV3 || tag == TAG_MTCPCL || tag == TAG_GEOLOCATION
        || tag == TAG_ADDRESS
}

/// A service entry the codec round-trips: an `Unknown` entry must carry
/// a tag that no recognized variant owns and one complete wire item as
/// its payload; a text payload must fit the wire's length field.
pub open spec fn service_wf(s: ServiceModel) -> bool {
    match s {
        ServiceModel::Address(a) => encode_utf8(a).len() <= u64::MAX,
        ServiceModel::Unknown(tag, raw) => !is_known_tag(tag) && skip_item(
            raw,
            OPAQUE_DEPTH as nat,
        ) == Some(raw.len() as int),
        _ => true,
    }
}

impl Clone for Service {
    /// A clone carries the same model.
    fn clone(&self) -> (r: Self)
        ensures
            r@ == self@,
    {
        match self {
            Service::TCPCLv4(p) => Service::TCPCLv4(*p),
            Service::TCPCLv3(p) => Service::TCPCLv3(*p),
            Service::MTCPCL(p) => Service::MTCPCL(*p),
            Service::GeoLocation(lat, lon) => Service::GeoLocation(*lat, *lon),
            Service::Address(a) => Service::Address(a.clone()),
            Service::Unknown(tag, raw) => Service::Unknown(*tag, slice_to_vec(raw.as_slice())),
        }
    }
}

/// A beacon sent periodically to advertise a node.
#[derive(Debug)]
pub struct Beacon {
    /// Beacon version number; only `SUPPORTED_VERSION` is understood.
    pub version: u8,
    /// Node identifier advertised by this beacon, when present.
    pub node_id: Option<NodeIdentifier>,
    /// Sequence number, incremented with wraparound each time a beacon
    /// is emitted; compared only among beacons from one source address.
    pub sequence_number: u64,
    /// Services available on this node; an empty list is carried on the
    /// wire as an absent field.
    pub services: Vec<Service>,
    /// Seconds between two advertisements, when declared.
    pub period: Option<u64>,
}

/// Mathematical model of a beacon.
pub struct BeaconModel {
    pub version: u8,
    pub node_id: Option<Seq<char>>,
    pub sequence_number: u64,
    pub services: Seq<ServiceModel>,
    pub period: Option<u64>,
}

impl View for Beacon {
    type V = BeaconModel;

    open spec fn view(&self) -> BeaconModel {
        BeaconModel {
            version: self.version,
            node_id: match self.node_id {
                Some(n) => Some(n@),
                None => None,
            },
            sequence_number: self.sequence_number,
            services: self.services@.map_values(|s: Service| s@),
            period: self.period,
        }
    }
}

/// A beacon the codec round-trips: the supported version, a node id and
/// a service count that fit the wire's length fields, and well-formed
/// services.
pub open spec fn beacon_wf(b: BeaconModel) -> bool {
    &&& b.version == SUPPORTED_VERSION
    &&& match b.node_id {
        Some(n) => encode_utf8(n).len() <= u64::MAX,
        None => true,
    }
    &&& b.services.len() <= u64::MAX
    &&& forall|i: int| 0 <= i < b.services.len() ==> service_wf(#[trigger] b.services[i])
}

impl Clone for Beacon {
    /// A clone carries the same model.
    fn clone(&self) -> (r: Self)
        ensures
            r@ == self@,
    {
        let node_id = match &self.node_id {
            Some(n) => Some(n.clone()),
            None => None,
        };
        let services = self.services.clone();
        proof {
            assert(services@.map_values(|s: Service| s@) =~= self.services@.map_values(
                |s: Service| s@,
            )) by {
                assert(forall|i: int|
                    0 <= i < self.services@.len() ==> cloned::<Service>(
                        self.services[i],
                        #[trigger] services[i],
                    ));
            }
        }
        Self {
            version: self.version,
            node_id,
            sequence_number: self.sequence_number,
            services,
            period: self.period,
        }
    }
}

impl Beacon {
    /// Creates a beacon of the supported version with nothing advertised
    /// yet and sequence number zero.
    pub fn new() -> (r: Self)
        ensures
            r@ == (BeaconModel {
                version: SUPPORTED_VERSION,
                node_id: None,
                sequence_number: 0,
                services: Seq::<ServiceModel>::empty(),
                period: None,
            }),
            beacon_wf(r@),
    {
        let r = Self {
            version: SUPPORTED_VERSION,
            node_id: None,
            sequence_number: 0,
            services: Vec::new(),
            period: None,
        };
        proof {
            assert(r@.services =~= Seq::<ServiceModel>::empty());
        }
        r
    }

    /// The beacon to emit next: the same advertisement with the sequence
    /// number incremented, wrapping around at the top of its range.
    pub fn next(&self) -> (r: Self)
        ensures
            r@.version == self@.version,
            r@.node_id == self@.node_id,
            r@.services == self@.services,
            r@.period == self@.period,
            r@.sequence_number == if self.sequence_number == u64::MAX {
                0u64
            } else {
                (self.sequence_number + 1) as u64
            },
    {
        let mut next = self.clone();
        next.sequence_number = if next.sequence_number == u64::MAX {
            0
        } else {
            next.sequence_number + 1
        };
        next
    }
}

/// Why a received buffer failed to decode.
#[derive(Debug, Clone, Copy, PartialEq, Eq, Structural)]
pub enum DecodeError {
    /// The version element is not the single supported value; nothing
    /// after it was interpreted.
    UnsupportedVersion,
    /// The flags byte (or the fixed layout) claims an element that the
    /// wire sequence does not contain.
    MissingField,
    /// A structurally invalid sequence, tuple or element.
    MalformedEncoding,
}

} // verus!
