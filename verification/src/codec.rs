//! The beacon wire codec.
//!
//! A beacon travels as one definite-length sequence of `3 + p` elements,
//! where `p` optional elements are announced by a flags byte: `[version,
//! flags, sequence_number, node_id?, services?, period_secs?]`.  Each
//! service is a 2-tuple `(tag, payload)`; unrecognized tags keep their
//! payload verbatim so that nothing is lost in transit.

use vstd::prelude::*;
use vstd::slice::{slice_subrange, slice_to_vec};
use vstd::utf8::{
    decode_utf8, encode_utf8, encode_utf8_decode_utf8, encode_utf8_valid_utf8, valid_utf8,
};
use crate::beacon::{
    beacon_wf, service_wf, is_known_tag, Beacon, BeaconModel, DecodeError, Service, ServiceModel,
    SUPPORTED_VERSION, TAG_ADDRESS, TAG_GEOLOCATION, TAG_MTCPCL, TAG_TCPCLV3, TAG_TCPCLV4,
};
use crate::cbor::{
    head_spec, parse_head, skip_item, skip_item_at, lemma_parse_head_of_encoded,
    lemma_skip_item_extend, lemma_skip_item_truncate, read_head, write_head, OPAQUE_DEPTH,
};

verus! {

// ---------------------------------------------------------------------
// encoding, as a function of the beacon's model
// ---------------------------------------------------------------------
/// The flags byte of a beacon: bit 0 announces the node id, bit 1 a
/// non-empty service list, bit 2 the period; bits 3 to 7 stay clear.
pub open spec fn flags_of(b: BeaconModel) -> u8 {
    ((if b.node_id is Some {
        1int
    } else {
        0int
    }) + (if b.services.len() > 0 {
        2int
    } else {
        0int
    }) + (if b.period is Some {
        4int
    } else {
        0int
    })) as u8
}

/// How many elements the top-level sequence holds for a flags byte:
/// three fixed ones plus one per announced optional field.
pub open spec fn wire_arity(fl: u8) -> u64 {
    (3 + (if fl & 1 == 1 {
        1int
    } else {
        0int
    }) + (if fl & 2 == 2 {
        1int
    } else {
        0int
    }) + (if fl & 4 == 4 {
        1int
    } else {
        0int
    })) as u64
}

/// A text element: a text head and the characters' UTF-8 bytes.
pub open spec fn enc_text(t: Seq<char>) -> Seq<u8> {
    head_spec(3, encode_utf8(t).len() as u64) + encode_utf8(t)
}

/// A 32-bit float element carrying the given bit pattern.
pub open spec fn float_bytes(bits: u32) -> Seq<u8> {
    seq![
        0xfau8,
        ((bits >> 24) & 0xff) as u8,
        ((bits >> 16) & 0xff) as u8,
        ((bits >> 8) & 0xff) as u8,
        (bits & 0xff) as u8,
    ]
}

/// One service entry: a 2-tuple of its tag and its payload.
pub open spec fn enc_service(sv: ServiceModel) -> Seq<u8> {
    head_spec(4, 2) + (match sv {
        ServiceModel::TCPCLv4(p) => head_spec(0, TAG_TCPCLV4 as u64) + head_spec(0, p as u64),
        ServiceModel::TCPCLv3(p) => head_spec(0, TAG_TCPCLV3 as u64) + head_spec(0, p as u64),
        ServiceModel::MTCPCL(p) => head_spec(0, TAG_MTCPCL as u64) + head_spec(0, p as u64),
        ServiceModel::GeoLocation(lat, lon) => head_spec(0, TAG_GEOLOCATION as u64) + head_spec(
            4,
            2,
        ) + float_bytes(lat) + float_bytes(lon),
        ServiceModel::Address(a) => head_spec(0, TAG_ADDRESS as u64) + enc_text(a),
        ServiceModel::Unknown(tag, raw) => head_spec(0, tag as u64) + raw,
    })
}

/// The service entries, one after the other.
pub open spec fn enc_services(ss: Seq<ServiceModel>) -> Seq<u8>
    decreases ss.len(),
{
    if ss.len() == 0 {
        Seq::empty()
    } else {
        enc_service(ss[0]) + enc_services(ss.drop_first())
    }
}

/// The optional elements of the beacon, in wire order: node id, service
/// list, period; each present exactly when its flag bit is set.
pub open spec fn enc_optionals(b: BeaconModel) -> Seq<u8> {
    (match b.node_id {
        Some(t) => enc_text(t),
        None => Seq::empty(),
    }) + ((if b.services.len() > 0 {
        head_spec(4, b.services.len() as u64) + enc_services(b.services)
    } else {
        Seq::empty()
    }) + (match b.period {
        Some(p) => head_spec(0, p),
        None => Seq::empty(),
    }))
}

/// The whole beacon on the wire.
pub open spec fn encode_beacon_spec(b: BeaconModel) -> Seq<u8> {
    head_spec(4, wire_arity(flags_of(b))) + (head_spec(0, b.version as u64) + (head_spec(
        0,
        flags_of(b) as u64,
    ) + (head_spec(0, b.sequence_number) + enc_optionals(b))))
}

// ---------------------------------------------------------------------
// decoding, as a function of the received bytes
// ---------------------------------------------------------------------
/// Reads one unsigned integer element.
pub open spec fn parse_uint(s: Seq<u8>) -> Option<(u64, int)> {
    match parse_head(s) {
        Some((major, v, k)) => if major == 0 {
            Some((v, k))
        } else {
            None
        },
        None => None,
    }
}

/// Reads one text element; its bytes must be valid UTF-8.
pub open spec fn parse_text(s: Seq<u8>) -> Option<(Seq<char>, int)> {
    match parse_head(s) {
        Some((major, len, k)) => if major == 3 && k + len <= s.len() {
            if valid_utf8(s.subrange(k, k + len as int)) {
                Some((decode_utf8(s.subrange(k, k + len as int)), k + len as int))
            } else {
                None
            }
        } else {
            None
        },
        None => None,
    }
}

/// Reads one 32-bit float element as its bit pattern.
pub open spec fn parse_f32_bits(s: Seq<u8>) -> Option<(u32, int)> {
    if s.len() >= 5 && s[0] == 0xfa {
        Some(
            (
                ((s[1] as u32) << 24) | ((s[2] as u32) << 16) | ((s[3] as u32) << 8) | (
                s[4] as u32),
                5int,
            ),
        )
    } else {
        None
    }
}

/// Reads one service entry: a 2-tuple of a tag byte and the payload the
/// tag calls for; an unrecognized tag keeps its payload bytes verbatim.
pub open spec fn parse_service(s: Seq<u8>) -> Option<(ServiceModel, int)> {
    match parse_head(s) {
        Some((major, n, k0)) => if major != 4 || n != 2 {
            None
        } else {
            let s1 = s.skip(k0);
            match parse_uint(s1) {
                Some((tagv, k1)) => if tagv > 255 {
                    None
                } else {
                    let tag = tagv as u8;
                    let s2 = s1.skip(k1);
                    if tag == TAG_TCPCLV4 || tag == TAG_TCPCLV3 || tag == TAG_MTCPCL {
                        match parse_uint(s2) {
                            Some((p, k2)) => if p <= u16::MAX as u64 {
                                Some(
                                    (
                                        if tag == TAG_TCPCLV4 {
                                            ServiceModel::TCPCLv4(p as u16)
                                        } else if tag == TAG_TCPCLV3 {
                                            ServiceModel::TCPCLv3(p as u16)
                                        } else {
                                            ServiceModel::MTCPCL(p as u16)
                                        },
                                        k0 + k1 + k2,
                                    ),
                                )
                            } else {
                                None
                            },
                            None => None,
                        }
                    } else if tag == TAG_GEOLOCATION {
                        match parse_head(s2) {
                            Some((m2, n2, k2)) => if m2 == 4 && n2 == 2 {
                                let s3 = s2.skip(k2);
                                match parse_f32_bits(s3) {
                                    Some((lat, k3)) => match parse_f32_bits(s3.skip(k3)) {
                                        Some((lon, k4)) => Some(
                                            (
                                                ServiceModel::GeoLocation(lat, lon),
                                                k0 + k1 + k2 + k3 + k4,
                                            ),
                                        ),
                                        None => None,
                                    },
                                    None => None,
                                }
                            } else {
                                None
                            },
                            None => None,
                        }
                    } else if tag == TAG_ADDRESS {
                        match parse_text(s2) {
                            Some((a, k2)) => Some((ServiceModel::Address(a), k0 + k1 + k2)),
                            None => None,
                        }
                    } else {
                        match skip_item(s2, OPAQUE_DEPTH as nat) {
                            Some(e) => Some((ServiceModel::Unknown(tag, s2.take(e)), k0 + k1 + e)),
                            None => None,
                        }
                    }
                },
                None => None,
            }
        },
        None => None,
    }
}

/// Reads `m` service entries, one after the other.
pub open spec fn parse_services(s: Seq<u8>, m: u64) -> Option<(Seq<ServiceModel>, int)>
    decreases m,
{
    if m == 0 {
        Some((Seq::empty(), 0int))
    } else {
        match parse_service(s) {
            Some((sv, k)) => if 0 <= k <= s.len() {
                match parse_services(s.skip(k), (m - 1) as u64) {
                    Some((rest, k2)) => Some((seq![sv] + rest, k + k2)),
                    None => None,
                }
            } else {
                None
            },
            None => None,
        }
    }
}

/// Assembles the decoded beacon.
pub open spec fn beacon_model(
    nid: Option<Seq<char>>,
    seqno: u64,
    svcs: Seq<ServiceModel>,
    period: Option<u64>,
) -> BeaconModel {
    BeaconModel {
        version: SUPPORTED_VERSION,
        node_id: nid,
        sequence_number: seqno,
        services: svcs,
        period,
    }
}

/// Decodes the period element, when announced, and demands that nothing
/// follows the final element.
pub open spec fn decode_after_services(
    s: Seq<u8>,
    fl: u8,
    seqno: u64,
    nid: Option<Seq<char>>,
    svcs: Seq<ServiceModel>,
) -> Result<BeaconModel, DecodeError> {
    if fl & 4 == 4 {
        match parse_uint(s) {
            Some((p, k)) => if s.len() == k {
                Ok(beacon_model(nid, seqno, svcs, Some(p)))
            } else {
                Err(DecodeError::MalformedEncoding)
            },
            None => Err(DecodeError::MalformedEncoding),
        }
    } else {
        if s.len() == 0 {
            Ok(beacon_model(nid, seqno, svcs, None))
        } else {
            Err(DecodeError::MalformedEncoding)
        }
    }
}

/// Decodes the service list, when announced.
pub open spec fn decode_after_node_id(
    s: Seq<u8>,
    fl: u8,
    seqno: u64,
    nid: Option<Seq<char>>,
) -> Result<BeaconModel, DecodeError> {
    if fl & 2 == 2 {
        match parse_head(s) {
            Some((m, cnt, k)) => if m == 4 {
                match parse_services(s.skip(k), cnt) {
                    Some((svcs, k2)) => decode_after_services(
                        s.skip(k).skip(k2),
                        fl,
                        seqno,
                        nid,
                        svcs,
                    ),
                    None => Err(DecodeError::MalformedEncoding),
                }
            } else {
                Err(DecodeError::MalformedEncoding)
            },
            None => Err(DecodeError::MalformedEncoding),
        }
    } else {
        decode_after_services(s, fl, seqno, nid, Seq::empty())
    }
}

/// Checks the announced arity against the flags byte, then decodes the
/// optional fields strictly in wire order.
pub open spec fn decode_optionals(s: Seq<u8>, n: u64, fl: u8, seqno: u64) -> Result<
    BeaconModel,
    DecodeError,
> {
    if n < wire_arity(fl) {
        Err(DecodeError::MissingField)
    } else if n > wire_arity(fl) {
        Err(DecodeError::MalformedEncoding)
    } else {
        if fl & 1 == 1 {
            match parse_text(s) {
                Some((t, k)) => decode_after_node_id(s.skip(k), fl, seqno, Some(t)),
                None => Err(DecodeError::MalformedEncoding),
            }
        } else {
            decode_after_node_id(s, fl, seqno, None)
        }
    }
}

/// Decodes the elements of the top-level sequence.  The version is read
/// and judged first: nothing after an unsupported version is looked at.
pub open spec fn decode_elements(s: Seq<u8>, n: u64) -> Result<BeaconModel, DecodeError> {
    if n < 1 {
        Err(DecodeError::MissingField)
    } else {
        match parse_uint(s) {
            None => Err(DecodeError::MalformedEncoding),
            Some((ver, k1)) => {
                if ver > 255 {
                    Err(DecodeError::MalformedEncoding)
                } else if ver != SUPPORTED_VERSION as u64 {
                    Err(DecodeError::UnsupportedVersion)
                } else if n < 2 {
                    Err(DecodeError::MissingField)
                } else {
                    match parse_uint(s.skip(k1)) {
                        None => Err(DecodeError::MalformedEncoding),
                        Some((fl, k2)) => {
                            if fl > 255 {
                                Err(DecodeError::MalformedEncoding)
                            } else if n < 3 {
                                Err(DecodeError::MissingField)
                            } else {
                                match parse_uint(s.skip(k1).skip(k2)) {
                                    None => Err(DecodeError::MalformedEncoding),
                                    Some((seqno, k3)) => decode_optionals(
                                        s.skip(k1).skip(k2).skip(k3),
                                        n,
                                        fl as u8,
                                        seqno,
                                    ),
                                }
                            }
                        },
                    }
                }
            },
        }
    }
}

/// What any received buffer decodes to: a beacon or the reason it was
/// rejected.
pub open spec fn decode_beacon_spec(s: Seq<u8>) -> Result<BeaconModel, DecodeError> {
    match parse_head(s) {
        Some((major, n, k)) => if major == 4 {
            decode_elements(s.skip(k), n)
        } else {
            Err(DecodeError::MalformedEncoding)
        },
        None => Err(DecodeError::MalformedEncoding),
    }
}

// ---------------------------------------------------------------------
// executable encoder
// ---------------------------------------------------------------------
/// Appends one text element.
fn write_text(out: &mut Vec<u8>, t: &str)
    ensures
        final(out)@ == old(out)@ + enc_text(t@),
{
    let bytes = t.as_bytes();
    write_head(out, 3, bytes.len() as u64);
    let ghost mid = out@;
    out.extend_from_slice(bytes);
    proof {
        assert(forall|i: int|
            0 <= i < bytes@.len() ==> out@[mid.len() + i] == bytes@[i]) by {
            assert(forall|i: int|
                0 <= i < bytes@.len() ==> cloned::<u8>(bytes@[i], #[trigger] out@[mid.len() + i]));
        }
        assert(out@ =~= old(out)@ + enc_text(t@));
    }
}

/// Appends one 32-bit float element with the given bit pattern.
fn write_f32_bits(out: &mut Vec<u8>, bits: u32)
    ensures
        final(out)@ == old(out)@ + float_bytes(bits),
{
    out.push(0xfa);
    out.push(((bits >> 24) & 0xff) as u8);
    out.push(((bits >> 16) & 0xff) as u8);
    out.push(((bits >> 8) & 0xff) as u8);
    out.push((bits & 0xff) as u8);
    proof {
        assert(out@ =~= old(out)@ + float_bytes(bits));
    }
}

/// Appends one service entry.
fn write_service(out: &mut Vec<u8>, sv: &Service)
    ensures
        final(out)@ == old(out)@ + enc_service(sv@),
{
    write_head(out, 4, 2);
    match sv {
        Service::TCPCLv4(p) => {
            write_head(out, 0, TAG_TCPCLV4 as u64);
            write_head(out, 0, *p as u64);
        },
        Service::TCPCLv3(p) => {
            write_head(out, 0, TAG_TCPCLV3 as u64);
            write_head(out, 0, *p as u64);
        },
        Service::MTCPCL(p) => {
            write_head(out, 0, TAG_MTCPCL as u64);
            write_head(out, 0, *p as u64);
        },
        Service::GeoLocation(lat, lon) => {
            write_head(out, 0, TAG_GEOLOCATION as u64);
            write_head(out, 4, 2);
            write_f32_bits(out, *lat);
            write_f32_bits(out, *lon);
        },
        Service::Address(a) => {
            write_head(out, 0, TAG_ADDRESS as u64);
            write_text(out, a.as_str());
        },
        Service::Unknown(tag, raw) => {
            write_head(out, 0, *tag as u64);
            let ghost mid = out@;
            out.extend_from_slice(raw.as_slice());
            proof {
                assert(forall|i: int|
                    0 <= i < raw@.len() ==> out@[mid.len() + i] == raw@[i]) by {
                    assert(forall|i: int|
                        0 <= i < raw@.len() ==> cloned::<u8>(
                            raw@[i],
                            #[trigger] out@[mid.len() + i],
                        ));
                }
            }
        },
    }
    proof {
        assert(out@ =~= old(out)@ + enc_service(sv@));
    }
}

/// Appending the next service entry extends the encoded prefix.
proof fn lemma_enc_services_snoc(ss: Seq<ServiceModel>, i: int)
    requires
        0 <= i < ss.len(),
    ensures
        enc_services(ss.take(i + 1)) == enc_services(ss.take(i)) + enc_service(ss[i]),
    decreases i,
{
    if i == 0 {
        assert(ss.take(1).drop_first() =~= Seq::<ServiceModel>::empty());
        assert(ss.take(0) =~= Seq::<ServiceModel>::empty());
        assert(enc_services(Seq::<ServiceModel>::empty()) == Seq::<u8>::empty());
        assert(ss.take(1)[0] == ss[0]);
        assert(enc_services(ss.take(1)) == enc_service(ss[0]) + Seq::<u8>::empty());
        assert(enc_service(ss[0]) + Seq::<u8>::empty() =~= enc_service(ss[0]));
        assert(enc_services(ss.take(0)) + enc_service(ss[0]) =~= enc_service(ss[0]));
    } else {
        lemma_enc_services_snoc(ss.drop_first(), i - 1);
        assert(ss.take(i + 1).drop_first() =~= ss.drop_first().take(i));
        assert(ss.take(i).drop_first() =~= ss.drop_first().take(i - 1));
        assert(ss.take(i + 1)[0] == ss[0]);
        assert(ss.take(i)[0] == ss[0]);
        assert(ss.drop_first()[i - 1] == ss[i]);
        assert(enc_service(ss[0]) + (enc_services(ss.drop_first().take(i - 1)) + enc_service(
            ss[i],
        )) =~= (enc_service(ss[0]) + enc_services(ss.drop_first().take(i - 1))) + enc_service(
            ss[i],
        ));
    }
}

impl Beacon {
    /// Encodes the beacon for the wire.
    #[verifier::rlimit(100)]
    pub fn as_bytes(&self) -> (r: Vec<u8>)
        ensures
            r@ == encode_beacon_spec(self@),
    {
        let nb: u8 = if self.node_id.is_some() {
            1
        } else {
            0
        };
        let sb: u8 = if self.services.len() > 0 {
            2
        } else {
            0
        };
        let pb: u8 = if self.period.is_some() {
            4
        } else {
            0
        };
        let flags: u8 = nb + sb + pb;
        let arity: u64 = 3 + (if nb == 1 {
            1u64
        } else {
            0u64
        }) + (if sb == 2 {
            1u64
        } else {
            0u64
        }) + (if pb == 4 {
            1u64
        } else {
            0u64
        });
        proof {
            assert(flags == flags_of(self@));
            assert((flags & 1 == 1 <==> nb == 1) && (flags & 2 == 2 <==> sb == 2) && (flags & 4
                == 4 <==> pb == 4)) by (bit_vector)
                requires
                    (nb == 0 || nb == 1) && (sb == 0 || sb == 2) && (pb == 0 || pb == 4) && flags
                        == nb + sb + pb,
            ;
            assert(arity == wire_arity(flags_of(self@)));
        }
        let mut out: Vec<u8> = Vec::new();
        write_head(&mut out, 4, arity);
        write_head(&mut out, 0, self.version as u64);
        write_head(&mut out, 0, flags as u64);
        write_head(&mut out, 0, self.sequence_number);
        if let Some(n) = &self.node_id {
            write_text(&mut out, n.as_str());
        }
        if self.services.len() > 0 {
            write_head(&mut out, 4, self.services.len() as u64);
            let ghost base = out@;
            let ghost models = self@.services;
            let mut i: usize = 0;
            while i < self.services.len()
                invariant
                    i <= self.services.len(),
                    models == self@.services,
                    models.len() == self.services.len(),
                    out@ == base + enc_services(models.take(i as int)),
                decreases self.services.len() - i,
            {
                proof {
                    lemma_enc_services_snoc(models, i as int);
                    assert(models[i as int] == self.services[i as int]@);
                }
                write_service(&mut out, &self.services[i]);
                proof {
                    assert(out@ =~= base + enc_services(models.take(i + 1)));
                }
                i += 1;
            }
            proof {
                assert(models.take(models.len() as int) =~= models);
            }
        }
        if let Some(p) = self.period {
            write_head(&mut out, 0, p);
        }
        proof {
            assert(out@ =~= encode_beacon_spec(self@));
        }
        out
    }
}

// ---------------------------------------------------------------------
// executable decoder
// ---------------------------------------------------------------------
/// Relies on `String::from_utf8`: it returns the string whose UTF-8
/// encoding is exactly the given bytes, and an error precisely when the
/// bytes are not valid UTF-8.
#[verifier::external_body]
fn string_from_utf8(bytes: Vec<u8>) -> (r: Option<String>)
    ensures
        r is Some <==> valid_utf8(bytes@),
        r matches Some(s) ==> encode_utf8(s@) == bytes@,
{
    match String::from_utf8(bytes) {
        Ok(s) => Some(s),
        Err(_) => None,
    }
}

/// Reads one unsigned integer element starting at `pos`.
fn read_uint(buf: &[u8], pos: usize) -> (r: Option<(u64, usize)>)
    requires
        pos <= buf@.len(),
    ensures
        match r {
            Some(p) => {
                &&& parse_uint(buf@.skip(pos as int)) == Some((p.0, p.1 - pos as int))
                &&& pos < p.1 <= buf@.len()
            },
            None => parse_uint(buf@.skip(pos as int)) is None,
        },
{
    match read_head(buf, pos) {
        Some((major, v, end)) => if major == 0 {
            Some((v, end))
        } else {
            None
        },
        None => None,
    }
}

/// Reads one text element starting at `pos`.
fn read_text(buf: &[u8], pos: usize) -> (r: Option<(String, usize)>)
    requires
        pos <= buf@.len(),
    ensures
        match r {
            Some(p) => {
                &&& parse_text(buf@.skip(pos as int)) == Some((p.0@, p.1 - pos as int))
                &&& pos < p.1 <= buf@.len()
                &&& encode_utf8(p.0@).len() <= u64::MAX
            },
            None => parse_text(buf@.skip(pos as int)) is None,
        },
{
    let ghost tail = buf@.skip(pos as int);
    match read_head(buf, pos) {
        None => None,
        Some((major, len, hend)) => {
            if major != 3 {
                return None;
            }
            if len > (buf.len() - hend) as u64 {
                return None;
            }
            let end = hend + (len as usize);
            let bytes = slice_to_vec(slice_subrange(buf, hend, end));
            proof {
                assert(bytes@ =~= tail.subrange(hend - pos as int, end - pos as int));
            }
            match string_from_utf8(bytes) {
                Some(t) => {
                    proof {
                        encode_utf8_decode_utf8(t@);
                    }
                    Some((t, end))
                },
                None => None,
            }
        },
    }
}

/// Reads one 32-bit float element starting at `pos`, as its bit pattern.
fn read_f32_bits(buf: &[u8], pos: usize) -> (r: Option<(u32, usize)>)
    requires
        pos <= buf@.len(),
    ensures
        match r {
            Some(p) => {
                &&& parse_f32_bits(buf@.skip(pos as int)) == Some((p.0, p.1 - pos as int))
                &&& pos < p.1 <= buf@.len()
            },
            None => parse_f32_bits(buf@.skip(pos as int)) is None,
        },
{
    let ghost tail = buf@.skip(pos as int);
    assert(forall|i: int| 0 <= i < tail.len() ==> tail[i] == buf@[pos + i]);
    if buf.len() - pos >= 5 && buf[pos] == 0xfa {
        let bits = ((buf[pos + 1] as u32) << 24) | ((buf[pos + 2] as u32) << 16) | ((buf[pos
            + 3] as u32) << 8) | (buf[pos + 4] as u32);
        Some((bits, pos + 5))
    } else {
        None
    }
}

/// Reads one service entry starting at `pos`.
#[verifier::rlimit(100)]
fn read_service(buf: &[u8], pos: usize) -> (r: Option<(Service, usize)>)
    requires
        pos <= buf@.len(),
    ensures
        match r {
            Some(p) => {
                &&& parse_service(buf@.skip(pos as int)) == Some((p.0@, p.1 - pos as int))
                &&& service_wf(p.0@)
                &&& pos < p.1 <= buf@.len()
            },
            None => parse_service(buf@.skip(pos as int)) is None,
        },
{
    let ghost tail = buf@.skip(pos as int);
    match read_head(buf, pos) {
        None => None,
        Some((major, n, p1)) => {
            if major != 4 || n != 2 {
                return None;
            }
            proof {
                assert(tail.skip(p1 - pos as int) =~= buf@.skip(p1 as int));
            }
            match read_uint(buf, p1) {
                None => None,
                Some((tagv, p2)) => {
                    if tagv > 255 {
                        return None;
                    }
                    let tag = tagv as u8;
                    proof {
                        assert(buf@.skip(p1 as int).skip(p2 - p1 as int) =~= buf@.skip(p2 as int));
                    }
                    if tag == TAG_TCPCLV4 || tag == TAG_TCPCLV3 || tag == TAG_MTCPCL {
                        match read_uint(buf, p2) {
                            None => None,
                            Some((p, p3)) => if p <= u16::MAX as u64 {
                                let sv = if tag == TAG_TCPCLV4 {
                                    Service::TCPCLv4(p as u16)
                                } else if tag == TAG_TCPCLV3 {
                                    Service::TCPCLv3(p as u16)
                                } else {
                                    Service::MTCPCL(p as u16)
                                };
                                Some((sv, p3))
                            } else {
                                None
                            },
                        }
                    } else if tag == TAG_GEOLOCATION {
                        match read_head(buf, p2) {
                            None => None,
                            Some((m2, n2, p3)) => {
                                if !(m2 == 4 && n2 == 2) {
                                    return None;
                                }
                                proof {
                                    assert(buf@.skip(p2 as int).skip(p3 - p2 as int) =~= buf@.skip(
                                        p3 as int,
                                    ));
                                }
                                match read_f32_bits(buf, p3) {
                                    None => None,
                                    Some((lat, p4)) => {
                                        proof {
                                            assert(buf@.skip(p3 as int).skip(p4 - p3 as int)
                                                =~= buf@.skip(p4 as int));
                                        }
                                        match read_f32_bits(buf, p4) {
                                            None => None,
                                            Some((lon, p5)) => Some(
                                                (Service::GeoLocation(lat, lon), p5),
                                            ),
                                        }
                                    },
                                }
                            },
                        }
                    } else if tag == TAG_ADDRESS {
                        match read_text(buf, p2) {
                            None => None,
                            Some((a, p3)) => Some((Service::Address(a), p3)),
                        }
                    } else {
                        match skip_item_at(buf, p2, OPAQUE_DEPTH) {
                            None => None,
                            Some(end) => {
                                let raw = slice_to_vec(slice_subrange(buf, p2, end));
                                proof {
                                    let s2 = buf@.skip(p2 as int);
                                    assert(raw@ =~= s2.take(end - p2 as int));
                                    lemma_skip_item_truncate(s2, OPAQUE_DEPTH as nat);
                                }
                                Some((Service::Unknown(tag, raw), end))
                            },
                        }
                    }
                },
            }
        },
    }
}

/// Reads `m` service entries starting at `pos`.
#[verifier::rlimit(100)]
fn read_services(buf: &[u8], pos: usize, m: u64) -> (r: Option<(Vec<Service>, usize)>)
    requires
        pos <= buf@.len(),
    ensures
        match r {
            Some(p) => {
                &&& parse_services(buf@.skip(pos as int), m) == Some(
                    (p.0@.map_values(|s: Service| s@), p.1 - pos as int),
                )
                &&& pos <= p.1 <= buf@.len()
                &&& forall|i: int| 0 <= i < p.0@.len() ==> service_wf(#[trigger] p.0@[i]@)
            },
            None => parse_services(buf@.skip(pos as int), m) is None,
        },
{
    let mut acc: Vec<Service> = Vec::new();
    let mut cur: usize = pos;
    let mut done: u64 = 0;
    proof {
        assert(acc@.map_values(|s: Service| s@) =~= Seq::<ServiceModel>::empty());
    }
    while done < m
        invariant
            pos <= cur <= buf@.len(),
            done <= m,
            acc@.len() == done,
            forall|i: int| 0 <= i < acc@.len() ==> service_wf(#[trigger] acc@[i]@),
            ({
                let whole = parse_services(buf@.skip(pos as int), m);
                let rest = parse_services(buf@.skip(cur as int), (m - done) as u64);
                whole == match rest {
                    Some((tail_models, k)) => Some(
                        (
                            acc@.map_values(|s: Service| s@) + tail_models,
                            (cur - pos) + k,
                        ),
                    ),
                    None => None::<(Seq<ServiceModel>, int)>,
                }
            }),
        decreases m - done,
    {
        let ghost pre_models = acc@.map_values(|s: Service| s@);
        match read_service(buf, cur) {
            None => {
                return None;
            },
            Some((sv, end)) => {
                proof {
                    assert(buf@.skip(cur as int).skip(end - cur as int) =~= buf@.skip(end as int));
                    let rest_after = parse_services(buf@.skip(end as int), (m - done - 1) as u64);
                    if rest_after is Some {
                        let (tm, k) = rest_after->Some_0;
                        assert(pre_models + (seq![sv@] + tm) =~= pre_models.push(sv@) + tm);
                    }
                }
                acc.push(sv);
                proof {
                    assert(acc@.map_values(|s: Service| s@) =~= pre_models.push(sv@));
                }
                cur = end;
                done = done + 1;
            },
        }
    }
    proof {
        assert(parse_services(buf@.skip(cur as int), 0) == Some((Seq::<ServiceModel>::empty(), 0int)));
        assert(acc@.map_values(|s: Service| s@) + Seq::<ServiceModel>::empty() =~= acc@.map_values(
            |s: Service| s@,
        ));
    }
    Some((acc, cur))
}

/// Decodes the service block and the period, then assembles the beacon;
/// the executable half of [`decode_after_node_id`].
#[verifier::rlimit(100)]
fn parse_after_node_id(
    bytes: &[u8],
    pos: usize,
    flu8: u8,
    seqno: u64,
    node_id: Option<String>,
) -> (r: Result<Beacon, DecodeError>)
    requires
        pos <= bytes@.len(),
        match node_id {
            Some(t) => encode_utf8(t@).len() <= u64::MAX,
            None => true,
        },
    ensures
        ({
            let nid_model: Option<Seq<char>> = match node_id {
                Some(t) => Some(t@),
                None => None,
            };
            match r {
                Ok(b) => decode_after_node_id(bytes@.skip(pos as int), flu8, seqno, nid_model)
                    == Ok::<BeaconModel, DecodeError>(b@) && beacon_wf(b@),
                Err(e) => decode_after_node_id(bytes@.skip(pos as int), flu8, seqno, nid_model)
                    == Err::<BeaconModel, DecodeError>(e),
            }
        }),
{
    let ghost s = bytes@;
    let ghost nid_model: Option<Seq<char>> = match &node_id {
        Some(t) => Some(t@),
        None => None,
    };
    let mut cur: usize = pos;
    let services: Vec<Service> = if flu8 & 2 == 2 {
            match read_head(bytes, cur) {
                None => {
                    return Err(DecodeError::MalformedEncoding);
                },
                Some((m2, cnt, hend)) => {
                    if m2 != 4 {
                        return Err(DecodeError::MalformedEncoding);
                    }
                    proof {
                        assert(s.skip(cur as int).skip(hend - cur as int) =~= s.skip(hend as int));
                    }
                    match read_services(bytes, hend, cnt) {
                        None => {
                            return Err(DecodeError::MalformedEncoding);
                        },
                        Some((svcs, e)) => {
                            proof {
                                assert(s.skip(hend as int).skip(e - hend as int) =~= s.skip(
                                    e as int,
                                ));
                            }
                            cur = e;
                            svcs
                        },
                    }
                },
            }
        } else {
            Vec::new()
        };
        let ghost svc_models = services@.map_values(|sv: Service| sv@);
        proof {
            if flu8 & 2 != 2 {
                assert(svc_models =~= Seq::<ServiceModel>::empty());
            }
        }
        let period: Option<u64> = if flu8 & 4 == 4 {
            match read_uint(bytes, cur) {
                None => {
                    return Err(DecodeError::MalformedEncoding);
                },
                Some((p, e)) => {
                    if e != bytes.len() {
                        return Err(DecodeError::MalformedEncoding);
                    }
                    cur = e;
                    Some(p)
                },
            }
        } else {
            if cur != bytes.len() {
                return Err(DecodeError::MalformedEncoding);
            }
            None
        };
        let svc_len = services.len();
        let b = Beacon {
            version: SUPPORTED_VERSION,
            node_id,
            sequence_number: seqno,
            services,
            period,
        };
    proof {
        assert(svc_models.len() == svc_len as int);
        assert(svc_len as u64 <= u64::MAX);
        assert(b@ == beacon_model(nid_model, seqno, svc_models, period));
        assert(decode_after_node_id(s.skip(pos as int), flu8, seqno, nid_model)
            == Ok::<BeaconModel, DecodeError>(b@));
    }
    Ok(b)
}

/// Checks the arity against the flags and decodes the node id; the
/// executable half of [`decode_optionals`].
#[verifier::rlimit(100)]
fn parse_optionals(bytes: &[u8], pos: usize, n: u64, flu8: u8, seqno: u64) -> (r: Result<
    Beacon,
    DecodeError,
>)
    requires
        pos <= bytes@.len(),
    ensures
        match r {
            Ok(b) => decode_optionals(bytes@.skip(pos as int), n, flu8, seqno) == Ok::<
                BeaconModel,
                DecodeError,
            >(b@) && beacon_wf(b@),
            Err(e) => decode_optionals(bytes@.skip(pos as int), n, flu8, seqno) == Err::<
                BeaconModel,
                DecodeError,
            >(e),
        },
{
    let ghost s = bytes@;
    let need: u64 = 3 + (if flu8 & 1 == 1 {
        1u64
    } else {
        0u64
    }) + (if flu8 & 2 == 2 {
        1u64
    } else {
        0u64
    }) + (if flu8 & 4 == 4 {
        1u64
    } else {
        0u64
    });
    proof {
        assert(need == wire_arity(flu8));
    }
    if n < need {
        return Err(DecodeError::MissingField);
    }
    if n > need {
        return Err(DecodeError::MalformedEncoding);
    }
    let node_id: Option<String>;
    let after_nid: usize;
    if flu8 & 1 == 1 {
        match read_text(bytes, pos) {
            None => {
                return Err(DecodeError::MalformedEncoding);
            },
            Some((t, e)) => {
                proof {
                    assert(s.skip(pos as int).skip(e - pos as int) =~= s.skip(e as int));
                }
                node_id = Some(t);
                after_nid = e;
            },
        }
    } else {
        node_id = None;
        after_nid = pos;
    }
    parse_after_node_id(bytes, after_nid, flu8, seqno, node_id)
}

/// Decodes the three fixed elements, judging the version first; the
/// executable half of [`decode_elements`].
#[verifier::rlimit(100)]
fn parse_elements(bytes: &[u8], pos: usize, n: u64) -> (r: Result<Beacon, DecodeError>)
    requires
        pos <= bytes@.len(),
    ensures
        match r {
            Ok(b) => decode_elements(bytes@.skip(pos as int), n) == Ok::<BeaconModel, DecodeError>(
                b@,
            ) && beacon_wf(b@),
            Err(e) => decode_elements(bytes@.skip(pos as int), n) == Err::<
                BeaconModel,
                DecodeError,
            >(e),
        },
{
    let ghost s = bytes@;
    let ghost s_el = s.skip(pos as int);
    if n < 1 {
        return Err(DecodeError::MissingField);
    }
    let (ver, p1) = match read_uint(bytes, pos) {
        None => {
            return Err(DecodeError::MalformedEncoding);
        },
        Some(x) => x,
    };
    if ver > 255 {
        return Err(DecodeError::MalformedEncoding);
    }
    if ver != SUPPORTED_VERSION as u64 {
        return Err(DecodeError::UnsupportedVersion);
    }
    if n < 2 {
        return Err(DecodeError::MissingField);
    }
    proof {
        assert(s_el.skip(p1 - pos as int) =~= s.skip(p1 as int));
    }
    let (fl, p2) = match read_uint(bytes, p1) {
        None => {
            return Err(DecodeError::MalformedEncoding);
        },
        Some(x) => x,
    };
    if fl > 255 {
        return Err(DecodeError::MalformedEncoding);
    }
    if n < 3 {
        return Err(DecodeError::MissingField);
    }
    proof {
        assert(s.skip(p1 as int).skip(p2 - p1 as int) =~= s.skip(p2 as int));
    }
    let (seqno, p3) = match read_uint(bytes, p2) {
        None => {
            return Err(DecodeError::MalformedEncoding);
        },
        Some(x) => x,
    };
    proof {
        assert(s.skip(p2 as int).skip(p3 - p2 as int) =~= s.skip(p3 as int));
    }
    parse_optionals(bytes, p3, n, fl as u8, seqno)
}

impl Beacon {
    /// Decodes a received buffer, judging it exactly as
    /// [`decode_beacon_spec`] says: the version is checked before
    /// anything else, each optional field is read only when its flag
    /// bit announces it, reserved flag bits are ignored, and every
    /// structural fault names its reason.
    pub fn parse(bytes: &[u8]) -> (r: Result<Beacon, DecodeError>)
        ensures
            match r {
                Ok(b) => decode_beacon_spec(bytes@) == Ok::<BeaconModel, DecodeError>(b@)
                    && beacon_wf(b@),
                Err(e) => decode_beacon_spec(bytes@) == Err::<BeaconModel, DecodeError>(e),
            },
    {
        let ghost s = bytes@;
        proof {
            assert(s.skip(0) =~= s);
        }
        match read_head(bytes, 0) {
            None => Err(DecodeError::MalformedEncoding),
            Some((major, n, p0)) => {
                if major != 4 {
                    return Err(DecodeError::MalformedEncoding);
                }
                parse_elements(bytes, p0, n)
            },
        }
    }
}

// ---------------------------------------------------------------------
// laws of the codec
// ---------------------------------------------------------------------
/// The flags byte is under 8 and each of its three low bits stands for
/// exactly one optional field.
pub proof fn lemma_flags_bits(b: BeaconModel)
    ensures
        flags_of(b) < 8,
        flags_of(b) & 1 == 1 <==> b.node_id is Some,
        flags_of(b) & 2 == 2 <==> b.services.len() > 0,
        flags_of(b) & 4 == 4 <==> b.period is Some,
        flags_of(b) & 0xf8 == 0,
{
    let nb: u8 = if b.node_id is Some {
        1
    } else {
        0
    };
    let sb: u8 = if b.services.len() > 0 {
        2
    } else {
        0
    };
    let pb: u8 = if b.period is Some {
        4
    } else {
        0
    };
    let f = flags_of(b);
    assert(f == nb + sb + pb);
    assert((f & 1 == 1 <==> nb == 1) && (f & 2 == 2 <==> sb == 2) && (f & 4 == 4 <==> pb == 4) && f
        < 8 && f & 0xf8 == 0) by (bit_vector)
        requires
            (nb == 0 || nb == 1) && (sb == 0 || sb == 2) && (pb == 0 || pb == 4) && f == nb + sb
                + pb,
    ;
}

/// Flags correctness: the third byte of an encoded beacon is the flags
/// byte; bit 0 is set iff the node id is present, bit 1 iff the service
/// list is non-empty, bit 2 iff the period is present, and the reserved
/// bits 3 to 7 are always clear.
pub proof fn lemma_flags_byte(b: BeaconModel)
    requires
        beacon_wf(b),
    ensures
        encode_beacon_spec(b).len() >= 3,
        encode_beacon_spec(b)[2] == flags_of(b),
        flags_of(b) & 1 == 1 <==> b.node_id is Some,
        flags_of(b) & 2 == 2 <==> b.services.len() > 0,
        flags_of(b) & 4 == 4 <==> b.period is Some,
        flags_of(b) & 0xf8 == 0,
{
    lemma_flags_bits(b);
    let f = flags_of(b);
    let a = wire_arity(f);
    assert(a < 24);
    assert(head_spec(4, a).len() == 1 && head_spec(0, b.version as u64).len() == 1 && head_spec(
        0,
        f as u64,
    ).len() == 1);
    assert(encode_beacon_spec(b)[2] == head_spec(0, f as u64)[0]);
    let b0 = head_spec(0, f as u64)[0];
    assert(((0u8 << 5) | f) == f) by (bit_vector)
        requires
            f < 8,
    ;
}

/// The decoder reads only the three assigned bits of the flags byte:
/// two flag bytes that agree on bits 0 to 2 decode every buffer alike.
pub proof fn lemma_reserved_flag_bits_ignored(s: Seq<u8>, n: u64, f1: u8, f2: u8, seqno: u64)
    requires
        f1 & 7 == f2 & 7,
    ensures
        decode_optionals(s, n, f1, seqno) == decode_optionals(s, n, f2, seqno),
{
    assert(f1 & 1 == f2 & 1 && f1 & 2 == f2 & 2 && f1 & 4 == f2 & 4) by (bit_vector)
        requires
            f1 & 7 == f2 & 7,
    ;
    assert(wire_arity(f1) == wire_arity(f2));
}

/// Version gate: a buffer whose version element reads as anything but
/// the supported version fails with `UnsupportedVersion`, whatever the
/// rest of the buffer holds.
pub proof fn lemma_version_gate(n: u64, v: u64, rest: Seq<u8>)
    requires
        n >= 1,
        v <= 255,
        v != SUPPORTED_VERSION as u64,
    ensures
        decode_beacon_spec(head_spec(4, n) + (head_spec(0, v) + rest)) == Err::<
            BeaconModel,
            DecodeError,
        >(DecodeError::UnsupportedVersion),
{
    let s = head_spec(4, n) + (head_spec(0, v) + rest);
    lemma_parse_head_of_encoded(4, n, head_spec(0, v) + rest);
    assert(s.skip(head_spec(4, n).len() as int) =~= head_spec(0, v) + rest);
    lemma_parse_head_of_encoded(0, v, rest);
}

/// A text element written by the encoder reads back as the same
/// characters, whatever follows it.
pub proof fn lemma_parse_text_of_encoded(t: Seq<char>, rest: Seq<u8>)
    requires
        encode_utf8(t).len() <= u64::MAX,
    ensures
        parse_text(enc_text(t) + rest) == Some((t, enc_text(t).len() as int)),
{
    let bytes = encode_utf8(t);
    let h = head_spec(3, bytes.len() as u64);
    let s = enc_text(t) + rest;
    assert(s =~= h + (bytes + rest));
    lemma_parse_head_of_encoded(3, bytes.len() as u64, bytes + rest);
    let k = h.len() as int;
    assert(s.subrange(k, k + bytes.len()) =~= bytes);
    encode_utf8_valid_utf8(t);
    encode_utf8_decode_utf8(t);
}

/// A float element written by the encoder reads back as the same bit
/// pattern, whatever follows it.
pub proof fn lemma_parse_f32_of_encoded(bits: u32, rest: Seq<u8>)
    ensures
        parse_f32_bits(float_bytes(bits) + rest) == Some((bits, 5int)),
{
    let s = float_bytes(bits) + rest;
    assert(s[0] == 0xfa && s[1] == ((bits >> 24) & 0xff) as u8 && s[2] == ((bits >> 16)
        & 0xff) as u8 && s[3] == ((bits >> 8) & 0xff) as u8 && s[4] == (bits & 0xff) as u8);
    assert(((((bits >> 24) & 0xff) as u8 as u32) << 24) | ((((bits >> 16) & 0xff) as u8 as u32)
        << 16) | ((((bits >> 8) & 0xff) as u8 as u32) << 8) | ((bits & 0xff) as u8 as u32) == bits)
        by (bit_vector);
}

/// One service entry round-trips, whatever follows it.
#[verifier::rlimit(100)]
pub proof fn lemma_service_round_trip(sv: ServiceModel, rest: Seq<u8>)
    requires
        service_wf(sv),
    ensures
        parse_service(enc_service(sv) + rest) == Some((sv, enc_service(sv).len() as int)),
{
    let s = enc_service(sv) + rest;
    let h0 = head_spec(4, 2);
    match sv {
        ServiceModel::TCPCLv4(p) => {
            lemma_service_port_round_trip(sv, TAG_TCPCLV4, p, rest);
        },
        ServiceModel::TCPCLv3(p) => {
            lemma_service_port_round_trip(sv, TAG_TCPCLV3, p, rest);
        },
        ServiceModel::MTCPCL(p) => {
            lemma_service_port_round_trip(sv, TAG_MTCPCL, p, rest);
        },
        ServiceModel::GeoLocation(lat, lon) => {
            lemma_service_geo_round_trip(lat, lon, rest);
        },
        ServiceModel::Address(a) => {
            lemma_service_address_round_trip(a, rest);
        },
        ServiceModel::Unknown(tag, raw) => {
            lemma_service_unknown_round_trip(tag, raw, rest);
        },
    }
}

/// A geographic-location entry round-trips.
#[verifier::rlimit(100)]
proof fn lemma_service_geo_round_trip(lat: u32, lon: u32, rest: Seq<u8>)
    ensures
        parse_service(enc_service(ServiceModel::GeoLocation(lat, lon)) + rest) == Some(
            (
                ServiceModel::GeoLocation(lat, lon),
                enc_service(ServiceModel::GeoLocation(lat, lon)).len() as int,
            ),
        ),
{
    let s = enc_service(ServiceModel::GeoLocation(lat, lon)) + rest;
    let h0 = head_spec(4, 2);
    let ht = head_spec(0, TAG_GEOLOCATION as u64);
    let hg = head_spec(4, 2);
    let fb1 = float_bytes(lat);
    let fb2 = float_bytes(lon);
    assert(s =~= h0 + (ht + (hg + (fb1 + (fb2 + rest)))));
    lemma_parse_head_of_encoded(4, 2, ht + (hg + (fb1 + (fb2 + rest))));
    assert(s.skip(h0.len() as int) =~= ht + (hg + (fb1 + (fb2 + rest))));
    lemma_parse_head_of_encoded(0, TAG_GEOLOCATION as u64, hg + (fb1 + (fb2 + rest)));
    assert((ht + (hg + (fb1 + (fb2 + rest)))).skip(ht.len() as int) =~= hg + (fb1 + (fb2 + rest)));
    lemma_parse_head_of_encoded(4, 2, fb1 + (fb2 + rest));
    assert((hg + (fb1 + (fb2 + rest))).skip(hg.len() as int) =~= fb1 + (fb2 + rest));
    lemma_parse_f32_of_encoded(lat, fb2 + rest);
    assert((fb1 + (fb2 + rest)).skip(5) =~= fb2 + rest);
    lemma_parse_f32_of_encoded(lon, rest);
}

/// An address entry round-trips.
#[verifier::rlimit(100)]
proof fn lemma_service_address_round_trip(a: Seq<char>, rest: Seq<u8>)
    requires
        encode_utf8(a).len() <= u64::MAX,
    ensures
        parse_service(enc_service(ServiceModel::Address(a)) + rest) == Some(
            (ServiceModel::Address(a), enc_service(ServiceModel::Address(a)).len() as int),
        ),
{
    let s = enc_service(ServiceModel::Address(a)) + rest;
    let h0 = head_spec(4, 2);
    let ht = head_spec(0, TAG_ADDRESS as u64);
    let et = enc_text(a);
    assert(s =~= h0 + (ht + (et + rest)));
    lemma_parse_head_of_encoded(4, 2, ht + (et + rest));
    assert(s.skip(h0.len() as int) =~= ht + (et + rest));
    lemma_parse_head_of_encoded(0, TAG_ADDRESS as u64, et + rest);
    assert((ht + (et + rest)).skip(ht.len() as int) =~= et + rest);
    lemma_parse_text_of_encoded(a, rest);
}

/// An unrecognized entry round-trips, keeping tag and payload verbatim.
#[verifier::rlimit(100)]
proof fn lemma_service_unknown_round_trip(tag: u8, raw: Seq<u8>, rest: Seq<u8>)
    requires
        !is_known_tag(tag),
        skip_item(raw, OPAQUE_DEPTH as nat) == Some(raw.len() as int),
    ensures
        parse_service(enc_service(ServiceModel::Unknown(tag, raw)) + rest) == Some(
            (
                ServiceModel::Unknown(tag, raw),
                enc_service(ServiceModel::Unknown(tag, raw)).len() as int,
            ),
        ),
{
    let s = enc_service(ServiceModel::Unknown(tag, raw)) + rest;
    let h0 = head_spec(4, 2);
    let ht = head_spec(0, tag as u64);
    assert(s =~= h0 + (ht + (raw + rest)));
    lemma_parse_head_of_encoded(4, 2, ht + (raw + rest));
    assert(s.skip(h0.len() as int) =~= ht + (raw + rest));
    lemma_parse_head_of_encoded(0, tag as u64, raw + rest);
    assert((ht + (raw + rest)).skip(ht.len() as int) =~= raw + rest);
    lemma_skip_item_extend(raw, rest, OPAQUE_DEPTH as nat);
    assert((raw + rest).take(raw.len() as int) =~= raw);
}

/// A convergence-layer entry (a tag under 3 and a port) round-trips.
proof fn lemma_service_port_round_trip(sv: ServiceModel, tag: u8, p: u16, rest: Seq<u8>)
    requires
        tag == TAG_TCPCLV4 && sv == ServiceModel::TCPCLv4(p) || tag == TAG_TCPCLV3 && sv
            == ServiceModel::TCPCLv3(p) || tag == TAG_MTCPCL && sv == ServiceModel::MTCPCL(p),
    ensures
        parse_service(enc_service(sv) + rest) == Some((sv, enc_service(sv).len() as int)),
{
    let s = enc_service(sv) + rest;
    let h0 = head_spec(4, 2);
    let ht = head_spec(0, tag as u64);
    let hp = head_spec(0, p as u64);
    assert(s =~= h0 + (ht + (hp + rest)));
    lemma_parse_head_of_encoded(4, 2, ht + (hp + rest));
    assert(s.skip(h0.len() as int) =~= ht + (hp + rest));
    lemma_parse_head_of_encoded(0, tag as u64, hp + rest);
    assert((ht + (hp + rest)).skip(ht.len() as int) =~= hp + rest);
    lemma_parse_head_of_encoded(0, p as u64, rest);
}

/// Unknown-tag preservation: a service with an unrecognized tag encodes
/// and decodes back to the identical tag and payload.
pub proof fn lemma_unknown_service_round_trip(tag: u8, raw: Seq<u8>, rest: Seq<u8>)
    requires
        !is_known_tag(tag),
        skip_item(raw, OPAQUE_DEPTH as nat) == Some(raw.len() as int),
    ensures
        parse_service(enc_service(ServiceModel::Unknown(tag, raw)) + rest) == Some(
            (
                ServiceModel::Unknown(tag, raw),
                enc_service(ServiceModel::Unknown(tag, raw)).len() as int,
            ),
        ),
{
    lemma_service_round_trip(ServiceModel::Unknown(tag, raw), rest);
}

/// A service list round-trips, whatever follows it.
#[verifier::rlimit(100)]
pub proof fn lemma_services_round_trip(ss: Seq<ServiceModel>, rest: Seq<u8>)
    requires
        ss.len() <= u64::MAX,
        forall|i: int| 0 <= i < ss.len() ==> service_wf(#[trigger] ss[i]),
    ensures
        parse_services(enc_services(ss) + rest, ss.len() as u64) == Some(
            (ss, enc_services(ss).len() as int),
        ),
    decreases ss.len(),
{
    if ss.len() == 0 {
        assert(ss =~= Seq::<ServiceModel>::empty());
    } else {
        let e0 = enc_service(ss[0]);
        let rest1 = enc_services(ss.drop_first()) + rest;
        let s = enc_services(ss) + rest;
        assert(s =~= e0 + rest1);
        lemma_service_round_trip(ss[0], rest1);
        assert(0 <= e0.len() <= s.len());
        assert(s.skip(e0.len() as int) =~= rest1);
        assert(forall|i: int|
            0 <= i < ss.drop_first().len() ==> service_wf(#[trigger] ss.drop_first()[i])) by {
            assert(forall|i: int|
                0 <= i < ss.drop_first().len() ==> ss.drop_first()[i] == ss[i + 1]);
        }
        lemma_services_round_trip(ss.drop_first(), rest);
        assert(seq![ss[0]] + ss.drop_first() =~= ss);
    }
}

/// The optional elements written by the encoder decode back to the
/// beacon they came from.
#[verifier::rlimit(100)]
proof fn lemma_decode_optionals_of_encoded(b: BeaconModel)
    requires
        beacon_wf(b),
    ensures
        decode_optionals(
            enc_optionals(b),
            wire_arity(flags_of(b)),
            flags_of(b),
            b.sequence_number,
        ) == Ok::<BeaconModel, DecodeError>(b),
{
    let f = flags_of(b);
    lemma_flags_bits(b);
    let r4 = enc_optionals(b);
    let svc = if b.services.len() > 0 {
        head_spec(4, b.services.len() as u64) + enc_services(b.services)
    } else {
        Seq::<u8>::empty()
    };
    let per = match b.period {
        Some(p) => head_spec(0, p),
        None => Seq::<u8>::empty(),
    };
    let r5 = svc + per;
    match b.node_id {
        Some(t) => {
            lemma_parse_text_of_encoded(t, r5);
            assert(r4 == enc_text(t) + r5);
            assert(r4.skip(enc_text(t).len() as int) =~= r5);
        },
        None => {
            assert(r4 =~= r5);
        },
    }
    lemma_decode_tail_of_encoded(b);
}

/// The service list and period written by the encoder decode back to
/// the beacon they came from.
#[verifier::rlimit(100)]
proof fn lemma_decode_tail_of_encoded(b: BeaconModel)
    requires
        beacon_wf(b),
    ensures
        ({
            let svc = if b.services.len() > 0 {
                head_spec(4, b.services.len() as u64) + enc_services(b.services)
            } else {
                Seq::<u8>::empty()
            };
            let per = match b.period {
                Some(p) => head_spec(0, p),
                None => Seq::<u8>::empty(),
            };
            decode_after_node_id(svc + per, flags_of(b), b.sequence_number, b.node_id) == Ok::<
                BeaconModel,
                DecodeError,
            >(b)
        }),
{
    let f = flags_of(b);
    lemma_flags_bits(b);
    let svc = if b.services.len() > 0 {
        head_spec(4, b.services.len() as u64) + enc_services(b.services)
    } else {
        Seq::<u8>::empty()
    };
    let per = match b.period {
        Some(p) => head_spec(0, p),
        None => Seq::<u8>::empty(),
    };
    let r5 = svc + per;
    if b.services.len() > 0 {
        let hs = head_spec(4, b.services.len() as u64);
        let r6 = enc_services(b.services) + per;
        assert(r5 =~= hs + r6);
        lemma_parse_head_of_encoded(4, b.services.len() as u64, r6);
        assert(r5.skip(hs.len() as int) =~= r6);
        lemma_services_round_trip(b.services, per);
        assert(r6.skip(enc_services(b.services).len() as int) =~= per);
    } else {
        assert(r5 =~= per);
        assert(b.services =~= Seq::<ServiceModel>::empty());
    }
    match b.period {
        Some(p) => {
            lemma_parse_head_of_encoded(0, p, Seq::<u8>::empty());
            assert(per =~= head_spec(0, p) + Seq::<u8>::empty());
            assert(per.len() == head_spec(0, p).len());
        },
        None => {
            assert(per.len() == 0);
        },
    }
}

/// Round-trip: decoding what the encoder wrote yields the beacon back,
/// for every well-formed beacon, whatever its optional fields and its
/// service list hold.
#[verifier::rlimit(100)]
pub proof fn lemma_beacon_round_trip(b: BeaconModel)
    requires
        beacon_wf(b),
    ensures
        decode_beacon_spec(encode_beacon_spec(b)) == Ok::<BeaconModel, DecodeError>(b),
{
    let f = flags_of(b);
    lemma_flags_bits(b);
    let h0 = head_spec(4, wire_arity(f));
    let h1 = head_spec(0, b.version as u64);
    let h2 = head_spec(0, f as u64);
    let h3 = head_spec(0, b.sequence_number);
    let s = encode_beacon_spec(b);
    let r1 = h1 + (h2 + (h3 + enc_optionals(b)));
    assert(s == h0 + r1);
    lemma_parse_head_of_encoded(4, wire_arity(f), r1);
    assert(s.skip(h0.len() as int) =~= r1);
    let r2 = h2 + (h3 + enc_optionals(b));
    lemma_parse_head_of_encoded(0, b.version as u64, r2);
    assert(r1.skip(h1.len() as int) =~= r2);
    let r3 = h3 + enc_optionals(b);
    lemma_parse_head_of_encoded(0, f as u64, r3);
    assert(r2.skip(h2.len() as int) =~= r3);
    lemma_parse_head_of_encoded(0, b.sequence_number, enc_optionals(b));
    assert(r3.skip(h3.len() as int) =~= enc_optionals(b));
    lemma_decode_optionals_of_encoded(b);
}

} // verus!
