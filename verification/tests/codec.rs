use ipnd::beacon::{Beacon, DecodeError, Service};

fn base_beacon() -> Beacon {
    let mut b = Beacon::new();
    b.node_id = Some("node-A".to_string());
    b.sequence_number = 5;
    b.services.push(Service::TCPCLv3(4556));
    b.period = Some(30);
    b
}

#[test]
fn scenario_full_beacon_encodes_to_expected_bytes() {
    let b = base_beacon();
    let bytes = b.as_bytes();
    let expected: Vec<u8> = vec![
        0x86, // sequence of 6 elements: 3 fixed + 3 optional
        0x08, // version 8
        0x07, // flags 0b0000_0111
        0x05, // sequence number 5
        0x66, b'n', b'o', b'd', b'e', b'-', b'A', // node id
        0x81, 0x82, 0x01, 0x19, 0x11, 0xcc, // one service: (1, 4556)
        0x18, 0x1e, // period 30
    ];
    assert_eq!(bytes, expected);
}

#[test]
fn scenario_full_beacon_round_trips() {
    let b = base_beacon();
    let bytes = b.as_bytes();
    let d = Beacon::parse(&bytes).expect("decodes");
    assert_eq!(d.version, 8);
    assert_eq!(d.node_id.as_deref(), Some("node-A"));
    assert_eq!(d.sequence_number, 5);
    assert_eq!(d.services.len(), 1);
    assert!(matches!(d.services[0], Service::TCPCLv3(4556)));
    assert_eq!(d.period, Some(30));
}

#[test]
fn minimal_beacon_round_trips() {
    let b = Beacon::new();
    let bytes = b.as_bytes();
    assert_eq!(bytes, vec![0x83, 0x08, 0x00, 0x00]);
    let d = Beacon::parse(&bytes).expect("decodes");
    assert_eq!(d.node_id, None);
    assert_eq!(d.sequence_number, 0);
    assert_eq!(d.services.len(), 0);
    assert_eq!(d.period, None);
}

#[test]
fn all_service_kinds_round_trip() {
    let mut b = Beacon::new();
    b.node_id = Some("dtn://n1/".to_string());
    b.sequence_number = u64::MAX;
    b.services.push(Service::TCPCLv4(4556));
    b.services.push(Service::TCPCLv3(4557));
    b.services.push(Service::MTCPCL(16162));
    b.services.push(Service::GeoLocation(1.5f32.to_bits(), (-2.25f32).to_bits()));
    b.services.push(Service::Address("1 Example Road, Zürich".to_string()));
    b.period = Some(u64::MAX);
    let bytes = b.as_bytes();
    let d = Beacon::parse(&bytes).expect("decodes");
    assert_eq!(d.node_id.as_deref(), Some("dtn://n1/"));
    assert_eq!(d.sequence_number, u64::MAX);
    assert_eq!(d.period, Some(u64::MAX));
    assert_eq!(d.services.len(), 5);
    assert!(matches!(d.services[0], Service::TCPCLv4(4556)));
    assert!(matches!(d.services[1], Service::TCPCLv3(4557)));
    assert!(matches!(d.services[2], Service::MTCPCL(16162)));
    match &d.services[3] {
        Service::GeoLocation(lat, lon) => {
            assert_eq!(f32::from_bits(*lat), 1.5);
            assert_eq!(f32::from_bits(*lon), -2.25);
        }
        other => panic!("expected GeoLocation, got {:?}", other),
    }
    match &d.services[4] {
        Service::Address(a) => assert_eq!(a, "1 Example Road, Zürich"),
        other => panic!("expected Address, got {:?}", other),
    }
}

#[test]
fn unknown_tag_preserved_through_round_trip() {
    let mut b = Beacon::new();
    // tag 9 is unassigned; the payload is one complete item: [1, [2, 3]]
    let raw: Vec<u8> = vec![0x82, 0x01, 0x82, 0x02, 0x03];
    b.services.push(Service::Unknown(9, raw.clone()));
    let bytes = b.as_bytes();
    let d = Beacon::parse(&bytes).expect("decodes");
    assert_eq!(d.services.len(), 1);
    match &d.services[0] {
        Service::Unknown(tag, payload) => {
            assert_eq!(*tag, 9);
            assert_eq!(*payload, raw);
        }
        other => panic!("expected Unknown, got {:?}", other),
    }
}

#[test]
fn unknown_text_payload_round_trips() {
    let mut b = Beacon::new();
    // a text payload under an unassigned tag: 0x63 "abc"
    let raw: Vec<u8> = vec![0x63, b'a', b'b', b'c'];
    b.services.push(Service::Unknown(200, raw.clone()));
    let bytes = b.as_bytes();
    let d = Beacon::parse(&bytes).expect("decodes");
    match &d.services[0] {
        Service::Unknown(tag, payload) => {
            assert_eq!(*tag, 200);
            assert_eq!(*payload, raw);
        }
        other => panic!("expected Unknown, got {:?}", other),
    }
}

#[test]
fn flags_byte_reflects_present_fields() {
    let mut b = Beacon::new();
    assert_eq!(b.as_bytes()[2], 0b0000_0000);
    b.node_id = Some("n".to_string());
    assert_eq!(b.as_bytes()[2], 0b0000_0001);
    b.node_id = None;
    b.services.push(Service::TCPCLv4(1));
    assert_eq!(b.as_bytes()[2], 0b0000_0010);
    b.period = Some(10);
    assert_eq!(b.as_bytes()[2], 0b0000_0110);
    b.node_id = Some("n".to_string());
    assert_eq!(b.as_bytes()[2], 0b0000_0111);
}

#[test]
fn reserved_flag_bits_are_ignored_on_decode() {
    // flags 0b1111_1000 set only reserved bits: decodes like flags 0
    let bytes: Vec<u8> = vec![0x83, 0x08, 0x18, 0xf8, 0x17];
    let d = Beacon::parse(&bytes).expect("decodes");
    assert_eq!(d.node_id, None);
    assert_eq!(d.sequence_number, 23);
    assert_eq!(d.services.len(), 0);
    assert_eq!(d.period, None);
}

#[test]
fn version_gate_rejects_other_versions() {
    for v in [0u8, 1, 7, 9, 23] {
        let buf: Vec<u8> = vec![0x83, v, 0x00, 0x00];
        assert_eq!(Beacon::parse(&buf).unwrap_err(), DecodeError::UnsupportedVersion, "version {}", v);
    }
    // a version above the one-byte range, spelled with a wider head
    let buf: Vec<u8> = vec![0x83, 0x18, 0xff, 0x00, 0x00];
    assert_eq!(Beacon::parse(&buf).unwrap_err(), DecodeError::UnsupportedVersion);
    // the rest of the buffer does not matter, even when it is garbage
    let buf: Vec<u8> = vec![0x86, 0x07, 0xff, 0xff, 0xff];
    assert_eq!(Beacon::parse(&buf).unwrap_err(), DecodeError::UnsupportedVersion);
}

#[test]
fn missing_claimed_field_is_reported() {
    // flags claim a node id, but the sequence has only the 3 fixed elements
    let buf: Vec<u8> = vec![0x83, 0x08, 0x01, 0x00];
    assert_eq!(Beacon::parse(&buf).unwrap_err(), DecodeError::MissingField);
    // flags claim a period too, and only the node id is there
    let buf2: Vec<u8> = vec![0x84, 0x08, 0x05, 0x00, 0x61, b'x'];
    assert_eq!(Beacon::parse(&buf2).unwrap_err(), DecodeError::MissingField);
    // sequence shorter than the three fixed elements
    let buf3: Vec<u8> = vec![0x82, 0x08, 0x00];
    assert_eq!(Beacon::parse(&buf3).unwrap_err(), DecodeError::MissingField);
}

#[test]
fn malformed_encodings_are_reported() {
    // not a sequence at all
    assert_eq!(Beacon::parse(&[0x01]).unwrap_err(), DecodeError::MalformedEncoding);
    // empty buffer
    assert_eq!(Beacon::parse(&[]).unwrap_err(), DecodeError::MalformedEncoding);
    // arity larger than the flags call for
    assert_eq!(Beacon::parse(&[0x84, 0x08, 0x00, 0x00, 0x00]).unwrap_err(), DecodeError::MalformedEncoding);
    // version element of the wrong type (a text string)
    assert_eq!(Beacon::parse(&[0x83, 0x61, b'v', 0x00, 0x00]).unwrap_err(), DecodeError::MalformedEncoding);
    // a service entry that is a 3-tuple
    assert_eq!(Beacon::parse(&[0x84, 0x08, 0x02, 0x00, 0x81, 0x83, 0x00, 0x01, 0x02]).unwrap_err(), DecodeError::MalformedEncoding);
    // trailing bytes after a complete beacon
    assert_eq!(Beacon::parse(&[0x83, 0x08, 0x00, 0x00, 0x00]).unwrap_err(), DecodeError::MalformedEncoding);
    // node id bytes that are not UTF-8
    assert_eq!(Beacon::parse(&[0x84, 0x08, 0x01, 0x00, 0x62, 0xff, 0xfe]).unwrap_err(), DecodeError::MalformedEncoding);
}

#[test]
fn non_minimal_integer_widths_are_accepted() {
    // the same minimal beacon with every integer spelled in a wider form
    let buf: Vec<u8> = vec![0x83, 0x18, 0x08, 0x19, 0x00, 0x00, 0x1b, 0, 0, 0, 0, 0, 0, 0, 0x2a];
    let d = Beacon::parse(&buf).expect("decodes");
    assert_eq!(d.version, 8);
    assert_eq!(d.sequence_number, 42);
}

#[test]
fn next_increments_and_wraps() {
    let mut b = Beacon::new();
    b.node_id = Some("n".to_string());
    b.sequence_number = 41;
    let n = b.next();
    assert_eq!(n.sequence_number, 42);
    assert_eq!(n.node_id.as_deref(), Some("n"));
    let mut m = Beacon::new();
    m.sequence_number = u64::MAX;
    assert_eq!(m.next().sequence_number, 0);
}

#[test]
fn encoding_matches_a_general_cbor_writer() {
    // the same beacon written as a generic CBOR value byte-for-byte
    let b = base_beacon();
    let value = serde_cbor::Value::Array(vec![
        serde_cbor::Value::Integer(8),
        serde_cbor::Value::Integer(7),
        serde_cbor::Value::Integer(5),
        serde_cbor::Value::Text("node-A".to_string()),
        serde_cbor::Value::Array(vec![serde_cbor::Value::Array(vec![
            serde_cbor::Value::Integer(1),
            serde_cbor::Value::Integer(4556),
        ])]),
        serde_cbor::Value::Integer(30),
    ]);
    let reference = serde_cbor::to_vec(&value).expect("serializes");
    assert_eq!(b.as_bytes(), reference);
}

#[test]
fn decodes_a_general_cbor_writer() {
    let value = serde_cbor::Value::Array(vec![
        serde_cbor::Value::Integer(8),
        serde_cbor::Value::Integer(5),
        serde_cbor::Value::Integer(77),
        serde_cbor::Value::Text("dtn://peer/".to_string()),
        serde_cbor::Value::Integer(120),
    ]);
    let buf = serde_cbor::to_vec(&value).expect("serializes");
    let d = Beacon::parse(&buf).expect("decodes");
    assert_eq!(d.node_id.as_deref(), Some("dtn://peer/"));
    assert_eq!(d.sequence_number, 77);
    assert_eq!(d.period, Some(120));
    assert_eq!(d.services.len(), 0);
}
