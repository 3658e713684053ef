use bytes::BytesMut;
use connection_header::name::Name;
use connection_header::{DetectError, Header};

#[test]
fn encode_prefaced_exact_bytes() {
    let header = Header {
        port: 4040,
        name: Some(Name::parse(b"foo.bar.example.com".to_vec()).unwrap()),
    };
    let mut buf = BytesMut::new();
    header.encode_prefaced(&mut buf).expect("must encode");

    let mut expected = b"proxy.l5d.io/connect\r\n\r\n".to_vec();
    expected.extend_from_slice(&[0x00, 0x00, 0x00, 0x18]);
    expected.extend_from_slice(&[0x08, 0xc8, 0x1f]);
    expected.extend_from_slice(&[0x12, 0x13]);
    expected.extend_from_slice(b"foo.bar.example.com");
    assert_eq!(buf.as_ref(), expected.as_slice());
}

#[test]
fn encode_port_zero_no_name_is_empty_payload() {
    let header = Header { port: 0, name: None };
    let mut buf = BytesMut::new();
    header.encode(&mut buf).expect("must encode");
    assert_eq!(buf.len(), 0);

    let mut framed = BytesMut::new();
    header.encode_prefaced(&mut framed).expect("must encode");
    let mut expected = b"proxy.l5d.io/connect\r\n\r\n".to_vec();
    expected.extend_from_slice(&[0x00, 0x00, 0x00, 0x00]);
    assert_eq!(framed.as_ref(), expected.as_slice());
}

#[test]
fn decode_empty_payload_defaults() {
    let h = Header::decode(&[]).expect("must decode");
    assert_eq!(h.port, 0);
    assert!(h.name.is_none());
}

#[test]
fn decode_truncates_port_to_16_bits() {
    // 70000 as a varint is f0 a2 04; the decoded port is 70000 mod 65536.
    let payload = [0x08, 0xf0, 0xa2, 0x04];
    let h = Header::decode(&payload).expect("must decode");
    assert_eq!(h.port, 4464);
    assert!(h.name.is_none());
}

#[test]
fn decode_rejects_unterminated_varint() {
    let payload = [0x08, 0xf0];
    let r = Header::decode(&payload);
    assert!(matches!(r, Err(DetectError::Malformed)));
}

#[test]
fn decode_rejects_short_name_field() {
    // The name field declares five bytes but only three follow.
    let payload = [0x12, 0x05, b'a', b'b', b'c'];
    let r = Header::decode(&payload);
    assert!(matches!(r, Err(DetectError::Malformed)));
}

#[test]
fn decode_rejects_invalid_name() {
    let payload = [0x12, 0x03, b'-', b'a', b'b'];
    let r = Header::decode(&payload);
    assert!(matches!(r, Err(DetectError::InvalidName)));
}

#[test]
fn decode_rejects_non_ascii_name() {
    let payload = [0x12, 0x02, 0xc3, 0xa9];
    let r = Header::decode(&payload);
    assert!(matches!(r, Err(DetectError::InvalidName)));
}

#[test]
fn decode_rejects_out_of_order_fields() {
    // A name field followed by a port field is not the canonical encoding
    // this codec accepts.
    let payload = [0x12, 0x01, b'a', 0x08, 0x01];
    let r = Header::decode(&payload);
    assert!(matches!(r, Err(DetectError::Malformed)));
}

#[test]
fn payload_roundtrip_via_decode() {
    let header = Header {
        port: 65535,
        name: Some(Name::parse(b"a-1.b-2".to_vec()).unwrap()),
    };
    let mut buf = BytesMut::new();
    header.encode(&mut buf).expect("must encode");
    let h = Header::decode(buf.as_ref()).expect("must decode");
    assert_eq!(h.port, 65535);
    assert_eq!(h.name.as_ref().unwrap().as_bytes(), b"a-1.b-2");
}

#[test]
fn name_parse_accepts_and_rejects() {
    assert!(Name::parse(b"example.com".to_vec()).is_some());
    assert!(Name::parse(b"a".to_vec()).is_some());
    assert!(Name::parse(b"A-1.b".to_vec()).is_some());
    assert!(Name::parse(b"".to_vec()).is_none());
    assert!(Name::parse(b"-a".to_vec()).is_none());
    assert!(Name::parse(b"a-".to_vec()).is_none());
    assert!(Name::parse(b"a..b".to_vec()).is_none());
    assert!(Name::parse(b"a b".to_vec()).is_none());
    assert!(Name::parse(vec![b'x'; 254]).is_none());
    assert!(Name::parse(vec![b'x'; 253]).is_some());
    let n = Name::parse(b"foo.bar".to_vec()).unwrap();
    assert_eq!(n.as_bytes(), b"foo.bar");
    assert_eq!(n.len(), 7);
}
