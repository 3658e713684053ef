use bytes::BytesMut;
use connection_header::buffer::ChunkedSource;
use connection_header::name::Name;
use connection_header::{DetectError, DetectHeader, Header};

fn name(s: &str) -> Name {
    Name::parse(s.as_bytes().to_vec()).unwrap()
}

#[test]
fn roundtrip_prefaced() {
    let header = Header { port: 4040, name: Some(name("foo.bar.example.com")) };
    let mut rx = {
        let mut buf = BytesMut::new();
        header.encode_prefaced(&mut buf).expect("must encode");
        buf.extend_from_slice(b"12345");
        ChunkedSource::new(buf.as_ref().to_vec(), usize::MAX)
    };
    let mut buf = BytesMut::new();
    let h = Header::read_prefaced(&mut rx, &mut buf).expect("decodes").expect("decodes");
    assert_eq!(header.port, h.port);
    assert_eq!(
        header.name.as_ref().map(|n| n.as_bytes().to_vec()),
        h.name.as_ref().map(|n| n.as_bytes().to_vec())
    );
    assert_eq!(buf.as_ref(), b"12345");
}

#[test]
fn detect_prefaced() {
    let header = Header { port: 4040, name: Some(name("foo.bar.example.com")) };
    let mut rx = {
        let mut buf = BytesMut::new();
        header.encode_prefaced(&mut buf).expect("must encode");
        buf.extend_from_slice(b"12345");
        ChunkedSource::new(buf.as_ref().to_vec(), usize::MAX)
    };
    let mut buf = BytesMut::new();
    let h = DetectHeader::default()
        .detect(&mut rx, &mut buf)
        .expect("must decode")
        .expect("must decode");
    assert_eq!(header.port, h.port);
    assert_eq!(
        header.name.as_ref().map(|n| n.as_bytes().to_vec()),
        h.name.as_ref().map(|n| n.as_bytes().to_vec())
    );
    assert_eq!(&buf[..], b"12345");
}

#[test]
fn detect_no_header() {
    const MSG: &'static [u8] = b"GET / HTTP/1.1\r\nHost: example.com\r\n\r\n";
    let mut rx = ChunkedSource::new(MSG.to_vec(), usize::MAX);
    let mut buf = BytesMut::new();
    let h = DetectHeader::default().detect(&mut rx, &mut buf).expect("must not fail");
    assert!(h.is_none(), "must not decode");
    assert_eq!(&buf[..], MSG);
}

#[test]
fn many_reads() {
    let header = Header { port: 4040, name: Some(name("foo.bar.example.com")) };
    let mut rx = {
        let mut data = Vec::new();
        data.extend_from_slice(b"proxy.l5d");
        data.extend_from_slice(b".io/connect");
        data.extend_from_slice(b"\r\n\r\n");
        let msg = {
            let mut buf = BytesMut::new();
            header.encode(&mut buf).expect("must encode");
            buf
        };
        data.extend_from_slice(&(msg.len() as u32).to_be_bytes());
        data.extend_from_slice(msg.as_ref());
        data.extend_from_slice(b"12345");
        ChunkedSource::new(data, 1)
    };
    let mut buf = BytesMut::new();
    let h = Header::read_prefaced(&mut rx, &mut buf)
        .expect("I/O must not error")
        .expect("header must be present");
    assert_eq!(header.port, h.port);
    assert_eq!(
        header.name.as_ref().map(|n| n.as_bytes().to_vec()),
        h.name.as_ref().map(|n| n.as_bytes().to_vec())
    );
    assert_eq!(rx.remaining(), 5, "I/O must still have data");
}

#[test]
fn fragmentation_independent_chunks() {
    let header = Header { port: 9443, name: Some(name("svc.cluster.local")) };
    let mut frame = BytesMut::new();
    header.encode_prefaced(&mut frame).expect("must encode");
    let mut bytes = frame.as_ref().to_vec();
    bytes.extend_from_slice(b"tail");
    for chunk in [1usize, 2, 3, 7, 13, usize::MAX] {
        let mut rx = ChunkedSource::new(bytes.clone(), chunk);
        let mut buf = BytesMut::new();
        let h = Header::read_prefaced(&mut rx, &mut buf)
            .expect("must not fail")
            .expect("must decode");
        assert_eq!(h.port, 9443);
        assert_eq!(h.name.as_ref().unwrap().as_bytes(), b"svc.cluster.local");
        assert_eq!(rx.remaining() + buf.len(), 4);
    }
}

#[test]
fn empty_stream_not_present() {
    let mut rx = ChunkedSource::new(Vec::new(), usize::MAX);
    let mut buf = BytesMut::new();
    let h = Header::read_prefaced(&mut rx, &mut buf).expect("must not fail");
    assert!(h.is_none());
    assert_eq!(buf.len(), 0);
}

#[test]
fn short_stream_not_present() {
    let mut rx = ChunkedSource::new(b"hi".to_vec(), usize::MAX);
    let mut buf = BytesMut::new();
    let h = Header::read_prefaced(&mut rx, &mut buf).expect("must not fail");
    assert!(h.is_none());
    assert_eq!(buf.as_ref(), b"hi");
}

#[test]
fn oversized_length_rejected() {
    let mut data = b"proxy.l5d.io/connect\r\n\r\n".to_vec();
    data.extend_from_slice(&[0xff, 0xff, 0xff, 0xff]);
    let mut rx = ChunkedSource::new(data, usize::MAX);
    let mut buf = BytesMut::new();
    let r = Header::read_prefaced(&mut rx, &mut buf);
    assert!(matches!(r, Err(DetectError::Oversized)));
}

#[test]
fn truncated_after_preface_is_fatal() {
    let mut data = b"proxy.l5d.io/connect\r\n\r\n".to_vec();
    data.extend_from_slice(&[0x00, 0x00, 0x00, 0x0a]);
    data.extend_from_slice(&[0x08, 0xc8, 0x1f]);
    let mut rx = ChunkedSource::new(data, usize::MAX);
    let mut buf = BytesMut::new();
    let r = Header::read_prefaced(&mut rx, &mut buf);
    assert!(matches!(r, Err(DetectError::Truncated)));
}

#[test]
fn malformed_payload_is_fatal() {
    let mut data = b"proxy.l5d.io/connect\r\n\r\n".to_vec();
    data.extend_from_slice(&[0x00, 0x00, 0x00, 0x01]);
    data.push(0x80);
    let mut rx = ChunkedSource::new(data, usize::MAX);
    let mut buf = BytesMut::new();
    let r = Header::read_prefaced(&mut rx, &mut buf);
    assert!(matches!(r, Err(DetectError::Malformed)));
}

#[test]
fn invalid_name_is_fatal() {
    let payload = [0x12, 0x04, b'a', b'.', b'.', b'b'];
    let mut data = b"proxy.l5d.io/connect\r\n\r\n".to_vec();
    data.extend_from_slice(&[0x00, 0x00, 0x00, payload.len() as u8]);
    data.extend_from_slice(&payload);
    let mut rx = ChunkedSource::new(data, usize::MAX);
    let mut buf = BytesMut::new();
    let r = Header::read_prefaced(&mut rx, &mut buf);
    assert!(matches!(r, Err(DetectError::InvalidName)));
}
