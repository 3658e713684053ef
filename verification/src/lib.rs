//! Detection and framing of an optional connection header at the start of a
//! byte stream.
//!
//! A client may prepend a fixed preface, a big-endian length, and a small
//! schema-encoded message (destination port and optional logical name) to a
//! connection. The detector accumulates bytes from a transport until it can
//! decide whether the preface is present; on a match it reads and decodes
//! the framed header and leaves any trailing bytes in the caller's buffer;
//! on a mismatch it leaves every byte it read in the buffer, untouched, for
//! the next protocol detector.

use vstd::prelude::*;
use vstd::slice::slice_subrange;
use bytes::BytesMut;

pub mod buffer;
pub mod codec;
pub mod frame;
pub mod laws;
pub mod name;

use crate::buffer::{bm_advance, bm_capacity, bm_reserve, bm_slice, bytes_view, ReadInto};
use crate::codec::{
    decode_spec,
    lemma_payload_len,
    parse_payload_exec,
    payload_bytes,
    push_varint,
    DecodeOutcome,
    NAME_KEY,
    PORT_KEY,
};
use crate::frame::{
    be32_vec,
    detect_post,
    detect_resolution,
    fill,
    frame_bytes,
    preface_matches,
    preface_vec,
    read_be32,
    PREFACE_LEN,
};
use crate::name::Name;

verus! {

/// Decoded connection metadata.
#[derive(Clone, Debug)]
pub struct Header {
    /// The target port.
    pub port: u16,
    /// The logical name of the target (service), if one is known.
    pub name: Option<Name>,
}

/// Why detection failed the connection, or why the transport did.
#[derive(Clone, Copy, Debug)]
pub enum DetectError {
    /// The declared frame length exceeds the allowed capacity bound.
    Oversized,
    /// The stream ended mid-frame after the preface matched.
    Truncated,
    /// The framed payload is not an encoding of the schema.
    Malformed,
    /// The framed payload carries an invalid logical name.
    InvalidName,
    /// The transport reported a fault.
    ReadFailed,
}

/// Encoding failed because the payload length cannot be represented in the
/// frame's 32-bit length field.
#[derive(Clone, Copy, Debug)]
pub struct EncodeError;

impl Header {
    /// The name as a byte sequence, if one is present.
    pub open spec fn name_view(&self) -> Option<Seq<u8>> {
        match self.name {
            Some(n) => Some(n@),
            None => None,
        }
    }

    /// Any name present is a valid name; `Name::parse` is its only source.
    pub open spec fn wf(&self) -> bool {
        self.name matches Some(n) ==> n.wf()
    }

    /// Appends the encoded payload for this header to `buf`. Never fails
    /// for a well-formed header.
    pub fn encode(&self, buf: &mut BytesMut) -> (r: Result<(), EncodeError>)
        requires
            self.wf(),
        ensures
            r is Ok,
            bytes_view(*final(buf)) == bytes_view(*old(buf)) + payload_bytes(
                self.port,
                self.name_view(),
            ),
    {
        let payload = self.encode_payload();
        crate::buffer::bm_put(buf, payload.as_slice());
        Ok(())
    }

    /// Appends the complete frame — preface, big-endian payload length,
    /// payload — to `buf` in one pass. Fails only if the payload length
    /// cannot be represented in the length field, which a well-formed
    /// header never reaches.
    pub fn encode_prefaced(&self, buf: &mut BytesMut) -> (r: Result<(), EncodeError>)
        requires
            self.wf(),
        ensures
            r is Ok,
            bytes_view(*final(buf)) == bytes_view(*old(buf)) + frame_bytes(
                self.port,
                self.name_view(),
            ),
    {
        let payload = self.encode_payload();
        proof {
            lemma_payload_len(self.port, self.name_view());
        }
        if payload.len() as u64 > 0xffffffffu64 {
            return Err(EncodeError);
        }
        let pv = preface_vec();
        crate::buffer::bm_put(buf, pv.as_slice());
        let lb = be32_vec(payload.len() as u32);
        crate::buffer::bm_put(buf, lb.as_slice());
        crate::buffer::bm_put(buf, payload.as_slice());
        proof {
            assert(bytes_view(*buf) =~= bytes_view(*old(buf)) + frame_bytes(
                self.port,
                self.name_view(),
            ));
        }
        Ok(())
    }

    /// The encoded payload: the port field when the port is non-zero, then
    /// the name field when a name is present.
    fn encode_payload(&self) -> (out: Vec<u8>)
        ensures
            out@ == payload_bytes(self.port, self.name_view()),
    {
        let mut out: Vec<u8> = Vec::new();
        if self.port != 0 {
            out.push(PORT_KEY);
            push_varint(&mut out, self.port as u64);
        }
        match &self.name {
            None => {},
            Some(n) => {
                out.push(NAME_KEY);
                push_varint(&mut out, n.len() as u64);
                let mut tail = vstd::slice::slice_to_vec(n.as_bytes());
                out.append(&mut tail);
            },
        }
        proof {
            assert(out@ =~= payload_bytes(self.port, self.name_view()));
        }
        out
    }

    /// Decodes a frame payload. A syntactically ill-formed payload is
    /// `Malformed`; a well-formed payload whose non-empty name fails
    /// validation is `InvalidName`; the raw port value is truncated to 16
    /// bits.
    pub fn decode(payload: &[u8]) -> (r: Result<Header, DetectError>)
        ensures
            match r {
                Ok(h) => decode_spec(payload@) matches DecodeOutcome::Hdr { port, name }
                    && h.port == port && h.name_view() == name && h.wf(),
                Err(DetectError::Malformed) => decode_spec(payload@) is Malformed,
                Err(DetectError::InvalidName) => decode_spec(payload@) is BadName,
                Err(_) => false,
            },
    {
        proof {
            assert(payload@.subrange(0, payload@.len() as int) =~= payload@);
        }
        match parse_payload_exec(payload, 0, payload.len()) {
            None => Err(DetectError::Malformed),
            Some(raw) => {
                let port = (raw.port_raw % 0x10000) as u16;
                if raw.name.len() == 0 {
                    proof {
                        assert(raw.name@ =~= Seq::<u8>::empty());
                    }
                    Ok(Header { port, name: None })
                } else {
                    match Name::parse(raw.name) {
                        Some(n) => Ok(Header { port, name: Some(n) }),
                        None => Err(DetectError::InvalidName),
                    }
                }
            },
        }
    }

    /// Attempts to detect and decode a connection header from a transport.
    ///
    /// Bytes are accumulated into `buf` until the preface decision can be
    /// made. If the preface is absent, or the stream ends before enough
    /// bytes arrive, `Ok(None)` is returned and every byte read stays in
    /// `buf`, unconsumed. If the preface matches, the framed header is read
    /// and decoded, exactly its frame is consumed from `buf`, and any
    /// trailing bytes remain; a frame whose declared length exceeds the
    /// buffer's capacity plus `PREFACE_LEN`, a stream that ends mid-frame,
    /// and a payload that does not decode are all fatal.
    pub fn read_prefaced<I: ReadInto>(io: &mut I, buf: &mut BytesMut) -> (r: Result<
        Option<Header>,
        DetectError,
    >)
        ensures
            detect_post(bytes_view(*old(buf)), bytes_view(*final(buf)), r),
    {
        let ghost pre = bytes_view(*old(buf));
        match fill(io, buf, PREFACE_LEN) {
            Err(_) => {
                proof {
                    let s = bytes_view(*buf);
                    lemma_extension_prefix(pre, s);
                    assert(detect_resolution(
                        pre,
                        s,
                        Err::<Option<Header>, DetectError>(DetectError::ReadFailed),
                        s,
                        false,
                        s.len(),
                    ));
                }
                return Err(DetectError::ReadFailed);
            },
            Ok(false) => {
                proof {
                    let s = bytes_view(*buf);
                    lemma_extension_prefix(pre, s);
                    assert(detect_resolution(
                        pre,
                        s,
                        Ok::<Option<Header>, DetectError>(None),
                        s,
                        true,
                        s.len(),
                    ));
                }
                return Ok(None);
            },
            Ok(true) => {},
        }
        let ghost s1 = bytes_view(*buf);
        let matched = preface_matches(bm_slice(buf));
        if !matched {
            proof {
                lemma_extension_prefix(pre, s1);
                assert(detect_resolution(
                    pre,
                    s1,
                    Ok::<Option<Header>, DetectError>(None),
                    s1,
                    false,
                    s1.len(),
                ));
            }
            return Ok(None);
        }
        let n_declared = read_be32(bm_slice(buf), 24);
        let cap = bm_capacity(buf);
        proof {
            lemma_extension_prefix(pre, s1);
        }
        if n_declared > PREFACE_LEN && n_declared - PREFACE_LEN > cap {
            proof {
                assert(detect_resolution(
                    pre,
                    s1,
                    Err::<Option<Header>, DetectError>(DetectError::Oversized),
                    s1,
                    false,
                    cap as nat,
                ));
            }
            return Err(DetectError::Oversized);
        }
        let target = PREFACE_LEN + n_declared;
        let have = bm_slice(buf).len();
        if target > have {
            bm_reserve(buf, target - have);
        }
        match fill(io, buf, target) {
            Err(_) => {
                proof {
                    let s = bytes_view(*buf);
                    lemma_extension_prefix(s1, s);
                    lemma_prefix_transitive(pre, s1, s);
                    lemma_resolved_prefix_stays(pre, s1, s);
                    assert(detect_resolution(
                        pre,
                        s,
                        Err::<Option<Header>, DetectError>(DetectError::ReadFailed),
                        s,
                        false,
                        cap as nat,
                    ));
                }
                return Err(DetectError::ReadFailed);
            },
            Ok(false) => {
                proof {
                    let s = bytes_view(*buf);
                    lemma_extension_prefix(s1, s);
                    lemma_prefix_transitive(pre, s1, s);
                    lemma_resolved_prefix_stays(pre, s1, s);
                    lemma_frame_fields_stable(s1, s);
                    assert(detect_resolution(
                        pre,
                        s,
                        Err::<Option<Header>, DetectError>(DetectError::Truncated),
                        s,
                        true,
                        cap as nat,
                    ));
                }
                return Err(DetectError::Truncated);
            },
            Ok(true) => {},
        }
        let ghost s2 = bytes_view(*buf);
        proof {
            lemma_extension_prefix(s1, s2);
            lemma_prefix_transitive(pre, s1, s2);
            lemma_resolved_prefix_stays(pre, s1, s2);
            lemma_frame_fields_stable(s1, s2);
        }
        let sl = bm_slice(buf);
        let payload = slice_subrange(sl, PREFACE_LEN, target);
        let decoded = Header::decode(payload);
        match decoded {
            Ok(h) => {
                bm_advance(buf, target);
                proof {
                    assert(detect_resolution(
                        pre,
                        bytes_view(*buf),
                        Ok::<Option<Header>, DetectError>(Some(h)),
                        s2,
                        false,
                        cap as nat,
                    ));
                }
                Ok(Some(h))
            },
            Err(e) => {
                proof {
                    assert(detect_resolution(
                        pre,
                        s2,
                        Err::<Option<Header>, DetectError>(e),
                        s2,
                        false,
                        cap as nat,
                    ));
                }
                Err(e)
            },
        }
    }
}

/// A sequence that arose by appending to `pre` has `pre` as a prefix.
proof fn lemma_extension_prefix(pre: Seq<u8>, s: Seq<u8>)
    requires
        exists|app: Seq<u8>| s == pre + app,
    ensures
        pre.is_prefix_of(s),
{
    let app = choose|app: Seq<u8>| s == pre + app;
    assert(pre =~= s.subrange(0, pre.len() as int));
}

proof fn lemma_prefix_transitive(a: Seq<u8>, b: Seq<u8>, c: Seq<u8>)
    requires
        a.is_prefix_of(b),
        b.is_prefix_of(c),
    ensures
        a.is_prefix_of(c),
{
    assert(a =~= c.subrange(0, a.len() as int));
}

/// Once the buffered bytes resolve detection in place, nothing more is
/// read, so a later snapshot is the same sequence.
proof fn lemma_resolved_prefix_stays(pre: Seq<u8>, s1: Seq<u8>, s2: Seq<u8>)
    requires
        pre.is_prefix_of(s1),
        s1.is_prefix_of(s2),
        crate::frame::resolves_in_place(pre) ==> s1 == pre,
        crate::frame::frame_complete(pre) ==> s2.len() <= pre.len(),
    ensures
        crate::frame::resolves_in_place(pre) && crate::frame::frame_complete(pre) ==> s2 == pre,
{
    if crate::frame::resolves_in_place(pre) && crate::frame::frame_complete(pre) {
        assert(s2 =~= pre);
    }
}

/// Extending a stream past the frame header changes neither the preface
/// region nor the length field.
proof fn lemma_frame_fields_stable(s1: Seq<u8>, s2: Seq<u8>)
    requires
        s1.is_prefix_of(s2),
        s1.len() >= 28,
    ensures
        s2.subrange(0, 24) == s1.subrange(0, 24),
        s2.subrange(24, 28) == s1.subrange(24, 28),
{
    assert(s2.subrange(0, 24) =~= s1.subrange(0, 24));
    assert(s2.subrange(24, 28) =~= s1.subrange(24, 28));
}

/// A stateless protocol detector for the connection header, usable as one
/// of several detectors tried in turn against a fresh connection.
#[derive(Clone, Debug)]
pub struct DetectHeader;

impl Default for DetectHeader {
    fn default() -> (r: DetectHeader)
        ensures
            r == DetectHeader,
    {
        DetectHeader
    }
}

impl DetectHeader {
    /// Detects a connection header on the stream, behaving exactly as
    /// `Header::read_prefaced`.
    pub fn detect<I: ReadInto>(&self, io: &mut I, buf: &mut BytesMut) -> (r: Result<
        Option<Header>,
        DetectError,
    >)
        ensures
            detect_post(bytes_view(*old(buf)), bytes_view(*final(buf)), r),
    {
        Header::read_prefaced(io, buf)
    }
}

} // verus!
