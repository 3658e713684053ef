//! Laws of the codec and the detector, stated over the same specification
//! functions the public contracts use.

use vstd::prelude::*;
use crate::codec::{
    decode_spec,
    lemma_payload_len,
    lemma_payload_roundtrip,
    payload_bytes,
    DecodeOutcome,
};
use crate::frame::{
    be32,
    be32_bytes,
    detect_post,
    detect_resolution,
    detect_spec,
    frame_bytes,
    frame_complete,
    lemma_be32_roundtrip,
    preface,
    resolves_in_place,
    Resolution,
};
use crate::name::is_valid_name;
use crate::{DetectError, Header};

verus! {

/// The frame of a header is its payload behind a 28-byte header whose
/// length field reads back as the payload's length and whose first 24
/// bytes are the preface.
pub proof fn lemma_frame_shape(port: u16, name: Option<Seq<u8>>)
    requires
        name matches Some(nm) ==> is_valid_name(nm),
    ensures
        frame_bytes(port, name).len() == 28 + payload_bytes(port, name).len(),
        frame_bytes(port, name).subrange(0, 24) == preface(),
        be32(frame_bytes(port, name).subrange(24, 28)) == payload_bytes(port, name).len(),
{
    let payload = payload_bytes(port, name);
    lemma_payload_len(port, name);
    lemma_be32_roundtrip(payload.len() as int);
    assert(frame_bytes(port, name).subrange(0, 24) =~= preface());
    assert(frame_bytes(port, name).subrange(24, 28) =~= be32_bytes(payload.len() as int));
}

/// Round-trip: stripping the frame header off an encoded header leaves
/// exactly the payload, and decoding that payload reproduces the port and
/// the name.
pub proof fn lemma_roundtrip(port: u16, name: Option<Seq<u8>>)
    requires
        name matches Some(nm) ==> is_valid_name(nm),
    ensures
        frame_bytes(port, name).subrange(28, frame_bytes(port, name).len() as int)
            == payload_bytes(port, name),
        decode_spec(payload_bytes(port, name)) == (DecodeOutcome::Hdr { port, name }),
{
    lemma_frame_shape(port, name);
    lemma_payload_roundtrip(port, name);
    assert(frame_bytes(port, name).subrange(28, frame_bytes(port, name).len() as int)
        =~= payload_bytes(port, name));
}

/// Trailing-byte preservation: run detection over a buffer holding an
/// encoded header followed by arbitrary trailing bytes `t`. Whatever the
/// transport, the result is the decoded header and the buffer afterwards
/// holds exactly `t`, byte for byte, in order.
pub proof fn lemma_trailing_preserved(
    port: u16,
    name: Option<Seq<u8>>,
    t: Seq<u8>,
    post: Seq<u8>,
    r: Result<Option<Header>, DetectError>,
)
    requires
        name matches Some(nm) ==> is_valid_name(nm),
        detect_post(frame_bytes(port, name) + t, post, r),
    ensures
        r matches Ok(Some(h)) && h.port == port && h.name_view() == name,
        post == t,
{
    let frame = frame_bytes(port, name);
    let payload = payload_bytes(port, name);
    let pre = frame + t;
    lemma_frame_shape(port, name);
    lemma_payload_roundtrip(port, name);
    assert(pre.subrange(0, 24) =~= frame.subrange(0, 24));
    assert(pre.subrange(24, 28) =~= frame.subrange(24, 28));
    let n = be32(pre.subrange(24, 28));
    assert(n == payload.len());
    assert(frame_complete(pre));
    let (s, eof, cap): (Seq<u8>, bool, nat) = choose|s: Seq<u8>, eof: bool, cap: nat|
        detect_resolution(pre, post, r, s, eof, cap);
    assert(s == pre && cap >= pre.len());
    assert(pre.subrange(28, 28 + n) =~= payload);
    assert(detect_spec(s, eof, cap) == (Resolution::Accepted {
        port,
        name,
        consumed: 28 + n,
    }));
    assert(pre.skip(28 + n) =~= t);
}

/// Fragmentation independence: two deliveries of the same stream that each
/// already contain the complete frame resolve identically, whatever the
/// chunking that produced them, the end-of-stream timing, or the capacity
/// bound, provided neither bound rejects the declared length.
pub proof fn lemma_fragmentation_independent(
    s1: Seq<u8>,
    s2: Seq<u8>,
    eof1: bool,
    eof2: bool,
    cap1: nat,
    cap2: nat,
)
    requires
        s1.is_prefix_of(s2),
        frame_complete(s1),
        be32(s1.subrange(24, 28)) <= cap1 + 28,
        be32(s1.subrange(24, 28)) <= cap2 + 28,
    ensures
        detect_spec(s1, eof1, cap1) == detect_spec(s2, eof2, cap2),
        detect_spec(s1, eof1, cap1) is Accepted || detect_spec(s1, eof1, cap1) is Malformed
            || detect_spec(s1, eof1, cap1) is BadName,
{
    assert(s2.subrange(0, 24) =~= s1.subrange(0, 24));
    assert(s2.subrange(24, 28) =~= s1.subrange(24, 28));
    let n = be32(s1.subrange(24, 28));
    assert(s2.subrange(28, 28 + n) =~= s1.subrange(28, 28 + n));
}

/// A non-matching preface leaves the buffer untouched: detection reports
/// "not present" and the buffer afterwards holds exactly the original
/// bytes, unconsumed.
pub proof fn lemma_nonmatching_preface(
    pre: Seq<u8>,
    post: Seq<u8>,
    r: Result<Option<Header>, DetectError>,
)
    requires
        pre.len() >= 28,
        pre.subrange(0, 24) != preface(),
        detect_post(pre, post, r),
    ensures
        r matches Ok(None),
        post == pre,
{
    let (s, eof, cap): (Seq<u8>, bool, nat) = choose|s: Seq<u8>, eof: bool, cap: nat|
        detect_resolution(pre, post, r, s, eof, cap);
    assert(resolves_in_place(pre));
    assert(s == pre);
    assert(detect_spec(s, eof, cap) is NotPresent);
}

/// An oversized declared length is rejected: once the preface matches, a
/// length field above the capacity bound resolves to `Oversized` — the
/// payload is never awaited.
pub proof fn lemma_oversized_rejected(s: Seq<u8>, eof: bool, cap: nat)
    requires
        s.len() >= 28,
        s.subrange(0, 24) == preface(),
        be32(s.subrange(24, 28)) > cap + 28,
    ensures
        detect_spec(s, eof, cap) is Oversized,
{
}

/// A truncated stream after a preface match is fatal: when end-of-stream
/// arrives before the declared payload is complete, detection resolves to
/// `Truncated`, never to "not present".
pub proof fn lemma_truncated_fatal(s: Seq<u8>, cap: nat)
    requires
        s.len() >= 28,
        s.subrange(0, 24) == preface(),
        be32(s.subrange(24, 28)) <= cap + 28,
        s.len() < 28 + be32(s.subrange(24, 28)),
    ensures
        detect_spec(s, true, cap) is Truncated,
{
}

} // verus!
