//! The on-wire frame and the detection state machine's specification.
//!
//! A frame is the 24-byte preface, a 4-byte big-endian payload length, and
//! the encoded payload. `detect_spec` is the decision function of detection:
//! given everything the transport has delivered so far, whether end-of-stream
//! has been seen, and the capacity bound in force, it says what detection
//! resolves to. `detect_post` is the contract of a full detection run.

use vstd::prelude::*;
use vstd::arithmetic::div_mod::{
    lemma_div_denominator,
    lemma_fundamental_div_mod,
    lemma_mod_bound,
    lemma_small_mod,
};
use bytes::BytesMut;
use crate::buffer::{bytes_view, bm_slice, ReadInto};
use crate::codec::{decode_spec, payload_bytes, DecodeOutcome};
use crate::{DetectError, Header};

verus! {

/// The number of bytes that must be buffered before any framing decision
/// can be made: the preface plus the 4-byte length field.
pub const PREFACE_LEN: usize = 28;

/// The fixed magic preface, the ASCII bytes of `proxy.l5d.io/connect`
/// followed by two CRLF pairs.
pub open spec fn preface() -> Seq<u8> {
    seq![
        0x70u8,
        0x72,
        0x6f,
        0x78,
        0x79,
        0x2e,
        0x6c,
        0x35,
        0x64,
        0x2e,
        0x69,
        0x6f,
        0x2f,
        0x63,
        0x6f,
        0x6e,
        0x6e,
        0x65,
        0x63,
        0x74,
        0x0d,
        0x0a,
        0x0d,
        0x0a,
    ]
}

/// The preface as a vector.
pub fn preface_vec() -> (r: Vec<u8>)
    ensures
        r@ == preface(),
        r@.len() == 24,
{
    let mut v: Vec<u8> = Vec::new();
    v.push(0x70);
    v.push(0x72);
    v.push(0x6f);
    v.push(0x78);
    v.push(0x79);
    v.push(0x2e);
    v.push(0x6c);
    v.push(0x35);
    v.push(0x64);
    v.push(0x2e);
    v.push(0x69);
    v.push(0x6f);
    v.push(0x2f);
    v.push(0x63);
    v.push(0x6f);
    v.push(0x6e);
    v.push(0x6e);
    v.push(0x65);
    v.push(0x63);
    v.push(0x74);
    v.push(0x0d);
    v.push(0x0a);
    v.push(0x0d);
    v.push(0x0a);
    proof {
        assert(v@ =~= preface());
    }
    v
}

/// Whether the first 24 bytes of `s` are the preface.
pub fn preface_matches(s: &[u8]) -> (r: bool)
    requires
        s@.len() >= 24,
    ensures
        r == (s@.subrange(0, 24) == preface()),
{
    let p = preface_vec();
    let mut i: usize = 0;
    while i < 24
        invariant
            0 <= i <= 24,
            s@.len() >= 24,
            p@ == preface(),
            p@.len() == 24,
            forall|j: int| 0 <= j < i ==> s@[j] == preface()[j],
        decreases 24 - i,
    {
        if s[i] != p[i] {
            proof {
                assert(s@.subrange(0, 24)[i as int] == s@[i as int]);
            }
            return false;
        }
        i += 1;
    }
    proof {
        assert(s@.subrange(0, 24) =~= preface());
    }
    true
}

/// The value of four bytes read as a big-endian 32-bit integer.
pub open spec fn be32(s: Seq<u8>) -> int {
    (s[0] as int) * 0x1000000 + (s[1] as int) * 0x10000 + (s[2] as int) * 0x100 + (s[3] as int)
}

/// The four big-endian bytes of a 32-bit value.
pub open spec fn be32_bytes(n: int) -> Seq<u8> {
    seq![
        ((n / 0x1000000) % 0x100) as u8,
        ((n / 0x10000) % 0x100) as u8,
        ((n / 0x100) % 0x100) as u8,
        (n % 0x100) as u8,
    ]
}

/// Reading back the four bytes of a 32-bit value gives the value.
pub proof fn lemma_be32_roundtrip(n: int)
    requires
        0 <= n < 0x100000000,
    ensures
        be32(be32_bytes(n)) == n,
{
    lemma_fundamental_div_mod(n, 0x100);
    lemma_mod_bound(n, 0x100);
    lemma_fundamental_div_mod(n / 0x100, 0x100);
    lemma_mod_bound(n / 0x100, 0x100);
    lemma_div_denominator(n, 0x100, 0x100);
    lemma_fundamental_div_mod(n / 0x10000, 0x100);
    lemma_mod_bound(n / 0x10000, 0x100);
    lemma_div_denominator(n, 0x10000, 0x100);
    lemma_fundamental_div_mod(n, 0x1000000);
    lemma_mod_bound(n, 0x1000000);
    assert(n / 0x1000000 < 0x100);
    lemma_small_mod((n / 0x1000000) as nat, 0x100);
}

/// The big-endian value in `s` at offset `at`.
pub fn read_be32(s: &[u8], at: usize) -> (r: usize)
    requires
        at + 4 <= s@.len(),
    ensures
        r == be32(s@.subrange(at as int, at + 4)),
        r < 0x100000000,
{
    let b0 = s[at] as usize;
    let b1 = s[at + 1] as usize;
    let b2 = s[at + 2] as usize;
    let b3 = s[at + 3] as usize;
    proof {
        let w = s@.subrange(at as int, at + 4);
        assert(w[0] == s@[at as int]);
        assert(w[1] == s@[at + 1]);
        assert(w[2] == s@[at + 2]);
        assert(w[3] == s@[at + 3]);
    }
    b0 * 0x1000000 + b1 * 0x10000 + b2 * 0x100 + b3
}

/// The four big-endian bytes of `n` as a vector.
pub fn be32_vec(n: u32) -> (r: Vec<u8>)
    ensures
        r@ == be32_bytes(n as int),
        r@.len() == 4,
{
    proof {
        assert(n >> 24 == (n / 0x1000000) % 0x100) by (bit_vector);
        assert((n >> 16) & 0xff == (n / 0x10000) % 0x100) by (bit_vector);
        assert((n >> 8) & 0xff == (n / 0x100) % 0x100) by (bit_vector);
        assert(n & 0xff == n % 0x100) by (bit_vector);
        assert(n >> 24 < 0x100) by (bit_vector);
        assert((n >> 16) & 0xff < 0x100) by (bit_vector);
        assert((n >> 8) & 0xff < 0x100) by (bit_vector);
        assert(n & 0xff < 0x100) by (bit_vector);
    }
    let mut v: Vec<u8> = Vec::new();
    v.push((n >> 24) as u8);
    v.push(((n >> 16) & 0xff) as u8);
    v.push(((n >> 8) & 0xff) as u8);
    v.push((n & 0xff) as u8);
    proof {
        assert(v@ =~= be32_bytes(n as int));
    }
    v
}

/// The complete on-wire frame for a port and an optional name.
pub open spec fn frame_bytes(port: u16, name: Option<Seq<u8>>) -> Seq<u8> {
    preface() + be32_bytes(payload_bytes(port, name).len() as int) + payload_bytes(port, name)
}

/// What detection resolves to, as a function of everything the transport
/// has delivered (`s`), whether end-of-stream was seen (`eof`), and the
/// capacity bound in force (`cap`).
pub enum Resolution {
    /// More bytes are needed before anything can be decided.
    NeedMore,
    /// The stream carries no connection header; nothing is consumed.
    NotPresent,
    /// A complete frame was recognized and decoded; `consumed` bytes of the
    /// stream belong to the frame.
    Accepted { port: u16, name: Option<Seq<u8>>, consumed: int },
    /// The declared frame length exceeds the capacity bound.
    Oversized,
    /// The stream ended mid-frame after the preface matched.
    Truncated,
    /// The framed payload is not an encoding of the schema.
    Malformed,
    /// The framed payload carries an invalid name.
    BadName,
}

/// The decision function of the detection state machine.
pub open spec fn detect_spec(s: Seq<u8>, eof: bool, cap: nat) -> Resolution {
    if s.len() < 28 {
        if eof {
            Resolution::NotPresent
        } else {
            Resolution::NeedMore
        }
    } else if s.subrange(0, 24) != preface() {
        Resolution::NotPresent
    } else {
        let n = be32(s.subrange(24, 28));
        if n > cap + 28 {
            Resolution::Oversized
        } else if s.len() < 28 + n {
            if eof {
                Resolution::Truncated
            } else {
                Resolution::NeedMore
            }
        } else {
            match decode_spec(s.subrange(28, 28 + n)) {
                DecodeOutcome::Hdr { port, name } => Resolution::Accepted {
                    port,
                    name,
                    consumed: 28 + n,
                },
                DecodeOutcome::Malformed => Resolution::Malformed,
                DecodeOutcome::BadName => Resolution::BadName,
            }
        }
    }
}

/// `s` begins with the preface and already holds its complete frame.
pub open spec fn frame_complete(s: Seq<u8>) -> bool {
    &&& s.len() >= 28
    &&& s.subrange(0, 24) == preface()
    &&& s.len() >= 28 + be32(s.subrange(24, 28))
}

/// Detection on such buffered bytes resolves without consulting the
/// transport at all.
pub open spec fn resolves_in_place(s: Seq<u8>) -> bool {
    s.len() >= 28 && (s.subrange(0, 24) != preface() || frame_complete(s))
}

/// One permitted resolution of a detection call over prior buffer contents
/// `pre`: `s` is everything the transport delivered (starting from `pre`),
/// `eof` whether end-of-stream was observed, `cap` the capacity bound that
/// was in force, `post` the buffer contents afterwards.
pub open spec fn detect_resolution(
    pre: Seq<u8>,
    post: Seq<u8>,
    r: Result<Option<Header>, DetectError>,
    s: Seq<u8>,
    eof: bool,
    cap: nat,
) -> bool {
    &&& pre.is_prefix_of(s)
    &&& (resolves_in_place(pre) ==> s == pre && cap >= pre.len() && !(r matches Err(
        DetectError::ReadFailed,
    )))
    &&& match r {
        Ok(Some(h)) => detect_spec(s, eof, cap) matches Resolution::Accepted {
            port,
            name,
            consumed,
        } && h.port == port && h.name_view() == name && post == s.skip(consumed),
        Ok(None) => detect_spec(s, eof, cap) is NotPresent && post == s,
        Err(DetectError::Oversized) => detect_spec(s, eof, cap) is Oversized && post == s,
        Err(DetectError::Truncated) => detect_spec(s, eof, cap) is Truncated && post == s,
        Err(DetectError::Malformed) => detect_spec(s, eof, cap) is Malformed && post == s,
        Err(DetectError::InvalidName) => detect_spec(s, eof, cap) is BadName && post == s,
        Err(DetectError::ReadFailed) => post == s,
    }
}

/// Everything a detection run promises about the buffer before (`pre`) and
/// after (`post`) and its result `r`.
pub open spec fn detect_post(
    pre: Seq<u8>,
    post: Seq<u8>,
    r: Result<Option<Header>, DetectError>,
) -> bool {
    exists|s: Seq<u8>, eof: bool, cap: nat| detect_resolution(pre, post, r, s, eof, cap)
}

/// The measure of the accumulation loop: how far the buffer still is from
/// the target length.
pub open spec fn fill_measure(have: nat, target: nat) -> int {
    if have < target {
        target - have
    } else {
        0
    }
}

/// Reads from the transport until the buffer holds at least `target` bytes
/// (`Ok(true)`), the stream ends first (`Ok(false)`), or the transport
/// faults. If the buffer is already long enough, the transport is never
/// consulted and the buffer is untouched.
pub fn fill<I: ReadInto>(io: &mut I, buf: &mut BytesMut, target: usize) -> (r: Result<
    bool,
    crate::buffer::ReadError,
>)
    ensures
        exists|app: Seq<u8>| bytes_view(*final(buf)) == bytes_view(*old(buf)) + app,
        r matches Ok(true) ==> bytes_view(*final(buf)).len() >= target,
        r matches Ok(false) ==> bytes_view(*final(buf)).len() < target,
        bytes_view(*old(buf)).len() >= target ==> r == Ok::<bool, crate::buffer::ReadError>(true)
            && bytes_view(*final(buf)) == bytes_view(*old(buf)),
{
    proof {
        assert(bytes_view(*buf) =~= bytes_view(*buf) + Seq::<u8>::empty());
    }
    loop
        invariant
            exists|app: Seq<u8>| bytes_view(*buf) == bytes_view(*old(buf)) + app,
            bytes_view(*old(buf)).len() >= target ==> bytes_view(*buf) == bytes_view(*old(buf)),
        decreases fill_measure(bytes_view(*buf).len(), target as nat),
    {
        let len = bm_slice(buf).len();
        if len >= target {
            return Ok(true);
        }
        proof {
            let app0 = choose|a: Seq<u8>| bytes_view(*buf) == bytes_view(*old(buf)) + a;
            assert(bytes_view(*old(buf)).len() <= bytes_view(*buf).len());
        }
        let ghost pre_read = bytes_view(*buf);
        match io.read_into(buf) {
            Err(e) => {
                return Err(e);
            },
            Ok(n) => {
                proof {
                    let app0 = choose|a: Seq<u8>| pre_read == bytes_view(*old(buf)) + a;
                    let ch = choose|c: Seq<u8>|
                        c.len() == n && bytes_view(*buf) == pre_read + c;
                    assert(bytes_view(*buf) =~= bytes_view(*old(buf)) + (app0 + ch));
                }
                if n == 0 {
                    return Ok(false);
                }
            },
        }
    }
}

} // verus!
