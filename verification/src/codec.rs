//! The schema codec for the header payload.
//!
//! The payload is a two-field binary message: field 1 (key byte `0x08`) is
//! the port as a base-128 varint, omitted when zero; field 2 (key byte
//! `0x12`) is the name as a length-delimited byte string, omitted when
//! empty. Fields appear in that order. Decoding accepts exactly the
//! canonically ordered encodings of the schema and rejects anything else as
//! malformed; the port varint is truncated to the low 16 bits, matching the
//! wire schema's signed 32-bit field narrowed to an unsigned 16-bit port.

use vstd::prelude::*;
use vstd::arithmetic::div_mod::lemma_fundamental_div_mod;
use vstd::slice::slice_to_vec;
use crate::name::is_valid_name;

verus! {

pub const PORT_KEY: u8 = 0x08;

pub const NAME_KEY: u8 = 0x12;

/// The base-128 varint encoding of `v`: seven bits per byte, least
/// significant group first, the high bit set on every byte but the last.
pub open spec fn varint_bytes(v: nat) -> Seq<u8>
    decreases v,
{
    if v < 128 {
        seq![v as u8]
    } else {
        seq![(v % 128 + 128) as u8] + varint_bytes(v / 128)
    }
}

/// Parses a varint from the front of `s`, returning its value and the rest.
pub open spec fn parse_varint(s: Seq<u8>) -> Option<(u64, Seq<u8>)>
    decreases s.len(),
{
    if s.len() == 0 {
        None
    } else {
        let b = s[0];
        if b < 128 {
            Some((b as u64, s.skip(1)))
        } else {
            match parse_varint(s.skip(1)) {
                None => None,
                Some((v, rest)) => {
                    let value = (v as int) * 128 + (b - 128);
                    if value <= u64::MAX {
                        Some((value as u64, rest))
                    } else {
                        None
                    }
                },
            }
        }
    }
}

/// The port field: omitted when the port is zero.
pub open spec fn port_field_bytes(port: u16) -> Seq<u8> {
    if port == 0 {
        Seq::empty()
    } else {
        seq![PORT_KEY] + varint_bytes(port as nat)
    }
}

/// The name field: omitted when there is no name.
pub open spec fn name_field_bytes(name: Option<Seq<u8>>) -> Seq<u8> {
    match name {
        None => Seq::empty(),
        Some(nm) => seq![NAME_KEY] + varint_bytes(nm.len() as nat) + nm,
    }
}

/// The encoded payload for a port and an optional name.
pub open spec fn payload_bytes(port: u16, name: Option<Seq<u8>>) -> Seq<u8> {
    port_field_bytes(port) + name_field_bytes(name)
}

/// Parses the optional port field; yields the raw varint value and the rest.
pub open spec fn parse_port_part(s: Seq<u8>) -> Option<(u64, Seq<u8>)> {
    if s.len() > 0 && s[0] == PORT_KEY {
        parse_varint(s.skip(1))
    } else {
        Some((0u64, s))
    }
}

/// Parses the optional name field, which must exhaust the payload.
pub open spec fn parse_name_part(s: Seq<u8>) -> Option<Seq<u8>> {
    if s.len() == 0 {
        Some(Seq::empty())
    } else if s[0] == NAME_KEY {
        match parse_varint(s.skip(1)) {
            None => None,
            Some((n, rest)) => if rest.len() == n {
                Some(rest)
            } else {
                None
            },
        }
    } else {
        None
    }
}

/// Parses a whole payload into the raw port value and the name bytes.
pub open spec fn parse_payload(s: Seq<u8>) -> Option<(u64, Seq<u8>)> {
    match parse_port_part(s) {
        None => None,
        Some((port, s1)) => match parse_name_part(s1) {
            None => None,
            Some(nm) => Some((port, nm)),
        },
    }
}

/// What decoding a payload yields.
pub enum DecodeOutcome {
    /// A well-formed payload with a valid (or absent) name.
    Hdr { port: u16, name: Option<Seq<u8>> },
    /// The bytes are not an encoding of the schema.
    Malformed,
    /// The payload is well-formed but its name is not a valid name.
    BadName,
}

/// Decoding: parse the payload, truncate the raw port to 16 bits, and
/// validate a non-empty name.
pub open spec fn decode_spec(s: Seq<u8>) -> DecodeOutcome {
    match parse_payload(s) {
        None => DecodeOutcome::Malformed,
        Some((p, nm)) => {
            let port = (p % 0x10000) as u16;
            if nm.len() == 0 {
                DecodeOutcome::Hdr { port, name: None }
            } else if is_valid_name(nm) {
                DecodeOutcome::Hdr { port, name: Some(nm) }
            } else {
                DecodeOutcome::BadName
            }
        },
    }
}

/// A varint is at least one byte, and small values stay short.
pub proof fn lemma_varint_len(v: nat)
    ensures
        1 <= varint_bytes(v).len(),
        v < 128 ==> varint_bytes(v).len() == 1,
        v < 16384 ==> varint_bytes(v).len() <= 2,
        v < 2097152 ==> varint_bytes(v).len() <= 3,
    decreases v,
{
    if v >= 128 {
        lemma_varint_len(v / 128);
    }
}

/// Parsing undoes encoding: a varint followed by anything parses back to
/// the value and the trailing bytes.
pub proof fn lemma_varint_roundtrip(v: nat, rest: Seq<u8>)
    requires
        v <= u64::MAX,
    ensures
        parse_varint(varint_bytes(v) + rest) == Some((v as u64, rest)),
    decreases v,
{
    let s = varint_bytes(v) + rest;
    if v < 128 {
        assert(s[0] == v as u8);
        assert(s.skip(1) =~= rest);
    } else {
        let b = (v % 128 + 128) as u8;
        assert(s[0] == b);
        assert(b >= 128);
        assert(s.skip(1) =~= varint_bytes(v / 128) + rest);
        lemma_varint_roundtrip(v / 128, rest);
        lemma_fundamental_div_mod(v as int, 128);
        assert((v / 128) as int * 128 + (b - 128) == v as int);
    }
}

/// The payload is never longer than the name plus a small fixed overhead.
pub proof fn lemma_payload_len(port: u16, name: Option<Seq<u8>>)
    requires
        name matches Some(nm) ==> nm.len() <= 253,
    ensures
        payload_bytes(port, name).len() <= 7 + match name {
            None => 0int,
            Some(nm) => nm.len() as int,
        },
{
    lemma_varint_len(port as nat);
    match name {
        None => {},
        Some(nm) => {
            lemma_varint_len(nm.len() as nat);
        },
    }
}

/// Decoding undoes encoding, for any port and any valid (or absent) name.
pub proof fn lemma_payload_roundtrip(port: u16, name: Option<Seq<u8>>)
    requires
        name matches Some(nm) ==> is_valid_name(nm),
    ensures
        decode_spec(payload_bytes(port, name)) == (DecodeOutcome::Hdr { port, name }),
{
    let s = payload_bytes(port, name);
    let nf = name_field_bytes(name);
    if port == 0 {
        assert(s =~= nf);
        lemma_name_part_roundtrip(name);
        match name {
            None => {},
            Some(nm) => {
                assert(s[0] == NAME_KEY);
            },
        }
    } else {
        assert(s[0] == PORT_KEY);
        assert(s.skip(1) =~= varint_bytes(port as nat) + nf);
        lemma_varint_roundtrip(port as nat, nf);
        lemma_name_part_roundtrip(name);
    }
    assert(port as int % 0x10000 == port as int) by {
        assert(port < 0x10000);
    }
}

/// The name field alone parses back to the name bytes.
proof fn lemma_name_part_roundtrip(name: Option<Seq<u8>>)
    requires
        name matches Some(nm) ==> is_valid_name(nm),
    ensures
        parse_name_part(name_field_bytes(name)) == Some(
            match name {
                None => Seq::<u8>::empty(),
                Some(nm) => nm,
            },
        ),
{
    match name {
        None => {},
        Some(nm) => {
            let f = name_field_bytes(name);
            assert(f[0] == NAME_KEY);
            assert(f.skip(1) =~= varint_bytes(nm.len() as nat) + nm);
            lemma_varint_roundtrip(nm.len() as nat, nm);
        },
    }
}

/// Parses a varint from `s` at index `i`, stopping at `hi`; returns the
/// value and the index just past the varint.
pub fn parse_varint_at(s: &[u8], i: usize, hi: usize) -> (r: Option<(u64, usize)>)
    requires
        i <= hi <= s@.len(),
    ensures
        r is None ==> parse_varint(s@.subrange(i as int, hi as int)) is None,
        r matches Some((v, j)) ==> i < j <= hi && parse_varint(
            s@.subrange(i as int, hi as int),
        ) == Some((v, s@.subrange(j as int, hi as int))),
    decreases hi - i,
{
    let ghost whole = s@.subrange(i as int, hi as int);
    if i >= hi {
        return None;
    }
    let b = s[i];
    proof {
        assert(whole[0] == b);
        assert(whole.skip(1) =~= s@.subrange(i + 1, hi as int));
    }
    if b < 128 {
        Some((b as u64, i + 1))
    } else {
        match parse_varint_at(s, i + 1, hi) {
            None => None,
            Some((v, j)) => {
                let low = (b - 128) as u64;
                if v <= (u64::MAX - low) / 128 {
                    Some((v * 128 + low, j))
                } else {
                    None
                }
            },
        }
    }
}

/// What exec decoding found: the raw port value and where the name starts.
pub struct RawPayload {
    pub port_raw: u64,
    pub name: Vec<u8>,
}

/// Parses the payload in `s[lo..hi]`; `None` means it is malformed.
pub fn parse_payload_exec(s: &[u8], lo: usize, hi: usize) -> (r: Option<RawPayload>)
    requires
        lo <= hi <= s@.len(),
    ensures
        r is None ==> parse_payload(s@.subrange(lo as int, hi as int)) is None,
        r matches Some(raw) ==> parse_payload(s@.subrange(lo as int, hi as int)) == Some(
            (raw.port_raw, raw.name@),
        ),
{
    let ghost whole = s@.subrange(lo as int, hi as int);
    let (port_raw, k): (u64, usize) = if lo < hi && s[lo] == PORT_KEY {
        proof {
            assert(whole[0] == PORT_KEY);
            assert(whole.skip(1) =~= s@.subrange(lo + 1, hi as int));
        }
        match parse_varint_at(s, lo + 1, hi) {
            None => {
                return None;
            },
            Some((v, j)) => (v, j),
        }
    } else {
        proof {
            if whole.len() > 0 {
                assert(whole[0] == s@[lo as int]);
            }
        }
        (0u64, lo)
    };
    let ghost s1 = s@.subrange(k as int, hi as int);
    proof {
        assert(parse_port_part(whole) == Some((port_raw, s1)));
    }
    if k == hi {
        proof {
            assert(s1 =~= Seq::<u8>::empty());
        }
        return Some(RawPayload { port_raw, name: Vec::new() });
    }
    if s[k] != NAME_KEY {
        proof {
            assert(s1[0] == s@[k as int]);
        }
        return None;
    }
    proof {
        assert(s1[0] == NAME_KEY);
        assert(s1.skip(1) =~= s@.subrange(k + 1, hi as int));
    }
    match parse_varint_at(s, k + 1, hi) {
        None => None,
        Some((n, t)) => {
            let ghost rest = s@.subrange(t as int, hi as int);
            if n == (hi - t) as u64 {
                let name = slice_to_vec(vstd::slice::slice_subrange(s, t, hi));
                Some(RawPayload { port_raw, name })
            } else {
                proof {
                    assert(rest.len() != n);
                }
                None
            }
        },
    }
}

/// Appends the varint encoding of `v` to `out`.
pub fn push_varint(out: &mut Vec<u8>, v: u64)
    ensures
        final(out)@ == old(out)@ + varint_bytes(v as nat),
    decreases v,
{
    if v < 128 {
        out.push(v as u8);
        proof {
            assert(out@ =~= old(out)@ + varint_bytes(v as nat));
        }
    } else {
        out.push((v % 128 + 128) as u8);
        push_varint(out, v / 128);
        proof {
            assert(out@ =~= old(out)@ + varint_bytes(v as nat));
        }
    }
}

} // verus!
