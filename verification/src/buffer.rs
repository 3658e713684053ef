//! The shared byte buffer and the transport interface.
//!
//! The buffer that connection-handling code threads through detection is
//! `bytes::BytesMut`. Verus treats it as an opaque outside type; the handful
//! of methods the detector needs are wrapped below, each with a contract
//! stated over `bytes_view`, the sequence of bytes the buffer currently holds.

use vstd::prelude::*;
use vstd::slice::slice_subrange;
use bytes::{Buf, BufMut, BytesMut};

verus! {

#[verifier::external_type_specification]
#[verifier::external_body]
pub struct ExBytesMut(BytesMut);

/// The bytes a `bytes::BytesMut` currently holds, front to back.
pub uninterp spec fn bytes_view(b: BytesMut) -> Seq<u8>;

/// Relies on `BytesMut`'s `AsRef<[u8]>`: the slice of all bytes held.
#[verifier::external_body]
pub fn bm_slice(b: &BytesMut) -> (r: &[u8])
    ensures
        r@ == bytes_view(*b),
{
    b.as_ref()
}

/// Relies on `BufMut::put_slice` for `BytesMut` (`extend_from_slice`):
/// appends the given bytes at the end, keeping what was there.
#[verifier::external_body]
pub fn bm_put(b: &mut BytesMut, s: &[u8])
    ensures
        bytes_view(*final(b)) == bytes_view(*old(b)) + s@,
{
    b.put_slice(s)
}

/// Relies on `Buf::advance` for `BytesMut`: discards `n` bytes from the
/// front. It panics when `n` exceeds the length, so that case is excluded.
#[verifier::external_body]
pub fn bm_advance(b: &mut BytesMut, n: usize)
    requires
        n <= bytes_view(*old(b)).len(),
    ensures
        bytes_view(*final(b)) == bytes_view(*old(b)).skip(n as int),
{
    b.advance(n)
}

/// Relies on `BytesMut::capacity`: it is at least the length, and a single
/// Rust allocation never exceeds `isize::MAX` bytes.
#[verifier::external_body]
pub fn bm_capacity(b: &BytesMut) -> (r: usize)
    ensures
        bytes_view(*b).len() <= r <= usize::MAX / 2,
{
    b.capacity()
}

/// Relies on `BytesMut::reserve`: grows the capacity; the bytes held stay
/// exactly as they were.
#[verifier::external_body]
pub fn bm_reserve(b: &mut BytesMut, additional: usize)
    ensures
        bytes_view(*final(b)) == bytes_view(*old(b)),
{
    b.reserve(additional)
}

/// A transport fault, reported without touching the buffer.
#[derive(Clone, Copy, Debug)]
pub struct ReadError;

/// A byte transport. Each call appends whatever bytes are currently
/// available to the caller's buffer and returns how many were appended;
/// zero signals end-of-stream. On a fault the buffer is left untouched.
pub trait ReadInto {
    fn read_into(&mut self, buf: &mut BytesMut) -> (r: Result<usize, ReadError>)
        ensures
            (match r {
                Ok(n) => exists|chunk: Seq<u8>|
                    chunk.len() == n && bytes_view(*final(buf)) == bytes_view(*old(buf)) + chunk,
                Err(_) => bytes_view(*final(buf)) == bytes_view(*old(buf)),
            }),
    ;
}

/// A transport over an in-memory byte sequence that delivers at most
/// `chunk` bytes per read, so arbitrarily fragmented streams can be driven.
pub struct ChunkedSource {
    data: Vec<u8>,
    pos: usize,
    chunk: usize,
}

impl ChunkedSource {
    /// The full byte sequence this source delivers.
    pub closed spec fn data_spec(&self) -> Seq<u8> {
        self.data@
    }

    /// How many bytes have been delivered so far.
    pub closed spec fn pos_spec(&self) -> int {
        self.pos as int
    }

    /// A source delivering `data` at most `chunk` bytes per read; a chunk
    /// of zero delivers nothing and so reads as an immediate end-of-stream.
    pub fn new(data: Vec<u8>, chunk: usize) -> (r: ChunkedSource)
        ensures
            r.data_spec() == data@,
            r.pos_spec() == 0,
    {
        ChunkedSource { data, pos: 0, chunk }
    }

    /// How many bytes are still undelivered.
    pub fn remaining(&self) -> (r: usize)
        ensures
            self.pos_spec() <= self.data_spec().len() ==> r == self.data_spec().len()
                - self.pos_spec(),
            self.pos_spec() > self.data_spec().len() ==> r == 0,
    {
        if self.pos >= self.data.len() {
            0
        } else {
            self.data.len() - self.pos
        }
    }
}

impl ReadInto for ChunkedSource {
    fn read_into(&mut self, buf: &mut BytesMut) -> (r: Result<usize, ReadError>) {
        if self.pos >= self.data.len() {
            proof {
                assert(bytes_view(*buf) + Seq::<u8>::empty() =~= bytes_view(*buf));
            }
            return Ok(0);
        }
        let avail = self.data.len() - self.pos;
        let n = if self.chunk < avail {
            self.chunk
        } else {
            avail
        };
        let end = self.pos + n;
        bm_put(buf, slice_subrange(self.data.as_slice(), self.pos, end));
        self.pos = end;
        Ok(n)
    }
}

} // verus!
