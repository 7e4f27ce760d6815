//! Byte chunks that an outbound queue can hold.

use std::collections::VecDeque;

use bytes::Buf;
use bytes::Bytes;
use vstd::prelude::*;

verus! {

/// A chunk of bytes whose front can be consumed or split off in place.
pub trait Chunk: Sized {
    /// The bytes that remain in the chunk.
    spec fn bytes_of(&self) -> Seq<u8>;

    fn remaining(&self) -> (r: usize)
        ensures
            r == self.bytes_of().len(),
    ;

    /// A first run of the bytes: not empty unless the chunk is.
    fn bytes(&self) -> (r: &[u8])
        ensures
            r@.len() <= self.bytes_of().len(),
            r@ == self.bytes_of().take(r@.len() as int),
            r@.len() == 0 <==> self.bytes_of().len() == 0,
    ;

    /// Drops the first `cnt` bytes.
    fn advance(&mut self, cnt: usize)
        requires
            cnt <= old(self).bytes_of().len(),
        ensures
            final(self).bytes_of() == old(self).bytes_of().skip(cnt as int),
    ;

    /// Removes the first `at` bytes and returns them as a chunk of their own.
    fn split_to(&mut self, at: usize) -> (r: Self)
        requires
            at <= old(self).bytes_of().len(),
        ensures
            r.bytes_of() == old(self).bytes_of().take(at as int),
            final(self).bytes_of() == old(self).bytes_of().skip(at as int),
    ;
}

/// Relies on `VecDeque::as_slices`: two slices that hold, in order, the
/// contents of the deque.
#[verifier::external_body]
fn deque_as_slices(d: &VecDeque<u8>) -> (r: (&[u8], &[u8]))
    ensures
        r.0@ + r.1@ == d@,
{
    d.as_slices()
}

impl Chunk for VecDeque<u8> {
    open spec fn bytes_of(&self) -> Seq<u8> {
        self@
    }

    fn remaining(&self) -> (r: usize) {
        self.len()
    }

    fn bytes(&self) -> (r: &[u8]) {
        let (front, back) = deque_as_slices(self);
        if front.len() == 0 {
            assert(back@ =~= self@);
            assert(back@ =~= self@.take(back@.len() as int));
            back
        } else {
            assert(front@ =~= self@.take(front@.len() as int));
            front
        }
    }

    fn advance(&mut self, cnt: usize) {
        let rest = self.split_off(cnt);
        *self = rest;
        assert(self@ =~= old(self)@.skip(cnt as int));
    }

    fn split_to(&mut self, at: usize) -> (r: Self) {
        let mut rest = self.split_off(at);
        std::mem::swap(self, &mut rest);
        assert(rest@ =~= old(self)@.take(at as int));
        assert(self@ =~= old(self)@.skip(at as int));
        rest
    }
}

#[verifier::external_type_specification]
#[verifier::external_body]
pub struct ExBytes(Bytes);

/// The bytes held by a `bytes::Bytes` buffer.
pub uninterp spec fn bytes_content(b: Bytes) -> Seq<u8>;

/// Relies on `bytes::Bytes::len`: the number of bytes held.
#[verifier::external_body]
fn bytes_len(b: &Bytes) -> (r: usize)
    ensures
        r == bytes_content(*b).len(),
{
    b.len()
}

/// Relies on `<bytes::Bytes as bytes::Buf>::bytes`: the slice of all the
/// bytes held.
#[verifier::external_body]
fn bytes_slice(b: &Bytes) -> (r: &[u8])
    ensures
        r@ == bytes_content(*b),
{
    Buf::bytes(b)
}

/// Relies on `<bytes::Bytes as bytes::Buf>::advance`: drops the first `cnt`
/// bytes; it panics past the end.
#[verifier::external_body]
fn bytes_advance(b: &mut Bytes, cnt: usize)
    requires
        cnt <= bytes_content(*old(b)).len(),
    ensures
        bytes_content(*final(b)) == bytes_content(*old(b)).skip(cnt as int),
{
    Buf::advance(b, cnt)
}

/// Relies on `bytes::Bytes::split_to`: returns the first `at` bytes and keeps
/// the rest; it panics past the end.
#[verifier::external_body]
fn bytes_split_to(b: &mut Bytes, at: usize) -> (r: Bytes)
    requires
        at <= bytes_content(*old(b)).len(),
    ensures
        bytes_content(r) == bytes_content(*old(b)).take(at as int),
        bytes_content(*final(b)) == bytes_content(*old(b)).skip(at as int),
{
    b.split_to(at)
}

impl Chunk for Bytes {
    open spec fn bytes_of(&self) -> Seq<u8> {
        bytes_content(*self)
    }

    fn remaining(&self) -> (r: usize) {
        bytes_len(self)
    }

    fn bytes(&self) -> (r: &[u8]) {
        let r = bytes_slice(self);
        assert(r@ =~= self.bytes_of().take(r@.len() as int));
        r
    }

    fn advance(&mut self, cnt: usize) {
        bytes_advance(self, cnt)
    }

    fn split_to(&mut self, at: usize) -> (r: Self) {
        bytes_split_to(self, at)
    }
}

} // verus!
