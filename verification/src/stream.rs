//! A byte stream that lets one byte be put back: the source that level
//! records are read from.

use vstd::prelude::*;
use itertools::PutBack;
use std::vec::IntoIter;

verus! {

/// `itertools::PutBack`: an iterator with a slot for one item that was put
/// back. Nothing is known of what is inside it.
#[verifier::external_type_specification]
#[verifier::external_body]
#[verifier::reject_recursive_types(I)]
pub struct ExPutBack<I: Iterator>(PutBack<I>);

/// The bytes that a stream has yet to give, the one that was put back first.
pub uninterp spec fn pending(s: PutBack<IntoIter<u8>>) -> Seq<u8>;

/// Whether a stream holds a byte that was put back and not yet read again.
pub uninterp spec fn slot_filled(s: PutBack<IntoIter<u8>>) -> bool;

/// `itertools::put_back` on the bytes of a vector: the stream gives the
/// vector's bytes in order and holds no byte that was put back.
#[verifier::external_body]
fn put_back_new(data: Vec<u8>) -> (s: PutBack<IntoIter<u8>>)
    ensures
        pending(s) == data@,
        !slot_filled(s),
{
    itertools::put_back(data)
}

/// `PutBack::next`: gives the byte that was put back, if there is one, else
/// the next byte of the vector; `None` once both are used up. Afterwards no
/// byte is held back.
#[verifier::external_body]
fn put_back_next(s: &mut PutBack<IntoIter<u8>>) -> (r: Option<u8>)
    ensures
        !slot_filled(*final(s)),
        pending(*old(s)).len() == 0 ==> r is None && pending(*final(s)) == pending(*old(s)),
        pending(*old(s)).len() > 0 ==> r == Some(pending(*old(s))[0]) && pending(*final(s))
            == pending(*old(s)).skip(1),
{
    s.next()
}

/// `PutBack::put_back`: the byte becomes the next one that the stream gives.
/// A byte that was already held back is replaced and lost.
#[verifier::external_body]
fn put_back_put(s: &mut PutBack<IntoIter<u8>>, b: u8)
    ensures
        slot_filled(*final(s)),
        pending(*final(s)) == seq![b] + if slot_filled(*old(s)) {
            pending(*old(s)).skip(1)
        } else {
            pending(*old(s))
        },
{
    s.put_back(b);
}

/// `PutBack::size_hint`, lower bound: the lower bound of the iterator it
/// wraps, plus one where a byte is held back. The iterator of a vector gives
/// the exact number of bytes it has left, so the sum is the number of bytes
/// yet to come.
#[verifier::external_body]
fn put_back_lower(s: &PutBack<IntoIter<u8>>) -> (n: usize)
    ensures
        n == pending(*s).len(),
{
    s.size_hint().0
}

/// A stream of bytes with room to put one byte back. Its view is the bytes it
/// has yet to give.
pub struct ByteStream {
    inner: PutBack<IntoIter<u8>>,
}

impl View for ByteStream {
    type V = Seq<u8>;

    closed spec fn view(&self) -> Seq<u8> {
        pending(self.inner)
    }
}

impl ByteStream {
    /// Whether a byte has been put back and not yet read again.
    pub closed spec fn holds_back(&self) -> bool {
        slot_filled(self.inner)
    }

    /// A stream over the bytes of `data`.
    pub fn new(data: Vec<u8>) -> (s: ByteStream)
        ensures
            s@ == data@,
            !s.holds_back(),
    {
        ByteStream { inner: put_back_new(data) }
    }

    /// Takes the next byte off the stream.
    pub fn next(&mut self) -> (r: Option<u8>)
        ensures
            !final(self).holds_back(),
            old(self)@.len() == 0 ==> r is None && final(self)@ == old(self)@,
            old(self)@.len() > 0 ==> r == Some(old(self)@[0]) && final(self)@ == old(self)@.skip(1),
    {
        put_back_next(&mut self.inner)
    }

    /// Puts `b` back in front of the stream. Only one byte can be held back:
    /// a second one takes the place of the first.
    pub fn put_back(&mut self, b: u8)
        ensures
            final(self).holds_back(),
            final(self)@ == seq![b] + if old(self).holds_back() {
                old(self)@.skip(1)
            } else {
                old(self)@
            },
    {
        put_back_put(&mut self.inner, b);
    }

    /// Number of bytes yet to come.
    pub fn remaining(&self) -> (n: usize)
        ensures
            n == self@.len(),
    {
        put_back_lower(&self.inner)
    }
}

} // verus!
