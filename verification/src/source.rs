//! The byte-source abstraction the reader decodes from, and an in-memory
//! implementation of it.

use vstd::prelude::*;

verus! {

use crate::codec::read_len;

/// The one failure kind the reader knows: an I/O fault of the underlying
/// source, surfaced verbatim. Short or malformed data is never an error.
#[derive(Clone, Copy, Debug, PartialEq, Eq, Structural)]
pub struct IoError;

/// A seekable sequence of bytes.
///
/// A source is a fixed sequence of bytes ([`bytes`](ByteSource::bytes)) with a
/// cursor ([`cursor`](ByteSource::cursor)). Reads hand out consecutive bytes
/// from the cursor onward and advance it; seeking moves the cursor to any
/// absolute offset, including past the end. Reading never changes the bytes.
/// Failures are reported through [`IoError`]; after a failed call the cursor
/// is unspecified. A source that is [`infallible`](ByteSource::infallible)
/// never fails: every operation on it returns `Ok`.
pub trait ByteSource: Sized {
    /// The bytes of the source.
    spec fn bytes(&self) -> Seq<u8>;

    /// The cursor: the absolute offset of the next byte a read would return.
    spec fn cursor(&self) -> nat;

    /// Whether the source can never raise an I/O failure. Running out of
    /// bytes is not a failure; an infallible source answers every operation
    /// with `Ok`, and stays infallible.
    spec fn infallible(&self) -> bool;

    /// Reads into `buf[start..]`, returning how many bytes were placed:
    /// everything asked for, or whatever remains before the end of the
    /// source, with zero meaning the end was already reached (or nothing was
    /// asked for). The cursor advances by that count; no other part of `buf`
    /// changes.
    fn read_into(&mut self, buf: &mut Vec<u8>, start: usize) -> (r: Result<usize, IoError>)
        requires
            start <= old(buf).len(),
        ensures
            final(self).bytes() == old(self).bytes(),
            final(self).infallible() == old(self).infallible(),
            old(self).infallible() ==> r is Ok,
            final(buf).len() == old(buf).len(),
            match r {
                Ok(n) => {
                    &&& n == read_len(
                        old(self).bytes(),
                        old(self).cursor(),
                        (old(buf).len() - start) as nat,
                    )
                    &&& final(self).cursor() == old(self).cursor() + n
                    &&& forall|i: int|
                        start <= i < start + n ==> final(buf)@[i] == old(self).bytes()[old(
                            self,
                        ).cursor() + i - start]
                    &&& forall|i: int|
                        0 <= i < old(buf).len() && !(start <= i < start + n) ==> final(buf)@[i]
                            == old(buf)@[i]
                },
                Err(_) => true,
            },
    ;

    /// Moves the cursor to the absolute offset `target`. Offsets past the end
    /// of the source are accepted; only a later read observes them.
    fn seek_to(&mut self, target: usize) -> (r: Result<(), IoError>)
        ensures
            final(self).bytes() == old(self).bytes(),
            final(self).infallible() == old(self).infallible(),
            old(self).infallible() ==> r is Ok,
            r is Ok ==> final(self).cursor() == target,
    ;

    /// Reports the cursor without moving it.
    fn stream_offset(&mut self) -> (r: Result<usize, IoError>)
        ensures
            final(self).bytes() == old(self).bytes(),
            final(self).cursor() == old(self).cursor(),
            final(self).infallible() == old(self).infallible(),
            old(self).infallible() ==> r is Ok,
            r matches Ok(p) ==> p == old(self).cursor(),
    ;
}

/// An in-memory byte source: a vector of bytes and a cursor into it.
/// It is [`infallible`](ByteSource::infallible): it never raises [`IoError`].
pub struct MemSource {
    data: Vec<u8>,
    pos: usize,
}

impl MemSource {
    /// A source over `data`, with the cursor at the start.
    pub fn new(data: Vec<u8>) -> (r: MemSource)
        ensures
            r.bytes() == data@,
            r.cursor() == 0,
    {
        MemSource { data, pos: 0 }
    }
}

impl ByteSource for MemSource {
    closed spec fn bytes(&self) -> Seq<u8> {
        self.data@
    }

    closed spec fn cursor(&self) -> nat {
        self.pos as nat
    }

    open spec fn infallible(&self) -> bool {
        true
    }

    fn read_into(&mut self, buf: &mut Vec<u8>, start: usize) -> (r: Result<usize, IoError>) {
        let want = buf.len() - start;
        let avail = if self.pos >= self.data.len() {
            0
        } else {
            self.data.len() - self.pos
        };
        let n = if want <= avail {
            want
        } else {
            avail
        };
        let mut i: usize = 0;
        while i < n
            invariant
                i <= n,
                start + n <= buf.len(),
                self.pos + n <= self.data.len() || n == 0,
                self.data@ == old(self).data@,
                self.pos == old(self).pos,
                buf.len() == old(buf).len(),
                forall|j: int|
                    start <= j < start + i ==> buf@[j] == self.data@[self.pos + j - start],
                forall|j: int|
                    0 <= j < buf.len() && !(start <= j < start + i) ==> buf@[j] == old(buf)@[j],
            decreases n - i,
        {
            let b = self.data[self.pos + i];
            buf[start + i] = b;
            i = i + 1;
        }
        self.pos = self.pos + n;
        Ok(n)
    }

    fn seek_to(&mut self, target: usize) -> (r: Result<(), IoError>) {
        self.pos = target;
        Ok(())
    }

    fn stream_offset(&mut self) -> (r: Result<usize, IoError>) {
        Ok(self.pos)
    }
}

} // verus!
