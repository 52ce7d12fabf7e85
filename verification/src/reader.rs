//! The binary reader: typed little-endian reads over an owned byte source.

use vstd::prelude::*;

verus! {

use crate::codec::{
    byte_at, le_at, lemma_le_at_1, lemma_le_at_2, lemma_le_at_4, lemma_le_at_8, read_len,
    to_signed,
};
use vstd::arithmetic::power2::{lemma2_to64, lemma2_to64_rest};
use crate::source::{ByteSource, IoError};

/// Decodes fixed-width little-endian values from an owned, seekable byte
/// source, advancing a read cursor; the cursor can also be repositioned
/// absolutely.
///
/// The reader's state is the source's: [`data`](BinaryReader::data) its bytes,
/// [`pos`](BinaryReader::pos) its cursor. Every operation propagates the
/// source's I/O failures unchanged; a short source never fails a read, the
/// missing high-order bytes decode as zero.
pub struct BinaryReader<S: ByteSource> {
    source: S,
}

impl<S: ByteSource> BinaryReader<S> {
    /// The bytes of the owned source.
    pub closed spec fn data(&self) -> Seq<u8> {
        self.source.bytes()
    }

    /// The read cursor: the absolute offset of the next byte to decode.
    pub closed spec fn pos(&self) -> nat {
        self.source.cursor()
    }

    /// Whether the owned source never fails. Over such a source every
    /// operation of the reader returns `Ok`: running out of bytes is not a
    /// failure, it zero-pads.
    pub closed spec fn src_infallible(&self) -> bool {
        self.source.infallible()
    }

    /// Takes ownership of `source`; the cursor starts wherever the source's
    /// cursor stands. No read is performed.
    pub fn new(source: S) -> (r: BinaryReader<S>)
        ensures
            r.data() == source.bytes(),
            r.pos() == source.cursor(),
            r.src_infallible() == source.infallible(),
    {
        BinaryReader { source }
    }

    /// Fills `buf` from the cursor, reading again until `buf` is full or the
    /// source is exhausted, and returns how many bytes were placed — less than
    /// `buf.len()` only at the end of the source. The unfilled tail of `buf`
    /// keeps its previous contents. A short source is not an error.
    pub fn read_to_buf(&mut self, buf: &mut Vec<u8>) -> (r: Result<usize, IoError>)
        ensures
            final(self).data() == old(self).data(),
            final(self).src_infallible() == old(self).src_infallible(),
            old(self).src_infallible() ==> r is Ok,
            old(buf).len() == 0 ==> r is Ok,
            final(buf).len() == old(buf).len(),
            match r {
                Ok(n) => {
                    &&& n == read_len(old(self).data(), old(self).pos(), old(buf).len() as nat)
                    &&& final(self).pos() == old(self).pos() + n
                    &&& forall|i: int|
                        0 <= i < n ==> final(buf)@[i] == old(self).data()[old(self).pos() + i]
                    &&& forall|i: int|
                        n <= i < old(buf).len() ==> final(buf)@[i] == old(buf)@[i]
                },
                Err(_) => true,
            },
    {
        let mut total: usize = 0;
        while total < buf.len()
            invariant
                total <= buf.len(),
                total <= read_len(old(self).data(), old(self).pos(), buf.len() as nat),
                self.data() == old(self).data(),
                self.src_infallible() == old(self).src_infallible(),
                buf.len() == old(buf).len(),
                self.pos() == old(self).pos() + total,
                forall|i: int| 0 <= i < total ==> buf@[i] == old(self).data()[old(self).pos() + i],
                forall|i: int| total <= i < buf.len() ==> buf@[i] == old(buf)@[i],
            decreases buf.len() - total,
        {
            let amount = self.source.read_into(buf, total)?;
            total = total + amount;
            if amount == 0 {
                return Ok(total);
            }
        }
        Ok(total)
    }

    /// Allocates `count` bytes, fills them as [`read_to_buf`](Self::read_to_buf)
    /// does, and returns them. The result always has length `count`; when the
    /// source runs out first, the unread tail is zero.
    pub fn read_bytes(&mut self, count: usize) -> (r: Result<Vec<u8>, IoError>)
        ensures
            final(self).data() == old(self).data(),
            final(self).src_infallible() == old(self).src_infallible(),
            old(self).src_infallible() ==> r is Ok,
            count == 0 ==> r is Ok,
            match r {
                Ok(v) => {
                    &&& v.len() == count
                    &&& final(self).pos() == old(self).pos() + read_len(
                        old(self).data(),
                        old(self).pos(),
                        count as nat,
                    )
                    &&& forall|i: int|
                        0 <= i < count ==> v@[i] == byte_at(
                            old(self).data(),
                            old(self).pos() + i,
                        )
                },
                Err(_) => true,
            },
    {
        let mut v: Vec<u8> = Vec::new();
        while v.len() < count
            invariant
                v.len() <= count,
                forall|i: int| 0 <= i < v.len() ==> v@[i] == 0,
            decreases count - v.len(),
        {
            v.push(0);
        }
        self.read_to_buf(&mut v)?;
        Ok(v)
    }

    /// Reads one byte as an unsigned 8-bit value; at the end of the source it
    /// reads as zero.
    pub fn read_u8(&mut self) -> (r: Result<u8, IoError>)
        ensures
            final(self).data() == old(self).data(),
            final(self).src_infallible() == old(self).src_infallible(),
            old(self).src_infallible() ==> r is Ok,
            match r {
                Ok(v) => {
                    &&& v == le_at(old(self).data(), old(self).pos() as int, 1)
                    &&& final(self).pos() == old(self).pos() + read_len(
                        old(self).data(),
                        old(self).pos(),
                        1,
                    )
                },
                Err(_) => true,
            },
    {
        let bytes = self.read_bytes(1)?;
        let v = bytes[0];
        proof {
            lemma_le_at_1(old(self).data(), old(self).pos() as int);
        }
        Ok(v)
    }

    /// Reads one byte as a two's-complement signed 8-bit value.
    pub fn read_i8(&mut self) -> (r: Result<i8, IoError>)
        ensures
            final(self).data() == old(self).data(),
            final(self).src_infallible() == old(self).src_infallible(),
            old(self).src_infallible() ==> r is Ok,
            match r {
                Ok(v) => {
                    &&& v as int == to_signed(le_at(old(self).data(), old(self).pos() as int, 1), 1)
                    &&& final(self).pos() == old(self).pos() + read_len(
                        old(self).data(),
                        old(self).pos(),
                        1,
                    )
                },
                Err(_) => true,
            },
    {
        let bytes = self.read_bytes(1)?;
        let b = bytes[0];
        let v: i8 = if b < 0x80 {
            b as i8
        } else {
            (b as i16 - 0x100) as i8
        };
        proof {
            lemma_le_at_1(old(self).data(), old(self).pos() as int);
            lemma2_to64();
        }
        Ok(v)
    }

    /// Reads two bytes as a little-endian unsigned 16-bit value; missing
    /// high-order bytes at the end of the source read as zero.
    pub fn read_u16(&mut self) -> (r: Result<u16, IoError>)
        ensures
            final(self).data() == old(self).data(),
            final(self).src_infallible() == old(self).src_infallible(),
            old(self).src_infallible() ==> r is Ok,
            match r {
                Ok(v) => {
                    &&& v == le_at(old(self).data(), old(self).pos() as int, 2)
                    &&& final(self).pos() == old(self).pos() + read_len(
                        old(self).data(),
                        old(self).pos(),
                        2,
                    )
                },
                Err(_) => true,
            },
    {
        let bytes = self.read_bytes(2)?;
        let v: u16 = bytes[0] as u16 + (bytes[1] as u16) * 0x100;
        proof {
            lemma_le_at_2(old(self).data(), old(self).pos() as int);
        }
        Ok(v)
    }

    /// Reads two bytes as a little-endian two's-complement 16-bit value.
    pub fn read_i16(&mut self) -> (r: Result<i16, IoError>)
        ensures
            final(self).data() == old(self).data(),
            final(self).src_infallible() == old(self).src_infallible(),
            old(self).src_infallible() ==> r is Ok,
            match r {
                Ok(v) => {
                    &&& v as int == to_signed(le_at(old(self).data(), old(self).pos() as int, 2), 2)
                    &&& final(self).pos() == old(self).pos() + read_len(
                        old(self).data(),
                        old(self).pos(),
                        2,
                    )
                },
                Err(_) => true,
            },
    {
        let bytes = self.read_bytes(2)?;
        let u: u16 = bytes[0] as u16 + (bytes[1] as u16) * 0x100;
        let v: i16 = if u < 0x8000 {
            u as i16
        } else {
            (u as i32 - 0x10000) as i16
        };
        proof {
            lemma_le_at_2(old(self).data(), old(self).pos() as int);
            lemma2_to64();
        }
        Ok(v)
    }

    /// Reads four bytes as a little-endian unsigned 32-bit value; missing
    /// high-order bytes at the end of the source read as zero.
    pub fn read_u32(&mut self) -> (r: Result<u32, IoError>)
        ensures
            final(self).data() == old(self).data(),
            final(self).src_infallible() == old(self).src_infallible(),
            old(self).src_infallible() ==> r is Ok,
            match r {
                Ok(v) => {
                    &&& v == le_at(old(self).data(), old(self).pos() as int, 4)
                    &&& final(self).pos() == old(self).pos() + read_len(
                        old(self).data(),
                        old(self).pos(),
                        4,
                    )
                },
                Err(_) => true,
            },
    {
        let bytes = self.read_bytes(4)?;
        let v: u32 = bytes[0] as u32 + (bytes[1] as u32) * 0x100 + (bytes[2] as u32) * 0x10000 + (
        bytes[3] as u32) * 0x1000000;
        proof {
            lemma_le_at_4(old(self).data(), old(self).pos() as int);
        }
        Ok(v)
    }

    /// Reads four bytes as a little-endian two's-complement 32-bit value.
    pub fn read_i32(&mut self) -> (r: Result<i32, IoError>)
        ensures
            final(self).data() == old(self).data(),
            final(self).src_infallible() == old(self).src_infallible(),
            old(self).src_infallible() ==> r is Ok,
            match r {
                Ok(v) => {
                    &&& v as int == to_signed(le_at(old(self).data(), old(self).pos() as int, 4), 4)
                    &&& final(self).pos() == old(self).pos() + read_len(
                        old(self).data(),
                        old(self).pos(),
                        4,
                    )
                },
                Err(_) => true,
            },
    {
        let bytes = self.read_bytes(4)?;
        let u: u32 = bytes[0] as u32 + (bytes[1] as u32) * 0x100 + (bytes[2] as u32) * 0x10000 + (
        bytes[3] as u32) * 0x1000000;
        let v: i32 = if u < 0x80000000 {
            u as i32
        } else {
            (u as i64 - 0x100000000) as i32
        };
        proof {
            lemma_le_at_4(old(self).data(), old(self).pos() as int);
            lemma2_to64();
        }
        Ok(v)
    }

    /// Reads eight bytes as a little-endian unsigned 64-bit value; missing
    /// high-order bytes at the end of the source read as zero.
    pub fn read_u64(&mut self) -> (r: Result<u64, IoError>)
        ensures
            final(self).data() == old(self).data(),
            final(self).src_infallible() == old(self).src_infallible(),
            old(self).src_infallible() ==> r is Ok,
            match r {
                Ok(v) => {
                    &&& v == le_at(old(self).data(), old(self).pos() as int, 8)
                    &&& final(self).pos() == old(self).pos() + read_len(
                        old(self).data(),
                        old(self).pos(),
                        8,
                    )
                },
                Err(_) => true,
            },
    {
        let bytes = self.read_bytes(8)?;
        let v: u64 = bytes[0] as u64 + (bytes[1] as u64) * 0x100 + (bytes[2] as u64) * 0x10000 + (
        bytes[3] as u64) * 0x1000000 + (bytes[4] as u64) * 0x100000000 + (bytes[5] as u64)
            * 0x10000000000 + (bytes[6] as u64) * 0x1000000000000 + (bytes[7] as u64)
            * 0x100000000000000;
        proof {
            lemma_le_at_8(old(self).data(), old(self).pos() as int);
        }
        Ok(v)
    }

    /// Reads eight bytes as a little-endian two's-complement 64-bit value.
    pub fn read_i64(&mut self) -> (r: Result<i64, IoError>)
        ensures
            final(self).data() == old(self).data(),
            final(self).src_infallible() == old(self).src_infallible(),
            old(self).src_infallible() ==> r is Ok,
            match r {
                Ok(v) => {
                    &&& v as int == to_signed(le_at(old(self).data(), old(self).pos() as int, 8), 8)
                    &&& final(self).pos() == old(self).pos() + read_len(
                        old(self).data(),
                        old(self).pos(),
                        8,
                    )
                },
                Err(_) => true,
            },
    {
        let bytes = self.read_bytes(8)?;
        let u: u64 = bytes[0] as u64 + (bytes[1] as u64) * 0x100 + (bytes[2] as u64) * 0x10000 + (
        bytes[3] as u64) * 0x1000000 + (bytes[4] as u64) * 0x100000000 + (bytes[5] as u64)
            * 0x10000000000 + (bytes[6] as u64) * 0x1000000000000 + (bytes[7] as u64)
            * 0x100000000000000;
        let v: i64 = if u < 0x8000000000000000 {
            u as i64
        } else {
            (u as i128 - 0x10000000000000000) as i64
        };
        proof {
            lemma_le_at_8(old(self).data(), old(self).pos() as int);
            lemma2_to64();
            lemma2_to64_rest();
        }
        Ok(v)
    }

    /// The current absolute byte offset of the cursor.
    pub fn position(&mut self) -> (r: Result<usize, IoError>)
        ensures
            final(self).data() == old(self).data(),
            final(self).src_infallible() == old(self).src_infallible(),
            old(self).src_infallible() ==> r is Ok,
            final(self).pos() == old(self).pos(),
            r matches Ok(p) ==> p == old(self).pos(),
    {
        self.source.stream_offset()
    }

    /// Moves the cursor to the absolute byte offset `target`; subsequent reads
    /// begin exactly there. Offsets past the end of the source are accepted,
    /// and only a later read observes them.
    pub fn set_position(&mut self, target: usize) -> (r: Result<(), IoError>)
        ensures
            final(self).data() == old(self).data(),
            final(self).src_infallible() == old(self).src_infallible(),
            old(self).src_infallible() ==> r is Ok,
            r is Ok ==> final(self).pos() == target,
    {
        self.source.seek_to(target)
    }
}

} // verus!
