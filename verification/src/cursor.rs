//! An in-memory seekable byte source.
//!
//! The walker never opens files itself: the caller loads the stream into
//! memory and hands it over as a `ByteCursor`. Reads fail (and leave the
//! position unchanged) when fewer bytes remain than requested; seeks may
//! place the position past the end of the data, as a file cursor can.

use vstd::prelude::*;

verus! {

/// Largest stream length the cursor accepts. Every Rust allocation holds at
/// most `isize::MAX` bytes, so any in-memory buffer satisfies this bound; it
/// keeps offset arithmetic such as `start + size` inside `u64`.
pub const MAX_STREAM_LEN: u64 = 0x7FFF_FFFF_FFFF_FFFF;

/// The one failure a walk can hit: a fixed-size read asked for more bytes
/// than remain before the end of the stream.
#[derive(Clone, Copy, Debug, PartialEq, Eq, Structural)]
pub enum ParseError {
    UnexpectedEof,
}

/// The value of the unsigned 32-bit big-endian integer formed by four bytes.
pub open spec fn be_u32_val(b0: u8, b1: u8, b2: u8, b3: u8) -> int {
    (b0 as int) * 0x100_0000 + (b1 as int) * 0x1_0000 + (b2 as int) * 0x100 + (b3 as int)
}

/// The unsigned 32-bit big-endian integer stored at offset `i` of `d`.
pub open spec fn be32(d: Seq<u8>, i: int) -> int {
    be_u32_val(d[i], d[i + 1], d[i + 2], d[i + 3])
}

/// Relies on `byteorder::BigEndian::read_u32`: reads an unsigned 32-bit
/// big-endian integer from the first four bytes of the buffer.
#[verifier::external_body]
fn u32_from_be(b0: u8, b1: u8, b2: u8, b3: u8) -> (r: u32)
    ensures
        r as int == be_u32_val(b0, b1, b2, b3),
{
    <byteorder::BigEndian as byteorder::ByteOrder>::read_u32(&[b0, b1, b2, b3])
}

/// A readable, absolutely- and relatively-seekable byte source over an
/// in-memory buffer.
pub struct ByteCursor {
    data: Vec<u8>,
    pos: u64,
}

impl ByteCursor {
    /// The bytes of the stream. They never change after construction.
    pub closed spec fn bytes(self) -> Seq<u8> {
        self.data@
    }

    /// The current absolute position. May lie past the end of the data.
    pub closed spec fn position_spec(self) -> u64 {
        self.pos
    }

    #[verifier::type_invariant]
    spec fn wf(self) -> bool {
        self.data@.len() <= MAX_STREAM_LEN
    }

    pub fn new(data: Vec<u8>) -> (r: ByteCursor)
        requires
            data@.len() <= MAX_STREAM_LEN,
        ensures
            r.bytes() == data@,
            r.position_spec() == 0,
    {
        ByteCursor { data, pos: 0 }
    }

    /// The total length of the stream, in bytes.
    pub fn stream_len(&self) -> (r: u64)
        ensures
            r as int == self.bytes().len(),
            self.bytes().len() <= MAX_STREAM_LEN,
    {
        proof {
            use_type_invariant(self);
        }
        self.data.len() as u64
    }

    /// The current absolute position.
    pub fn position(&self) -> (r: u64)
        ensures
            r == self.position_spec(),
    {
        self.pos
    }

    /// Seek to an absolute offset. Always succeeds, as on a file.
    pub fn seek_to(&mut self, target: u64)
        ensures
            final(self).bytes() == old(self).bytes(),
            final(self).position_spec() == target,
    {
        proof {
            use_type_invariant(&*self);
        }
        self.pos = target;
    }

    /// Seek forward relative to the current position.
    pub fn seek_forward(&mut self, delta: u64)
        requires
            old(self).position_spec() + delta <= u64::MAX,
        ensures
            final(self).bytes() == old(self).bytes(),
            final(self).position_spec() == old(self).position_spec() + delta,
    {
        proof {
            use_type_invariant(&*self);
        }
        self.pos = self.pos + delta;
    }

    /// Read one byte and advance. Fails, leaving the position unchanged,
    /// when the position is at or past the end of the data.
    pub fn read_u8(&mut self) -> (r: Result<u8, ParseError>)
        ensures
            final(self).bytes() == old(self).bytes(),
            old(self).bytes().len() <= MAX_STREAM_LEN,
            r is Ok <==> old(self).position_spec() + 1 <= old(self).bytes().len(),
            r matches Ok(b) ==> {
                &&& b == old(self).bytes()[old(self).position_spec() as int]
                &&& final(self).position_spec() == old(self).position_spec() + 1
            },
            r is Err ==> final(self).position_spec() == old(self).position_spec(),
    {
        proof {
            use_type_invariant(&*self);
        }
        if self.pos < self.data.len() as u64 {
            let b = self.data[self.pos as usize];
            self.pos = self.pos + 1;
            Ok(b)
        } else {
            Err(ParseError::UnexpectedEof)
        }
    }

    /// Read a 4-byte big-endian unsigned integer and advance by four bytes.
    /// Fails, leaving the position unchanged, when fewer than four bytes
    /// remain.
    pub fn read_u32_be(&mut self) -> (r: Result<u32, ParseError>)
        ensures
            final(self).bytes() == old(self).bytes(),
            old(self).bytes().len() <= MAX_STREAM_LEN,
            r is Ok <==> old(self).position_spec() + 4 <= old(self).bytes().len(),
            r matches Ok(v) ==> {
                &&& v as int == be32(old(self).bytes(), old(self).position_spec() as int)
                &&& final(self).position_spec() == old(self).position_spec() + 4
            },
            r is Err ==> final(self).position_spec() == old(self).position_spec(),
    {
        proof {
            use_type_invariant(&*self);
        }
        let len = self.data.len() as u64;
        if self.pos < len && len - self.pos >= 4 {
            let i = self.pos as usize;
            let v = u32_from_be(self.data[i], self.data[i + 1], self.data[i + 2], self.data[i + 3]);
            self.pos = self.pos + 4;
            Ok(v)
        } else {
            Err(ParseError::UnexpectedEof)
        }
    }
}

} // verus!
