//! Reading a buffer from the front: big-endian integers and runs of bytes,
//! each either whole or refused.

use vstd::prelude::*;
use vstd::slice::slice_subrange;

#[allow(unused_imports)]
use crate::error::{self, Failure};
use crate::error::{protocol_error, Result};

verus! {

/// What reading a field off the front of a buffer gives: the field and what
/// follows it, or why there is none.
pub type Read<T> = core::result::Result<(T, Seq<u8>), Failure>;

/// The number that four bytes, most significant first, stand for.
pub open spec fn u32_of(bytes: Seq<u8>) -> u32 {
    (bytes[0] * 0x100_0000 + bytes[1] * 0x1_0000 + bytes[2] * 0x100 + bytes[3]) as u32
}

/// The number that eight bytes, most significant first, stand for.
pub open spec fn u64_of(bytes: Seq<u8>) -> u64 {
    (u32_of(bytes) * 0x1_0000_0000 + u32_of(bytes.skip(4))) as u64
}

/// The first `count` of `bytes`.
pub open spec fn read_bytes(bytes: Seq<u8>, count: nat) -> Read<Seq<u8>> {
    if count <= bytes.len() {
        Ok((bytes.take(count as int), bytes.skip(count as int)))
    } else {
        Err(error::runs_past())
    }
}

/// The integer in the first four of `bytes`.
pub open spec fn read_u32(bytes: Seq<u8>) -> Read<u32> {
    if 4 <= bytes.len() {
        Ok((u32_of(bytes), bytes.skip(4)))
    } else {
        Err(error::runs_past())
    }
}

/// The integer in the first eight of `bytes`.
pub open spec fn read_u64(bytes: Seq<u8>) -> Read<u64> {
    if 8 <= bytes.len() {
        Ok((u64_of(bytes), bytes.skip(8)))
    } else {
        Err(error::runs_past())
    }
}

/// A place in a buffer: everything before it has been read.
pub struct Cursor<'a> {
    bytes: &'a [u8],
    position: usize,
}

impl<'a> View for Cursor<'a> {
    type V = Seq<u8>;

    /// What is left to read. What was read is the rest of the [`Self::buffer`]:
    /// where the cursor is follows from the two.
    closed spec fn view(&self) -> Seq<u8> {
        self.bytes@.skip(self.position as int)
    }
}

impl<'a> Cursor<'a> {
    #[verifier::type_invariant]
    spec fn well_formed(self) -> bool {
        self.position <= self.bytes@.len()
    }

    /// The buffer being read, what was read included.
    pub closed spec fn buffer(&self) -> Seq<u8> {
        self.bytes@
    }

    /// At the front of `bytes`.
    pub fn new(bytes: &'a [u8]) -> (cursor: Self)
        ensures
            cursor@ == bytes@,
            cursor.buffer() == bytes@,
    {
        let cursor = Cursor { bytes, position: 0 };
        assert(cursor@ =~= bytes@);
        cursor
    }

    /// How many bytes have been read.
    pub fn position(&self) -> (position: usize)
        ensures
            position == self.buffer().len() - self@.len(),
            self@ == self.buffer().skip(position as int),
    {
        proof {
            use_type_invariant(self);
        }
        self.position
    }

    /// Whether everything has been read.
    pub fn is_empty(&self) -> (empty: bool)
        ensures
            empty <==> self@.len() == 0,
    {
        proof {
            use_type_invariant(self);
        }
        self.position == self.bytes.len()
    }

    /// What is left to read, left unread.
    pub fn remaining(&self) -> (rest: &'a [u8])
        ensures
            rest@ == self@,
    {
        proof {
            use_type_invariant(self);
        }
        slice_subrange(self.bytes, self.position, self.bytes.len())
    }

    /// The next `count` bytes. Where there are fewer the cursor does not
    /// move.
    pub fn take(&mut self, count: usize) -> (taken: Result<&'a [u8]>)
        ensures
            final(self).buffer() == old(self).buffer(),
            match read_bytes(old(self)@, count as nat) {
                Ok((bytes, rest)) => taken is Ok && taken->Ok_0@ == bytes && final(self)@ == rest,
                Err(failure) => taken is Err && taken->Err_0@ == failure && final(self)@
                    == old(self)@,
            },
    {
        proof {
            use_type_invariant(&*self);
        }
        if count > self.bytes.len() - self.position {
            return Err(protocol_error("a field runs past the end of the buffer"));
        }
        let start = self.position;
        let taken = slice_subrange(self.bytes, start, start + count);
        self.position = start + count;
        assert(self@ =~= old(self)@.skip(count as int));
        assert(taken@ =~= old(self)@.take(count as int));
        Ok(taken)
    }

    /// One integer, four bytes, most significant first. Where there are
    /// fewer the cursor does not move.
    pub fn u32_be(&mut self) -> (value: Result<u32>)
        ensures
            final(self).buffer() == old(self).buffer(),
            match read_u32(old(self)@) {
                Ok((number, rest)) => value is Ok && value->Ok_0 == number && final(self)@ == rest,
                Err(failure) => value is Err && value->Err_0@ == failure && final(self)@
                    == old(self)@,
            },
    {
        let bytes = self.take(4)?;
        Ok(
            bytes[0] as u32 * 0x100_0000 + bytes[1] as u32 * 0x1_0000 + bytes[2] as u32 * 0x100
                + bytes[3] as u32,
        )
    }

    /// One integer, eight bytes, most significant first. Where there are
    /// fewer the cursor does not move.
    pub fn u64_be(&mut self) -> (value: Result<u64>)
        ensures
            final(self).buffer() == old(self).buffer(),
            match read_u64(old(self)@) {
                Ok((number, rest)) => value is Ok && value->Ok_0 == number && final(self)@ == rest,
                Err(failure) => value is Err && value->Err_0@ == failure && final(self)@
                    == old(self)@,
            },
    {
        let bytes = self.take(8)?;
        let high = bytes[0] as u32 * 0x100_0000 + bytes[1] as u32 * 0x1_0000 + bytes[2] as u32
            * 0x100 + bytes[3] as u32;
        let low = bytes[4] as u32 * 0x100_0000 + bytes[5] as u32 * 0x1_0000 + bytes[6] as u32
            * 0x100 + bytes[7] as u32;
        Ok(high as u64 * 0x1_0000_0000 + low as u64)
    }
}

} // verus!
