//! Writing big-endian integers at the end of a buffer.

use vstd::prelude::*;

#[allow(unused_imports)]
use crate::cursor;
#[allow(unused_imports)]
use crate::error::Failure;

verus! {

/// The four bytes of `value`, most significant first.
pub open spec fn u32_bytes(value: u32) -> Seq<u8> {
    seq![
        (value / 0x100_0000) as u8,
        (value / 0x1_0000 % 0x100) as u8,
        (value / 0x100 % 0x100) as u8,
        (value % 0x100) as u8,
    ]
}

/// The eight bytes of `value`, most significant first.
pub open spec fn u64_bytes(value: u64) -> Seq<u8> {
    u32_bytes((value / 0x1_0000_0000) as u32) + u32_bytes((value % 0x1_0000_0000) as u32)
}

/// A buffer that integers are written at the end of.
pub trait ByteWriter: Sized {
    /// What has been written.
    spec fn written(&self) -> Seq<u8>;

    /// One integer, four bytes, most significant first.
    fn u32_be(&mut self, value: u32) -> (more: &mut Self)
        ensures
            more.written() == old(self).written() + u32_bytes(value),
            *final(self) == *final(more),
    ;

    /// One integer, eight bytes, most significant first.
    fn u64_be(&mut self, value: u64) -> (more: &mut Self)
        ensures
            more.written() == old(self).written() + u64_bytes(value),
            *final(self) == *final(more),
    ;
}

impl ByteWriter for Vec<u8> {
    open spec fn written(&self) -> Seq<u8> {
        self@
    }

    fn u32_be(&mut self, value: u32) -> (more: &mut Self) {
        self.push((value / 0x100_0000) as u8);
        self.push((value / 0x1_0000 % 0x100) as u8);
        self.push((value / 0x100 % 0x100) as u8);
        self.push((value % 0x100) as u8);
        assert(self@ =~= old(self)@ + u32_bytes(value));
        self
    }

    fn u64_be(&mut self, value: u64) -> (more: &mut Self) {
        self.u32_be((value / 0x1_0000_0000) as u32).u32_be((value % 0x1_0000_0000) as u32)
    }
}

/// An integer written is the integer read back, and what follows it is what
/// was left.
pub broadcast proof fn u32_reads_back(value: u32, rest: Seq<u8>)
    ensures
        #[trigger] cursor::read_u32(u32_bytes(value) + rest) == Ok::<_, Failure>((value, rest)),
{
    let bytes = u32_bytes(value) + rest;
    assert(bytes.take(4) =~= u32_bytes(value));
    assert(bytes.skip(4) =~= rest);
}

/// A long integer written is the integer read back, and what follows it is
/// what was left.
pub broadcast proof fn u64_reads_back(value: u64, rest: Seq<u8>)
    ensures
        #[trigger] cursor::read_u64(u64_bytes(value) + rest) == Ok::<_, Failure>((value, rest)),
{
    let high = u32_bytes((value / 0x1_0000_0000) as u32);
    let low = u32_bytes((value % 0x1_0000_0000) as u32);
    let bytes = u64_bytes(value) + rest;
    assert(bytes =~= high + (low + rest));
    assert(bytes.skip(4) =~= low + rest);
    assert(bytes.skip(8) =~= rest);
    u32_reads_back((value / 0x1_0000_0000) as u32, low + rest);
    u32_reads_back((value % 0x1_0000_0000) as u32, rest);
}

} // verus!
