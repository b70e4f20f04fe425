//! XDR (RFC 4506): what ONC RPC and NFS say their bytes in. Big-endian
//! integers four and eight bytes wide, a boolean as a whole integer, opaque
//! data counted and padded to a multiple of four, a string as opaque bytes.
//! Nothing here knows which procedure is being spoken.

use vstd::prelude::*;
use vstd::slice::slice_subrange;
#[allow(unused_imports)]
use vstd::utf8;

#[allow(unused_imports)]
use crate::cursor::{self, Read};
use crate::cursor::Cursor;
#[allow(unused_imports)]
use crate::error::{self, Failure};
use crate::error::{protocol_error, Result};
use crate::text;
#[allow(unused_imports)]
use crate::writer;
use crate::writer::ByteWriter;

verus! {

/// The bytes that take `count` to a multiple of four.
pub open spec fn pad(count: nat) -> nat {
    ((4 - count % 4) % 4) as nat
}

/// `count` zero bytes.
pub open spec fn zeros(count: nat) -> Seq<u8> {
    Seq::new(count, |i: int| 0u8)
}

/// A boolean as XDR writes it.
pub open spec fn bool_bytes(value: bool) -> Seq<u8> {
    writer::u32_bytes(if value { 1 } else { 0 })
}

/// Bytes as XDR writes them where both sides know how many: padded with
/// zeros to a multiple of four.
pub open spec fn fixed_bytes(bytes: Seq<u8>) -> Seq<u8> {
    bytes + zeros(pad(bytes.len()))
}

/// How many of something there are, as far as four bytes can say it.
pub open spec fn count_of(len: nat) -> u32 {
    if len <= u32::MAX {
        len as u32
    } else {
        u32::MAX
    }
}

/// Bytes as XDR writes them where only the writer knows how many.
pub open spec fn opaque_bytes(bytes: Seq<u8>) -> Seq<u8> {
    writer::u32_bytes(count_of(bytes.len())) + fixed_bytes(bytes)
}

/// A string as XDR writes it.
pub open spec fn string_bytes(text: Seq<char>) -> Seq<u8> {
    opaque_bytes(utf8::encode_utf8(text))
}

/// One boolean off the front of `bytes`: zero is false, anything else true.
pub open spec fn read_bool(bytes: Seq<u8>) -> Read<bool> {
    match cursor::read_u32(bytes) {
        Ok((value, rest)) => Ok((value != 0, rest)),
        Err(failure) => Err(failure),
    }
}

/// `count` bytes off the front of `bytes`, and past their padding, whatever
/// that holds.
pub open spec fn read_fixed(bytes: Seq<u8>, count: nat) -> Read<Seq<u8>> {
    if count + pad(count) <= bytes.len() {
        Ok((bytes.take(count as int), bytes.skip((count + pad(count)) as int)))
    } else {
        Err(error::runs_past())
    }
}

/// Counted bytes off the front of `bytes`.
pub open spec fn read_opaque(bytes: Seq<u8>) -> Read<Seq<u8>> {
    match cursor::read_u32(bytes) {
        Ok((count, rest)) => read_fixed(rest, count as nat),
        Err(failure) => Err(failure),
    }
}

/// A string off the front of `bytes`.
pub open spec fn read_string(bytes: Seq<u8>) -> Read<Seq<char>> {
    match read_opaque(bytes) {
        Ok((encoded, rest)) => Ok((text::text_of(encoded), rest)),
        Err(failure) => Err(failure),
    }
}

/// Where a read of counted bytes that fails leaves off: past the count, where
/// there was one.
pub open spec fn past_count(bytes: Seq<u8>) -> Seq<u8> {
    if 4 <= bytes.len() {
        bytes.skip(4)
    } else {
        bytes
    }
}

/// Reading XDR's own fields off a cursor.
pub trait Xdr<'a>: Sized {
    /// What is left to read.
    spec fn unread(&self) -> Seq<u8>;

    /// One boolean: zero is false, anything else true.
    ///
    /// # Errors
    /// Where the buffer ends first.
    fn bool(&mut self) -> (value: Result<bool>)
        ensures
            match read_bool(old(self).unread()) {
                Ok((flag, rest)) => value is Ok && value->Ok_0 == flag && final(self).unread()
                    == rest,
                Err(failure) => value is Err && value->Err_0@ == failure && final(self).unread()
                    == old(self).unread(),
            },
    ;

    /// Exactly `count` bytes and the padding that takes them to a multiple
    /// of four. A pad that is not there is refused, and the cursor does not
    /// move; what the pad bytes hold is not checked.
    ///
    /// # Errors
    /// Where the buffer ends before the bytes or their padding.
    fn fixed(&mut self, count: usize) -> (value: Result<&'a [u8]>)
        ensures
            match read_fixed(old(self).unread(), count as nat) {
                Ok((bytes, rest)) => value is Ok && value->Ok_0@ == bytes && final(self).unread()
                    == rest,
                Err(failure) => value is Err && value->Err_0@ == failure && final(self).unread()
                    == old(self).unread(),
            },
    ;

    /// Counted opaque bytes: a length, then that many bytes padded to four.
    ///
    /// # Errors
    /// Where the buffer ends first.
    fn opaque(&mut self) -> (value: Result<&'a [u8]>)
        ensures
            match read_opaque(old(self).unread()) {
                Ok((bytes, rest)) => value is Ok && value->Ok_0@ == bytes && final(self).unread()
                    == rest,
                Err(failure) => value is Err && value->Err_0@ == failure && final(self).unread()
                    == past_count(old(self).unread()),
            },
    ;

    /// A string: counted opaque bytes read as UTF-8, lossily.
    ///
    /// # Errors
    /// Where the buffer ends first.
    fn string(&mut self) -> (value: Result<String>)
        ensures
            match read_string(old(self).unread()) {
                Ok((text, rest)) => value is Ok && value->Ok_0@ == text && final(self).unread()
                    == rest,
                Err(failure) => value is Err && value->Err_0@ == failure && final(self).unread()
                    == past_count(old(self).unread()),
            },
    ;
}

impl<'a> Xdr<'a> for Cursor<'a> {
    open spec fn unread(&self) -> Seq<u8> {
        self@
    }

    fn bool(&mut self) -> (value: Result<bool>)
        ensures
            final(self).buffer() == old(self).buffer(),
    {
        Ok(self.u32_be()? != 0)
    }

    fn fixed(&mut self, count: usize) -> (value: Result<&'a [u8]>)
        ensures
            final(self).buffer() == old(self).buffer(),
    {
        let left = self.remaining().len();
        let padded = padding(count);
        if count > left || padded > left - count {
            return Err(protocol_error("a field runs past the end of the buffer"));
        }
        let taken = self.take(count + padded)?;
        assert(taken@.take(count as int) =~= old(self)@.take(count as int));
        Ok(slice_subrange(taken, 0, count))
    }

    fn opaque(&mut self) -> (value: Result<&'a [u8]>)
        ensures
            final(self).buffer() == old(self).buffer(),
    {
        let count = self.u32_be()? as usize;
        self.fixed(count)
    }

    fn string(&mut self) -> (value: Result<String>)
        ensures
            final(self).buffer() == old(self).buffer(),
    {
        Ok(text::from_utf8_lossy(self.opaque()?))
    }
}

/// Writing XDR's own fields beside a [`ByteWriter`]'s integers.
pub trait XdrWrite: ByteWriter {
    /// One boolean.
    fn bool(&mut self, value: bool) -> (more: &mut Self)
        ensures
            more.written() == old(self).written() + bool_bytes(value),
            *final(self) == *final(more),
    ;

    /// Fixed-length bytes, padded to four.
    fn fixed(&mut self, bytes: &[u8]) -> (more: &mut Self)
        ensures
            more.written() == old(self).written() + fixed_bytes(bytes@),
            *final(self) == *final(more),
    ;

    /// Counted opaque bytes: the length, then the bytes padded to four.
    fn opaque(&mut self, bytes: &[u8]) -> (more: &mut Self)
        ensures
            more.written() == old(self).written() + opaque_bytes(bytes@),
            *final(self) == *final(more),
    ;

    /// A string as counted opaque bytes.
    fn string(&mut self, text: &str) -> (more: &mut Self)
        ensures
            more.written() == old(self).written() + string_bytes(text@),
            *final(self) == *final(more),
    ;
}

impl XdrWrite for Vec<u8> {
    fn bool(&mut self, value: bool) -> (more: &mut Self) {
        self.u32_be(if value { 1 } else { 0 })
    }

    fn fixed(&mut self, bytes: &[u8]) -> (more: &mut Self) {
        self.extend_from_slice(bytes);
        let padded = padding(bytes.len());
        let mut put: usize = 0;
        while put < padded
            invariant
                put <= padded,
                self@ =~= old(self)@ + bytes@ + zeros(put as nat),
            decreases padded - put,
        {
            self.push(0);
            put += 1;
        }
        assert(self@ =~= old(self)@ + fixed_bytes(bytes@));
        self
    }

    fn opaque(&mut self, bytes: &[u8]) -> (more: &mut Self) {
        self.u32_be(count(bytes.len())).fixed(bytes)
    }

    fn string(&mut self, text: &str) -> (more: &mut Self) {
        self.opaque(text.as_bytes())
    }
}

/// The bytes that pad `count` to a multiple of four.
pub fn padding(count: usize) -> (padded: usize)
    ensures
        padded == pad(count as nat),
{
    (4 - count % 4) % 4
}

/// `len` as the four bytes of a count can say it.
pub fn count(len: usize) -> (count: u32)
    ensures
        count == count_of(len as nat),
{
    if len <= u32::MAX as usize {
        len as u32
    } else {
        u32::MAX
    }
}

/// A boolean written is the boolean read back, and what follows it is what
/// was left.
pub broadcast proof fn bool_reads_back(value: bool, rest: Seq<u8>)
    ensures
        #[trigger] read_bool(bool_bytes(value) + rest) == Ok::<_, Failure>((value, rest)),
{
    writer::u32_reads_back(if value { 1 } else { 0 }, rest);
}

/// Bytes written are the bytes read back by whoever knows how many there
/// are, and what follows their padding is what was left.
pub broadcast proof fn fixed_reads_back(bytes: Seq<u8>, count: nat, rest: Seq<u8>)
    requires
        count == bytes.len(),
    ensures
        #[trigger] read_fixed(fixed_bytes(bytes) + rest, count) == Ok::<_, Failure>((bytes, rest)),
{
    let written = fixed_bytes(bytes) + rest;
    assert(written.take(count as int) =~= bytes);
    assert(written.skip((count + pad(count)) as int) =~= rest);
}

/// Counted bytes written are the bytes read back, and what follows their
/// padding is what was left.
pub broadcast proof fn opaque_reads_back(bytes: Seq<u8>, rest: Seq<u8>)
    requires
        bytes.len() <= u32::MAX,
    ensures
        #[trigger] read_opaque(opaque_bytes(bytes) + rest) == Ok::<_, Failure>((bytes, rest)),
{
    let count = writer::u32_bytes(count_of(bytes.len()));
    assert(opaque_bytes(bytes) + rest =~= count + (fixed_bytes(bytes) + rest));
    writer::u32_reads_back(count_of(bytes.len()), fixed_bytes(bytes) + rest);
    fixed_reads_back(bytes, bytes.len(), rest);
}

/// A string written is the string read back, and what follows its padding is
/// what was left.
pub broadcast proof fn string_reads_back(text: Seq<char>, rest: Seq<u8>)
    requires
        utf8::encode_utf8(text).len() <= u32::MAX,
    ensures
        #[trigger] read_string(string_bytes(text) + rest) == Ok::<_, Failure>((text, rest)),
{
    opaque_reads_back(utf8::encode_utf8(text), rest);
    text::text_reads_back(text);
}

/// Three runs of bytes in a row are the same however they are grouped.
pub broadcast proof fn runs_regroup(first: Seq<u8>, second: Seq<u8>, third: Seq<u8>)
    ensures
        #[trigger] ((first + second) + third) == first + (second + third),
{
    assert((first + second) + third =~= first + (second + third));
}

/// That every field written is read back.
pub broadcast group group_reads_back {
    runs_regroup,
    writer::u32_reads_back,
    writer::u64_reads_back,
    bool_reads_back,
    fixed_reads_back,
    opaque_reads_back,
    string_reads_back,
}

/// Every field takes a multiple of four bytes.
pub proof fn fields_are_padded(number: u32, long: u64, flag: bool, bytes: Seq<u8>, text: Seq<char>)
    ensures
        writer::u32_bytes(number).len() == 4,
        writer::u64_bytes(long).len() == 8,
        bool_bytes(flag).len() == 4,
        bytes.len() <= fixed_bytes(bytes).len() < bytes.len() + 4,
        fixed_bytes(bytes).len() % 4 == 0,
        opaque_bytes(bytes).len() == 4 + fixed_bytes(bytes).len(),
        opaque_bytes(bytes).len() % 4 == 0,
        string_bytes(text).len() % 4 == 0,
{
}

/// What the pad bytes hold is not checked: two buffers that agree outside
/// the padding read the same.
pub proof fn padding_is_not_checked(bytes: Seq<u8>, other: Seq<u8>, rest: Seq<u8>, count: nat)
    requires
        bytes.len() == count + pad(count),
        other.len() == count + pad(count),
        bytes.take(count as int) == other.take(count as int),
    ensures
        read_fixed(bytes + rest, count) == read_fixed(other + rest, count),
        read_fixed(bytes + rest, count) == Ok::<_, Failure>((bytes.take(count as int), rest)),
{
    assert((bytes + rest).take(count as int) =~= bytes.take(count as int));
    assert((other + rest).take(count as int) =~= other.take(count as int));
    assert((bytes + rest).skip((count + pad(count)) as int) =~= rest);
    assert((other + rest).skip((count + pad(count)) as int) =~= rest);
}

/// A pad that is not there is refused: bytes that end before their padding
/// does are not read.
pub proof fn missing_pad_is_refused(bytes: Seq<u8>, count: nat)
    requires
        bytes.len() < count + pad(count),
    ensures
        read_fixed(bytes, count) == Err::<(Seq<u8>, Seq<u8>), _>(error::runs_past()),
{
}

} // verus!
