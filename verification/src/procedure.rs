//! The NFS version 3 procedures spoken here (RFC 1813): the arguments a
//! client puts and a server takes, the results a server puts and a client
//! takes. Attributes are carried as the protocol allows, absent, and skipped
//! where a server sends them: what a Stream needs is the bytes, a name and
//! whether the read is at its end.

use vstd::prelude::*;
use vstd::slice::slice_to_vec;
#[allow(unused_imports)]
use vstd::utf8;

#[allow(unused_imports)]
use crate::cursor::{self, Read};
use crate::cursor::Cursor;
#[allow(unused_imports)]
use crate::error::{self, Failure};
use crate::error::{protocol_error, Result};
#[allow(unused_imports)]
use crate::status;
use crate::status::{expect_ok, OK};
use crate::text;
#[allow(unused_imports)]
use crate::writer;
use crate::writer::ByteWriter;
#[allow(unused_imports)]
use crate::xdr;
use crate::xdr::{Xdr, XdrWrite};

verus! {

/// `NFSPROC3_NULL`.
pub const NULL: u32 = 0;

/// `NFSPROC3_LOOKUP`.
pub const LOOKUP: u32 = 3;

/// `NFSPROC3_READ`.
pub const READ: u32 = 6;

/// `NFSPROC3_WRITE`.
pub const WRITE: u32 = 7;

/// `NFSPROC3_CREATE`.
pub const CREATE: u32 = 8;

/// `NFSPROC3_REMOVE`.
pub const REMOVE: u32 = 12;

/// `NFSPROC3_READDIR`.
pub const READDIR: u32 = 16;

/// `NFSPROC3_COMMIT`.
pub const COMMIT: u32 = 21;

/// `FILE_SYNC`: the write is on disk before the reply.
pub const FILE_SYNC: u32 = 2;

/// What reading a whole message gives: what it carries, or why it does not.
pub type Carried<T> = core::result::Result<T, Failure>;

/// A file handle: up to sixty-four opaque bytes the server knows.
#[derive(Debug, PartialEq, Eq, PartialOrd, Ord)]
pub struct Handle(pub Vec<u8>);

impl View for Handle {
    type V = Seq<u8>;

    open spec fn view(&self) -> Seq<u8> {
        self.0@
    }
}

/// A file handle off the front of `bytes`.
pub open spec fn read_handle(bytes: Seq<u8>) -> Read<Seq<u8>> {
    match xdr::read_opaque(bytes) {
        Ok((handle, rest)) => if handle.len() > 64 {
            Err(error::permanent_failure("a file handle over sixty-four bytes"@))
        } else {
            Ok((handle, rest))
        },
        Err(failure) => Err(failure),
    }
}

impl Handle {
    /// The handle as a field of a message.
    pub(crate) fn put(&self, out: &mut Vec<u8>)
        ensures
            final(out)@ == old(out)@ + xdr::opaque_bytes(self@),
    {
        out.opaque(self.0.as_slice());
    }

    /// The handle that is the next field of a message.
    pub(crate) fn take(reader: &mut Cursor<'_>) -> (taken: Result<Self>)
        ensures
            final(reader)@ == match xdr::read_opaque(old(reader)@) {
                Ok((_, rest)) => rest,
                Err(_) => xdr::past_count(old(reader)@),
            },
            match read_handle(old(reader)@) {
                Ok((handle, _)) => taken is Ok && taken->Ok_0@ == handle,
                Err(failure) => taken is Err && taken->Err_0@ == failure,
            },
    {
        let bytes = reader.opaque()?;
        if bytes.len() > 64 {
            return Err(protocol_error("a file handle over sixty-four bytes"));
        }
        Ok(Handle(slice_to_vec(bytes)))
    }
}

impl Clone for Handle {
    fn clone(&self) -> (copy: Self)
        ensures
            copy@ == self@,
    {
        Handle(slice_to_vec(self.0.as_slice()))
    }
}

/// A `post_op_attr` that carries no attributes.
fn put_no_attributes(out: &mut Vec<u8>)
    ensures
        final(out)@ == old(out)@ + xdr::bool_bytes(false),
{
    out.bool(false);
}

/// What follows a `post_op_attr`.
pub open spec fn past_attributes(bytes: Seq<u8>) -> Carried<Seq<u8>> {
    match xdr::read_bool(bytes) {
        Ok((present, rest)) => if present {
            match xdr::read_fixed(rest, 84) {
                Ok((_, rest)) => Ok(rest),
                Err(failure) => Err(failure),
            }
        } else {
            Ok(rest)
        },
        Err(failure) => Err(failure),
    }
}

/// What follows a `wcc_data`: the before, twenty-four bytes where present,
/// and the after.
pub open spec fn past_wcc(bytes: Seq<u8>) -> Carried<Seq<u8>> {
    match xdr::read_bool(bytes) {
        Ok((present, rest)) => if present {
            match xdr::read_fixed(rest, 24) {
                Ok((_, rest)) => past_attributes(rest),
                Err(failure) => Err(failure),
            }
        } else {
            past_attributes(rest)
        },
        Err(failure) => Err(failure),
    }
}

/// Past a `post_op_attr`, whether or not it carries the eighty-four bytes.
fn skip_attributes(reader: &mut Cursor<'_>) -> (skipped: Result<()>)
    ensures
        match past_attributes(old(reader)@) {
            Ok(rest) => skipped is Ok && final(reader)@ == rest,
            Err(failure) => skipped is Err && skipped->Err_0@ == failure,
        },
{
    if reader.bool()? {
        reader.fixed(84)?;
    }
    Ok(())
}

/// Past a `wcc_data`: the before, twenty-four bytes where present, and the
/// after.
fn skip_wcc(reader: &mut Cursor<'_>) -> (skipped: Result<()>)
    ensures
        match past_wcc(old(reader)@) {
            Ok(rest) => skipped is Ok && final(reader)@ == rest,
            Err(failure) => skipped is Err && skipped->Err_0@ == failure,
        },
{
    if reader.bool()? {
        reader.fixed(24)?;
    }
    skip_attributes(reader)
}

/// Whether a failed result of `procedure` carries a `wcc_data` rather than a
/// `post_op_attr`.
pub open spec fn changes_files(procedure: u32) -> bool {
    procedure == WRITE || procedure == CREATE || procedure == REMOVE || procedure == COMMIT
}

/// A failed result: the status and the attributes it carries, absent.
pub open spec fn failure_bytes(status: u32, procedure: u32) -> Seq<u8> {
    writer::u32_bytes(status) + if changes_files(procedure) {
        xdr::bool_bytes(false) + xdr::bool_bytes(false)
    } else {
        xdr::bool_bytes(false)
    }
}

/// A failed result: the status and the attributes it carries, absent.
#[must_use]
pub fn put_failure(status: u32, procedure: u32) -> (out: Vec<u8>)
    ensures
        out@ == failure_bytes(status, procedure),
{
    let mut out = Vec::new();
    out.u32_be(status);
    assert(out@ =~= writer::u32_bytes(status));
    out.bool(false);
    match procedure {
        WRITE | CREATE | REMOVE | COMMIT => {
            out.bool(false);
        },
        _ => {},
    }
    assert(out@ =~= failure_bytes(status, procedure));
    out
}

/// `diropargs3`: a directory and a name in it.
pub open spec fn dir_args_bytes(dir: Seq<u8>, name: Seq<char>) -> Seq<u8> {
    xdr::opaque_bytes(dir) + xdr::string_bytes(name)
}

/// The directory and name that `diropargs3` carry.
pub open spec fn parse_dir_args(arguments: Seq<u8>) -> Carried<(Seq<u8>, Seq<char>)> {
    match read_handle(arguments) {
        Ok((dir, rest)) => match xdr::read_string(rest) {
            Ok((name, _)) => Ok((dir, name)),
            Err(failure) => Err(failure),
        },
        Err(failure) => Err(failure),
    }
}

/// `diropargs3`: a directory and a name in it, for `LOOKUP`, `REMOVE` and
/// the `where` of `CREATE`.
#[must_use]
pub fn dir_args(dir: &Handle, name: &str) -> (out: Vec<u8>)
    ensures
        out@ == dir_args_bytes(dir@, name@),
{
    let mut out = Vec::new();
    dir.put(&mut out);
    assert(out@ =~= xdr::opaque_bytes(dir@));
    out.string(name);
    out
}

/// The directory and name `diropargs3` carry; `CREATE`'s `how` follows
/// and is not read.
///
/// # Errors
/// Where the arguments are cut short.
pub fn take_dir_args(arguments: &[u8]) -> (taken: Result<(Handle, String)>)
    ensures
        match parse_dir_args(arguments@) {
            Ok((dir, name)) => taken is Ok && taken->Ok_0.0@ == dir && taken->Ok_0.1@ == name,
            Err(failure) => taken is Err && taken->Err_0@ == failure,
        },
{
    let mut reader = Cursor::new(arguments);
    let dir = Handle::take(&mut reader)?;
    let name = reader.string()?;
    Ok((dir, name))
}

/// Six absent attributes of a new file.
pub open spec fn no_settings() -> Seq<u8> {
    xdr::bool_bytes(false) + xdr::bool_bytes(false) + xdr::bool_bytes(false) + xdr::bool_bytes(
        false,
    ) + xdr::bool_bytes(false) + xdr::bool_bytes(false)
}

/// `CREATE` arguments: the name, `UNCHECKED`, no attributes set.
pub open spec fn create_args_bytes(dir: Seq<u8>, name: Seq<char>) -> Seq<u8> {
    dir_args_bytes(dir, name) + writer::u32_bytes(0) + no_settings()
}

/// `CREATE` arguments: the name, `UNCHECKED`, no attributes set.
#[must_use]
pub fn create_args(dir: &Handle, name: &str) -> (out: Vec<u8>)
    ensures
        out@ == create_args_bytes(dir@, name@),
{
    let mut out = dir_args(dir, name);
    out.u32_be(0);
    out.bool(false).bool(false).bool(false).bool(false).bool(false).bool(false);
    assert(out@ =~= create_args_bytes(dir@, name@));
    out
}

/// A successful `LOOKUP` or `CREATE` result: the handle, no attributes.
pub open spec fn handle_ok_bytes(handle: Seq<u8>, procedure: u32) -> Seq<u8> {
    if procedure == CREATE {
        writer::u32_bytes(OK) + xdr::bool_bytes(true) + xdr::opaque_bytes(handle) + xdr::bool_bytes(
            false,
        ) + xdr::bool_bytes(false) + xdr::bool_bytes(false)
    } else {
        writer::u32_bytes(OK) + xdr::opaque_bytes(handle) + xdr::bool_bytes(false)
            + xdr::bool_bytes(false)
    }
}

/// The handle a `LOOKUP` or `CREATE` result carries.
pub open spec fn parse_handle(results: Seq<u8>, procedure: u32) -> Carried<Seq<u8>> {
    match status::after_ok(results, "looking up"@) {
        Ok(rest) => if procedure == CREATE {
            match xdr::read_bool(rest) {
                Ok((present, rest)) => if present {
                    match read_handle(rest) {
                        Ok((handle, _)) => Ok(handle),
                        Err(failure) => Err(failure),
                    }
                } else {
                    Err(error::permanent_failure("the file was created without a handle"@))
                },
                Err(failure) => Err(failure),
            }
        } else {
            match read_handle(rest) {
                Ok((handle, _)) => Ok(handle),
                Err(failure) => Err(failure),
            }
        },
        Err(failure) => Err(failure),
    }
}

/// A successful `LOOKUP` or `CREATE` result: the handle, no attributes.
#[must_use]
pub fn handle_ok(handle: &Handle, procedure: u32) -> (out: Vec<u8>)
    ensures
        out@ == handle_ok_bytes(handle@, procedure),
{
    let mut out = Vec::new();
    out.u32_be(OK);
    assert(out@ =~= writer::u32_bytes(OK));
    if procedure == CREATE {
        out.bool(true);
    }
    handle.put(&mut out);
    put_no_attributes(&mut out);
    if procedure == CREATE {
        out.bool(false);
    }
    put_no_attributes(&mut out);
    out
}

/// The handle a `LOOKUP` or `CREATE` result carries.
///
/// # Errors
/// Where the call failed, or a `CREATE` came back without a handle.
pub fn take_handle(results: &[u8], procedure: u32) -> (taken: Result<Handle>)
    ensures
        match parse_handle(results@, procedure) {
            Ok(handle) => taken is Ok && taken->Ok_0@ == handle,
            Err(failure) => taken is Err && taken->Err_0@ == failure,
        },
{
    let mut reader = Cursor::new(results);
    expect_ok(&mut reader, "looking up")?;
    if procedure == CREATE && !reader.bool()? {
        return Err(protocol_error("the file was created without a handle"));
    }
    Handle::take(&mut reader)
}

/// `READ` arguments.
pub open spec fn read_args_bytes(file: Seq<u8>, offset: u64, count: u32) -> Seq<u8> {
    xdr::opaque_bytes(file) + writer::u64_bytes(offset) + writer::u32_bytes(count)
}

/// The file, offset and count a `READ` asks for.
pub open spec fn parse_read_args(arguments: Seq<u8>) -> Carried<(Seq<u8>, u64, u32)> {
    match read_handle(arguments) {
        Ok((file, rest)) => match cursor::read_u64(rest) {
            Ok((offset, rest)) => match cursor::read_u32(rest) {
                Ok((count, _)) => Ok((file, offset, count)),
                Err(failure) => Err(failure),
            },
            Err(failure) => Err(failure),
        },
        Err(failure) => Err(failure),
    }
}

/// `READ` arguments.
#[must_use]
pub fn read_args(file: &Handle, offset: u64, count: u32) -> (out: Vec<u8>)
    ensures
        out@ == read_args_bytes(file@, offset, count),
{
    let mut out = Vec::new();
    file.put(&mut out);
    assert(out@ =~= xdr::opaque_bytes(file@));
    out.u64_be(offset);
    out.u32_be(count);
    out
}

/// The file, offset and count a `READ` asks for.
///
/// # Errors
/// Where the arguments are cut short.
pub fn take_read_args(arguments: &[u8]) -> (taken: Result<(Handle, u64, u32)>)
    ensures
        match parse_read_args(arguments@) {
            Ok((file, offset, count)) => taken is Ok && taken->Ok_0.0@ == file && taken->Ok_0.1
                == offset && taken->Ok_0.2 == count,
            Err(failure) => taken is Err && taken->Err_0@ == failure,
        },
{
    let mut reader = Cursor::new(arguments);
    let file = Handle::take(&mut reader)?;
    let offset = reader.u64_be()?;
    let count = reader.u32_be()?;
    Ok((file, offset, count))
}

/// A successful `READ` result: the bytes, and whether the file ends there.
pub open spec fn read_ok_bytes(data: Seq<u8>, eof: bool) -> Seq<u8> {
    writer::u32_bytes(OK) + xdr::bool_bytes(false) + writer::u32_bytes(xdr::count_of(data.len()))
        + xdr::bool_bytes(eof) + xdr::opaque_bytes(data)
}

/// The bytes a `READ` result carries, and whether the file ends there.
pub open spec fn parse_read(results: Seq<u8>) -> Carried<(Seq<u8>, bool)> {
    match status::after_ok(results, "reading"@) {
        Ok(rest) => match past_attributes(rest) {
            Ok(rest) => match cursor::read_u32(rest) {
                Ok((_, rest)) => match xdr::read_bool(rest) {
                    Ok((eof, rest)) => match xdr::read_opaque(rest) {
                        Ok((data, _)) => Ok((data, eof)),
                        Err(failure) => Err(failure),
                    },
                    Err(failure) => Err(failure),
                },
                Err(failure) => Err(failure),
            },
            Err(failure) => Err(failure),
        },
        Err(failure) => Err(failure),
    }
}

/// A successful `READ` result: the bytes, and whether the file ends there.
#[must_use]
pub fn read_ok(data: &[u8], eof: bool) -> (out: Vec<u8>)
    ensures
        out@ == read_ok_bytes(data@, eof),
{
    let mut out = Vec::new();
    out.u32_be(OK);
    assert(out@ =~= writer::u32_bytes(OK));
    put_no_attributes(&mut out);
    out.u32_be(xdr::count(data.len()));
    out.bool(eof);
    out.opaque(data);
    out
}

/// The bytes a `READ` result carries, and whether the file ends there.
///
/// # Errors
/// Where the read failed.
pub fn take_read(results: &[u8]) -> (taken: Result<(Vec<u8>, bool)>)
    ensures
        match parse_read(results@) {
            Ok((data, eof)) => taken is Ok && taken->Ok_0.0@ == data && taken->Ok_0.1 == eof,
            Err(failure) => taken is Err && taken->Err_0@ == failure,
        },
{
    let mut reader = Cursor::new(results);
    expect_ok(&mut reader, "reading")?;
    skip_attributes(&mut reader)?;
    reader.u32_be()?;
    let eof = reader.bool()?;
    Ok((slice_to_vec(reader.opaque()?), eof))
}

/// `WRITE` arguments: `data` at `offset`, `FILE_SYNC`.
pub open spec fn write_args_bytes(file: Seq<u8>, offset: u64, data: Seq<u8>) -> Seq<u8> {
    xdr::opaque_bytes(file) + writer::u64_bytes(offset) + writer::u32_bytes(
        xdr::count_of(data.len()),
    ) + writer::u32_bytes(FILE_SYNC) + xdr::opaque_bytes(data)
}

/// The file, offset and bytes a `WRITE` carries.
pub open spec fn parse_write_args(arguments: Seq<u8>) -> Carried<(Seq<u8>, u64, Seq<u8>)> {
    match read_handle(arguments) {
        Ok((file, rest)) => match cursor::read_u64(rest) {
            Ok((offset, rest)) => match cursor::read_u32(rest) {
                Ok((_, rest)) => match cursor::read_u32(rest) {
                    Ok((_, rest)) => match xdr::read_opaque(rest) {
                        Ok((data, _)) => Ok((file, offset, data)),
                        Err(failure) => Err(failure),
                    },
                    Err(failure) => Err(failure),
                },
                Err(failure) => Err(failure),
            },
            Err(failure) => Err(failure),
        },
        Err(failure) => Err(failure),
    }
}

/// `WRITE` arguments: `data` at `offset`, `FILE_SYNC`.
#[must_use]
pub fn write_args(file: &Handle, offset: u64, data: &[u8]) -> (out: Vec<u8>)
    ensures
        out@ == write_args_bytes(file@, offset, data@),
{
    let mut out = Vec::new();
    file.put(&mut out);
    assert(out@ =~= xdr::opaque_bytes(file@));
    out.u64_be(offset);
    out.u32_be(xdr::count(data.len()));
    out.u32_be(FILE_SYNC);
    out.opaque(data);
    out
}

/// The file, offset and bytes a `WRITE` carries.
///
/// # Errors
/// Where the arguments are cut short.
pub fn take_write_args(arguments: &[u8]) -> (taken: Result<(Handle, u64, Vec<u8>)>)
    ensures
        match parse_write_args(arguments@) {
            Ok((file, offset, data)) => taken is Ok && taken->Ok_0.0@ == file && taken->Ok_0.1
                == offset && taken->Ok_0.2@ == data,
            Err(failure) => taken is Err && taken->Err_0@ == failure,
        },
{
    let mut reader = Cursor::new(arguments);
    let file = Handle::take(&mut reader)?;
    let offset = reader.u64_be()?;
    reader.u32_be()?;
    reader.u32_be()?;
    Ok((file, offset, slice_to_vec(reader.opaque()?)))
}

/// A successful `WRITE` result: `count` bytes, `FILE_SYNC`, the server's
/// verifier.
pub open spec fn write_ok_bytes(count: u32, verifier: Seq<u8>) -> Seq<u8> {
    writer::u32_bytes(OK) + xdr::bool_bytes(false) + xdr::bool_bytes(false) + writer::u32_bytes(
        count,
    ) + writer::u32_bytes(FILE_SYNC) + xdr::fixed_bytes(verifier)
}

/// The count a `WRITE` result carries.
pub open spec fn parse_write(results: Seq<u8>) -> Carried<u32> {
    match status::after_ok(results, "writing"@) {
        Ok(rest) => match past_wcc(rest) {
            Ok(rest) => match cursor::read_u32(rest) {
                Ok((count, _)) => Ok(count),
                Err(failure) => Err(failure),
            },
            Err(failure) => Err(failure),
        },
        Err(failure) => Err(failure),
    }
}

/// A successful `WRITE` result: `count` bytes, `FILE_SYNC`, this server's
/// verifier.
#[must_use]
pub fn write_ok(count: u32, verifier: [u8; 8]) -> (out: Vec<u8>)
    ensures
        out@ == write_ok_bytes(count, verifier@),
{
    let mut out = Vec::new();
    out.u32_be(OK);
    assert(out@ =~= writer::u32_bytes(OK));
    out.bool(false);
    put_no_attributes(&mut out);
    out.u32_be(count);
    out.u32_be(FILE_SYNC);
    out.fixed(verifier.as_slice());
    out
}

/// The count a `WRITE` result carries.
///
/// # Errors
/// Where the write failed.
pub fn take_write(results: &[u8]) -> (taken: Result<u32>)
    ensures
        match parse_write(results@) {
            Ok(count) => taken is Ok && taken->Ok_0 == count,
            Err(failure) => taken is Err && taken->Err_0@ == failure,
        },
{
    let mut reader = Cursor::new(results);
    expect_ok(&mut reader, "writing")?;
    skip_wcc(&mut reader)?;
    reader.u32_be()
}

/// `COMMIT` arguments: the whole file.
pub open spec fn commit_args_bytes(file: Seq<u8>) -> Seq<u8> {
    xdr::opaque_bytes(file) + writer::u64_bytes(0) + writer::u32_bytes(0)
}

/// The handle that arguments open with, whatever follows it: what a `COMMIT`
/// and a `READDIR` are about.
pub open spec fn parse_first_handle(arguments: Seq<u8>) -> Carried<Seq<u8>> {
    match read_handle(arguments) {
        Ok((handle, _)) => Ok(handle),
        Err(failure) => Err(failure),
    }
}

/// `COMMIT` arguments: the whole file.
#[must_use]
pub fn commit_args(file: &Handle) -> (out: Vec<u8>)
    ensures
        out@ == commit_args_bytes(file@),
{
    let mut out = Vec::new();
    file.put(&mut out);
    assert(out@ =~= xdr::opaque_bytes(file@));
    out.u64_be(0);
    out.u32_be(0);
    out
}

/// The file a `COMMIT` names.
///
/// # Errors
/// Where the arguments are cut short.
pub fn take_commit_args(arguments: &[u8]) -> (taken: Result<Handle>)
    ensures
        match parse_first_handle(arguments@) {
            Ok(file) => taken is Ok && taken->Ok_0@ == file,
            Err(failure) => taken is Err && taken->Err_0@ == failure,
        },
{
    Handle::take(&mut Cursor::new(arguments))
}

/// A successful `COMMIT` result: the server's verifier.
pub open spec fn commit_ok_bytes(verifier: Seq<u8>) -> Seq<u8> {
    writer::u32_bytes(OK) + xdr::bool_bytes(false) + xdr::bool_bytes(false) + xdr::fixed_bytes(
        verifier,
    )
}

/// A successful `COMMIT` result: this server's verifier.
#[must_use]
pub fn commit_ok(verifier: [u8; 8]) -> (out: Vec<u8>)
    ensures
        out@ == commit_ok_bytes(verifier@),
{
    let mut out = Vec::new();
    out.u32_be(OK);
    assert(out@ =~= writer::u32_bytes(OK));
    out.bool(false);
    put_no_attributes(&mut out);
    out.fixed(verifier.as_slice());
    out
}

/// A successful `REMOVE` result.
pub open spec fn remove_ok_bytes() -> Seq<u8> {
    writer::u32_bytes(OK) + xdr::bool_bytes(false) + xdr::bool_bytes(false)
}

/// A successful `REMOVE` result.
#[must_use]
pub fn remove_ok() -> (out: Vec<u8>)
    ensures
        out@ == remove_ok_bytes(),
{
    let mut out = Vec::new();
    out.u32_be(OK);
    assert(out@ =~= writer::u32_bytes(OK));
    out.bool(false);
    put_no_attributes(&mut out);
    out
}

/// That a result says it was done.
pub open spec fn parse_done(results: Seq<u8>, what: Seq<char>) -> Carried<()> {
    match status::after_ok(results, what) {
        Ok(_) => Ok(()),
        Err(failure) => Err(failure),
    }
}

/// That a `COMMIT` or `REMOVE` succeeded.
///
/// # Errors
/// Where it did not.
pub fn take_done(results: &[u8], what: &str) -> (done: Result<()>)
    ensures
        match parse_done(results@, what@) {
            Ok(_) => done is Ok,
            Err(failure) => done is Err && done->Err_0@ == failure,
        },
{
    expect_ok(&mut Cursor::new(results), what)
}

/// `READDIR` arguments from the start, `count` bytes at most.
pub open spec fn readdir_args_bytes(dir: Seq<u8>, count: u32) -> Seq<u8> {
    xdr::opaque_bytes(dir) + writer::u64_bytes(0) + xdr::fixed_bytes(xdr::zeros(8))
        + writer::u32_bytes(count)
}

/// `READDIR` arguments from the start, `count` bytes at most.
#[must_use]
pub fn readdir_args(dir: &Handle, count: u32) -> (out: Vec<u8>)
    ensures
        out@ == readdir_args_bytes(dir@, count),
{
    let mut out = Vec::new();
    dir.put(&mut out);
    assert(out@ =~= xdr::opaque_bytes(dir@));
    out.u64_be(0);
    let verifier: [u8; 8] = [0; 8];
    assert(verifier@ =~= xdr::zeros(8));
    out.fixed(verifier.as_slice());
    out.u32_be(count);
    out
}

/// The directory a `READDIR` lists.
///
/// # Errors
/// Where the arguments are cut short.
pub fn take_readdir_args(arguments: &[u8]) -> (taken: Result<Handle>)
    ensures
        match parse_first_handle(arguments@) {
            Ok(dir) => taken is Ok && taken->Ok_0@ == dir,
            Err(failure) => taken is Err && taken->Err_0@ == failure,
        },
{
    Handle::take(&mut Cursor::new(arguments))
}

/// What each of `names` says.
pub open spec fn texts(names: Seq<String>) -> Seq<Seq<char>> {
    Seq::new(names.len(), |i: int| names[i]@)
}

/// The number `value` as eight bytes can say it.
pub open spec fn wrapped(value: nat) -> u64 {
    (value % 0x1_0000_0000_0000_0000) as u64
}

/// One name of a listing, the one at `index`: that there is one, its file
/// id, the name, and the cookie that stands for it.
pub open spec fn entry_bytes(name: Seq<char>, index: nat) -> Seq<u8> {
    xdr::bool_bytes(true) + writer::u64_bytes(wrapped(index + 2)) + xdr::string_bytes(name)
        + writer::u64_bytes(wrapped(index + 1))
}

/// The names of a listing, one after another.
pub open spec fn entries_bytes(names: Seq<Seq<char>>) -> Seq<u8>
    decreases names.len(),
{
    if names.len() == 0 {
        Seq::empty()
    } else {
        entries_bytes(names.drop_last()) + entry_bytes(names.last(), (names.len() - 1) as nat)
    }
}

/// A successful `READDIR` result listing every name, the whole directory.
pub open spec fn readdir_ok_bytes(names: Seq<Seq<char>>) -> Seq<u8> {
    writer::u32_bytes(OK) + xdr::bool_bytes(false) + xdr::fixed_bytes(xdr::zeros(8))
        + entries_bytes(names) + xdr::bool_bytes(false) + xdr::bool_bytes(true)
}

/// Whether a name in a listing is the directory itself or the one above it.
pub open spec fn is_dots(name: Seq<char>) -> bool {
    name == "."@ || name == ".."@
}

/// `names` without `.` and `..`.
pub open spec fn without_dots(names: Seq<Seq<char>>) -> Seq<Seq<char>> {
    names.filter(|name: Seq<char>| !is_dots(name))
}

/// The next name of a listing off the front of `bytes`, or none where a flag
/// says there are no more.
pub open spec fn read_entry(bytes: Seq<u8>) -> Read<Option<Seq<char>>> {
    match xdr::read_bool(bytes) {
        Ok((more, rest)) => if more {
            match cursor::read_u64(rest) {
                Ok((_, rest)) => match xdr::read_string(rest) {
                    Ok((name, rest)) => match cursor::read_u64(rest) {
                        Ok((_, rest)) => Ok((Some(name), rest)),
                        Err(failure) => Err(failure),
                    },
                    Err(failure) => Err(failure),
                },
                Err(failure) => Err(failure),
            }
        } else {
            Ok((None, rest))
        },
        Err(failure) => Err(failure),
    }
}

/// The names of a listing off the front of `bytes`, to the flag that says
/// there are no more.
pub open spec fn read_entries(bytes: Seq<u8>) -> Read<Seq<Seq<char>>>
    decreases bytes.len(),
{
    match read_entry(bytes) {
        Ok((Some(name), rest)) => match read_entries(rest) {
            Ok((names, rest)) => Ok((seq![name] + names, rest)),
            Err(failure) => Err(failure),
        },
        Ok((None, rest)) => Ok((Seq::empty(), rest)),
        Err(failure) => Err(failure),
    }
}

/// The names of a listing to its end, `.` and `..` left out, where the flag
/// behind them says that they are all.
#[verifier::opaque]
pub open spec fn parse_names(bytes: Seq<u8>) -> Carried<Seq<Seq<char>>> {
    match read_entries(bytes) {
        Ok((names, rest)) => match xdr::read_bool(rest) {
            Ok((eof, _)) => if eof {
                Ok(without_dots(names))
            } else {
                Err(error::permanent_failure("a directory longer than one listing"@))
            },
            Err(failure) => Err(failure),
        },
        Err(failure) => Err(failure),
    }
}

/// The names a `READDIR` result carries.
pub open spec fn parse_readdir(results: Seq<u8>) -> Carried<Seq<Seq<char>>> {
    match status::after_ok(results, "listing"@) {
        Ok(rest) => match past_attributes(rest) {
            Ok(rest) => match xdr::read_fixed(rest, 8) {
                Ok((_, rest)) => parse_names(rest),
                Err(failure) => Err(failure),
            },
            Err(failure) => Err(failure),
        },
        Err(failure) => Err(failure),
    }
}

/// One name of a listing, the one at `index`.
fn put_entry(out: &mut Vec<u8>, name: &str, index: usize)
    ensures
        final(out)@ == old(out)@ + entry_bytes(name@, index as nat),
{
    let id = (index as u64).wrapping_add(2);
    let cookie = (index as u64).wrapping_add(1);
    assert(id == wrapped(index as nat + 2) && cookie == wrapped(index as nat + 1));
    out.bool(true);
    out.u64_be(id);
    out.string(name);
    out.u64_be(cookie);
    proof {
        let more = xdr::bool_bytes(true);
        let id = writer::u64_bytes(id);
        let name = xdr::string_bytes(name@);
        let cookie = writer::u64_bytes(cookie);
        xdr::runs_regroup(old(out)@, more, id);
        xdr::runs_regroup(old(out)@, more + id, name);
        xdr::runs_regroup(old(out)@, more + id + name, cookie);
    }
}

/// A successful `READDIR` result listing every name, the whole directory.
#[must_use]
pub fn readdir_ok(names: &[String]) -> (out: Vec<u8>)
    ensures
        out@ == readdir_ok_bytes(texts(names@)),
{
    let mut out = Vec::new();
    out.u32_be(OK);
    assert(out@ =~= writer::u32_bytes(OK));
    put_no_attributes(&mut out);
    let verifier: [u8; 8] = [0; 8];
    assert(verifier@ =~= xdr::zeros(8));
    out.fixed(verifier.as_slice());
    let ghost head = out@;
    let ghost listed = texts(names@);
    let mut index: usize = 0;
    assert(out@ =~= head + entries_bytes(listed.take(0)));
    while index < names.len()
        invariant
            index <= names@.len(),
            listed == texts(names@),
            out@ == head + entries_bytes(listed.take(index as int)),
        decreases names@.len() - index,
    {
        put_entry(&mut out, names[index].as_str(), index);
        proof {
            let now = listed.take(index as int + 1);
            assert(now.drop_last() =~= listed.take(index as int));
            xdr::runs_regroup(
                head,
                entries_bytes(listed.take(index as int)),
                entry_bytes(now.last(), index as nat),
            );
        }
        index += 1;
    }
    assert(listed.take(index as int) =~= listed);
    out.bool(false);
    out.bool(true);
    out
}

/// `names` put before what reading a listing gave.
spec fn prepended(names: Seq<Seq<char>>, read: Read<Seq<Seq<char>>>) -> Read<Seq<Seq<char>>> {
    match read {
        Ok((more, rest)) => Ok((names + more, rest)),
        Err(failure) => Err(failure),
    }
}

/// The next name of a listing, or none where there are no more.
fn take_entry(reader: &mut Cursor<'_>) -> (taken: Result<Option<String>>)
    ensures
        match read_entry(old(reader)@) {
            Ok((Some(name), rest)) => taken is Ok && taken->Ok_0 is Some && taken->Ok_0->Some_0@
                == name && final(reader)@ == rest && rest.len() < old(reader)@.len(),
            Ok((None, rest)) => taken is Ok && taken->Ok_0 is None && final(reader)@ == rest,
            Err(failure) => taken is Err && taken->Err_0@ == failure,
        },
{
    if !reader.bool()? {
        return Ok(None);
    }
    reader.u64_be()?;
    let name = reader.string()?;
    reader.u64_be()?;
    Ok(Some(name))
}

/// Where one more name leaves what a listing is read as.
proof fn one_more_entry(start: Seq<u8>, passed: Seq<Seq<char>>, name: Seq<char>, bytes: Seq<u8>)
    requires
        read_entries(start) == prepended(passed, read_entries(bytes)),
        read_entry(bytes) is Ok,
        read_entry(bytes)->Ok_0.0 == Some(name),
    ensures
        read_entries(start) == prepended(
            passed.push(name),
            read_entries(read_entry(bytes)->Ok_0.1),
        ),
        without_dots(passed.push(name)) == (if is_dots(name) {
            without_dots(passed)
        } else {
            without_dots(passed).push(name)
        }),
{
    let rest = read_entry(bytes)->Ok_0.1;
    if let Ok((names, _)) = read_entries(rest) {
        assert(passed + (seq![name] + names) =~= passed.push(name) + names);
    }
    assert(passed.push(name).drop_last() =~= passed);
    reveal(Seq::filter);
}

/// Every name of a listing, `.` and `..` left out.
fn take_entries(reader: &mut Cursor<'_>) -> (taken: Result<Vec<String>>)
    ensures
        match read_entries(old(reader)@) {
            Ok((names, rest)) => taken is Ok && texts(taken->Ok_0@) == without_dots(names)
                && final(reader)@ == rest,
            Err(failure) => taken is Err && taken->Err_0@ == failure,
        },
{
    let ghost start = reader@;
    let ghost mut passed: Seq<Seq<char>> = Seq::empty();
    let mut names: Vec<String> = Vec::new();
    proof {
        assert(texts(names@) =~= without_dots(passed)) by {
            reveal(Seq::filter);
        }
        if let Ok((all, _)) = read_entries(start) {
            assert(passed + all =~= all);
        }
    }
    loop
        invariant
            start == old(reader)@,
            texts(names@) == without_dots(passed),
            read_entries(start) == prepended(passed, read_entries(reader@)),
        decreases reader@.len(),
    {
        let ghost here = reader@;
        match take_entry(reader)? {
            None => {
                assert(passed + Seq::<Seq<char>>::empty() =~= passed);
                return Ok(names);
            },
            Some(name) => {
                proof {
                    one_more_entry(start, passed, name@, here);
                    passed = passed.push(name@);
                }
                if !text::same_text(name.as_str(), ".") && !text::same_text(name.as_str(), "..") {
                    let ghost kept = texts(names@);
                    let ghost last = name@;
                    names.push(name);
                    assert(texts(names@) =~= kept.push(last));
                }
            },
        }
    }
}

/// The names a `READDIR` result carries, `.` and `..` left out.
///
/// # Errors
/// Where the listing failed, or did not reach the end of the directory.
pub fn take_readdir(results: &[u8]) -> (taken: Result<Vec<String>>)
    ensures
        match parse_readdir(results@) {
            Ok(names) => taken is Ok && texts(taken->Ok_0@) == names,
            Err(failure) => taken is Err && taken->Err_0@ == failure,
        },
{
    let mut reader = Cursor::new(results);
    expect_ok(&mut reader, "listing")?;
    skip_attributes(&mut reader)?;
    reader.fixed(8)?;
    proof {
        reveal(parse_names);
    }
    let names = take_entries(&mut reader)?;
    if !reader.bool()? {
        return Err(protocol_error("a directory longer than one listing"));
    }
    Ok(names)
}

/// What a directory and a name are put as is what is taken, whatever follows.
pub proof fn dir_args_read_back(dir: Seq<u8>, name: Seq<char>, rest: Seq<u8>)
    requires
        dir.len() <= 64,
        utf8::encode_utf8(name).len() <= u32::MAX,
    ensures
        parse_dir_args(dir_args_bytes(dir, name) + rest) == Ok::<_, Failure>((dir, name)),
        parse_dir_args(dir_args_bytes(dir, name)) == Ok::<_, Failure>((dir, name)),
        parse_dir_args(create_args_bytes(dir, name)) == Ok::<_, Failure>((dir, name)),
{
    broadcast use xdr::group_reads_back;

    let bytes = dir_args_bytes(dir, name);
    assert(bytes + Seq::<u8>::empty() =~= bytes);
    let empty = xdr::string_bytes(name) + Seq::<u8>::empty();
    assert(bytes + Seq::<u8>::empty() == xdr::opaque_bytes(dir) + empty);
    let how = writer::u32_bytes(0) + no_settings();
    assert(create_args_bytes(dir, name) =~= bytes + how);
}

/// The handle in a successful `LOOKUP` or `CREATE` result is the one taken.
pub proof fn handle_ok_reads_back(handle: Seq<u8>, procedure: u32)
    requires
        handle.len() <= 64,
    ensures
        parse_handle(handle_ok_bytes(handle, procedure), procedure) == Ok::<_, Failure>(handle),
{
    broadcast use xdr::group_reads_back;

}

/// What a `READ` asks for is what is taken.
pub proof fn read_args_read_back(file: Seq<u8>, offset: u64, count: u32)
    requires
        file.len() <= 64,
    ensures
        parse_read_args(read_args_bytes(file, offset, count)) == Ok::<_, Failure>(
            (file, offset, count),
        ),
{
    broadcast use xdr::group_reads_back;

    let last = writer::u32_bytes(count);
    assert(last + Seq::<u8>::empty() =~= last);
}

/// The bytes in a successful `READ` result are the bytes taken, and so is
/// whether the file ends there.
pub proof fn read_ok_reads_back(data: Seq<u8>, eof: bool)
    requires
        data.len() <= u32::MAX,
    ensures
        parse_read(read_ok_bytes(data, eof)) == Ok::<_, Failure>((data, eof)),
{
    broadcast use xdr::group_reads_back;

    let last = xdr::opaque_bytes(data);
    assert(last + Seq::<u8>::empty() =~= last);
}

/// What a `WRITE` carries is what is taken.
pub proof fn write_args_read_back(file: Seq<u8>, offset: u64, data: Seq<u8>)
    requires
        file.len() <= 64,
        data.len() <= u32::MAX,
    ensures
        parse_write_args(write_args_bytes(file, offset, data)) == Ok::<_, Failure>(
            (file, offset, data),
        ),
{
    broadcast use xdr::group_reads_back;

    let last = xdr::opaque_bytes(data);
    assert(last + Seq::<u8>::empty() =~= last);
}

/// The count in a successful `WRITE` result is the count taken.
pub proof fn write_ok_reads_back(count: u32, verifier: Seq<u8>)
    ensures
        parse_write(write_ok_bytes(count, verifier)) == Ok::<_, Failure>(count),
{
    broadcast use xdr::group_reads_back;

}

/// The file a `COMMIT` is put for, and the directory a `READDIR` is, is the
/// one taken.
pub proof fn first_handle_reads_back(handle: Seq<u8>, count: u32)
    requires
        handle.len() <= 64,
    ensures
        parse_first_handle(commit_args_bytes(handle)) == Ok::<_, Failure>(handle),
        parse_first_handle(readdir_args_bytes(handle, count)) == Ok::<_, Failure>(handle),
{
    broadcast use xdr::group_reads_back;

}

/// A successful `COMMIT` or `REMOVE` is taken as done.
pub proof fn done_reads_back(verifier: Seq<u8>, what: Seq<char>)
    ensures
        parse_done(commit_ok_bytes(verifier), what) == Ok::<_, Failure>(()),
        parse_done(remove_ok_bytes(), what) == Ok::<_, Failure>(()),
{
    broadcast use xdr::group_reads_back;

}

/// Whatever failed, what is taken of it is the failure its status names.
pub proof fn failures_read_back(status: u32, procedure: u32, what: Seq<char>)
    requires
        status != OK,
    ensures
        parse_handle(failure_bytes(status, procedure), procedure) == Err::<Seq<u8>, _>(
            status::status_failure("looking up"@, status),
        ),
        parse_read(failure_bytes(status, procedure)) == Err::<(Seq<u8>, bool), _>(
            status::status_failure("reading"@, status),
        ),
        parse_write(failure_bytes(status, procedure)) == Err::<u32, _>(
            status::status_failure("writing"@, status),
        ),
        parse_done(failure_bytes(status, procedure), what) == Err::<(), _>(
            status::status_failure(what, status),
        ),
        parse_readdir(failure_bytes(status, procedure)) == Err::<Seq<Seq<char>>, _>(
            status::status_failure("listing"@, status),
        ),
{
    broadcast use xdr::group_reads_back;

}

/// Attributes are skipped where a server sends them: what follows is the same
/// whether or not they are there.
pub proof fn attributes_are_skipped(before: Seq<u8>, after: Seq<u8>, rest: Seq<u8>)
    requires
        before.len() == 24,
        after.len() == 84,
    ensures
        past_attributes(xdr::bool_bytes(false) + rest) == Ok::<_, Failure>(rest),
        past_attributes(xdr::bool_bytes(true) + after + rest) == Ok::<_, Failure>(rest),
        past_wcc(xdr::bool_bytes(false) + xdr::bool_bytes(false) + rest) == Ok::<_, Failure>(rest),
        past_wcc(xdr::bool_bytes(true) + before + xdr::bool_bytes(true) + after + rest) == Ok::<
            _,
            Failure,
        >(rest),
{
    broadcast use xdr::group_reads_back;

    assert(xdr::fixed_bytes(before) =~= before);
    assert(xdr::fixed_bytes(after) =~= after);
    let rest1 = xdr::bool_bytes(true) + (after + rest);
    assert(xdr::read_fixed(xdr::fixed_bytes(after) + rest, 84) == Ok::<_, Failure>((after, rest)));
    assert(xdr::read_fixed(xdr::fixed_bytes(before) + rest1, 24) == Ok::<_, Failure>(
        (before, rest1),
    ));
}

/// The names of a listing from the one at `from` on, one after another.
spec fn entries_from(names: Seq<Seq<char>>, from: nat) -> Seq<u8>
    decreases names.len() - from,
{
    if from < names.len() {
        entry_bytes(names[from as int], from) + entries_from(names, from + 1)
    } else {
        Seq::empty()
    }
}

/// The names up to one and the names from it on make the listing.
proof fn entries_split(names: Seq<Seq<char>>, at: nat)
    requires
        at <= names.len(),
    ensures
        entries_bytes(names.take(at as int)) + entries_from(names, at) == entries_bytes(names),
    decreases names.len() - at,
{
    if at == names.len() {
        assert(names.take(at as int) =~= names);
        assert(entries_bytes(names) + Seq::<u8>::empty() =~= entries_bytes(names));
    } else {
        entries_split(names, at + 1);
        let next = names.take(at as int + 1);
        assert(next.drop_last() =~= names.take(at as int));
        xdr::runs_regroup(
            entries_bytes(names.take(at as int)),
            entry_bytes(names[at as int], at),
            entries_from(names, at + 1),
        );
    }
}

/// One name put is one name read, before whatever follows.
proof fn entry_reads_back(name: Seq<char>, index: nat, rest: Seq<u8>)
    requires
        utf8::encode_utf8(name).len() <= u32::MAX,
    ensures
        read_entries(entry_bytes(name, index) + rest) == prepended(seq![name], read_entries(rest)),
{
    let cookie = writer::u64_bytes(wrapped(index + 1));
    let id = writer::u64_bytes(wrapped(index + 2));
    let named = xdr::string_bytes(name);
    let more = xdr::bool_bytes(true);
    let all = more + (id + (named + (cookie + rest)));
    assert(entry_bytes(name, index) + rest == all) by {
        xdr::runs_regroup(more + id + named, cookie, rest);
        xdr::runs_regroup(more + id, named, cookie + rest);
        xdr::runs_regroup(more, id, named + (cookie + rest));
    }
    assert(read_entry(all) == Ok::<_, Failure>((Some(name), rest))) by {
        writer::u64_reads_back(wrapped(index + 1), rest);
        xdr::string_reads_back(name, cookie + rest);
        writer::u64_reads_back(wrapped(index + 2), named + (cookie + rest));
        xdr::bool_reads_back(true, id + (named + (cookie + rest)));
    }
}

/// The names put from one on are the names read, to the flag that ends them.
proof fn entries_read_back(names: Seq<Seq<char>>, from: nat, rest: Seq<u8>)
    requires
        from <= names.len(),
        forall|i: int|
            0 <= i < names.len() ==> utf8::encode_utf8(#[trigger] names[i]).len() <= u32::MAX,
    ensures
        read_entries(entries_from(names, from) + (xdr::bool_bytes(false) + rest)) == Ok::<
            _,
            Failure,
        >((names.skip(from as int), rest)),
    decreases names.len() - from,
{
    let tail = xdr::bool_bytes(false) + rest;
    if from == names.len() {
        assert(entries_from(names, from) == Seq::<u8>::empty());
        assert(Seq::<u8>::empty() + tail =~= tail);
        assert(names.skip(from as int) =~= Seq::empty());
        assert(read_entries(tail) == Ok::<_, Failure>((Seq::<Seq<char>>::empty(), rest))) by {
            xdr::bool_reads_back(false, rest);
        }
    } else {
        let name = names[from as int];
        let after = entries_from(names, from + 1);
        assert(entries_from(names, from) + tail == entry_bytes(name, from) + (after + tail)) by {
            xdr::runs_regroup(entry_bytes(name, from), after, tail);
        }
        assert(seq![name] + names.skip(from as int + 1) =~= names.skip(from as int));
        entries_read_back(names, from + 1, rest);
        entry_reads_back(name, from, after + tail);
    }
}

/// The names listed are the names taken, in their order, `.` and `..` left
/// out.
pub proof fn readdir_ok_reads_back(names: Seq<Seq<char>>)
    requires
        forall|i: int|
            0 <= i < names.len() ==> utf8::encode_utf8(#[trigger] names[i]).len() <= u32::MAX,
    ensures
        parse_readdir(readdir_ok_bytes(names)) == Ok::<_, Failure>(without_dots(names)),
{
    let eof = xdr::bool_bytes(true);
    let flags = xdr::bool_bytes(false) + eof;
    let entries = entries_bytes(names);
    let status = writer::u32_bytes(OK);
    let absent = xdr::bool_bytes(false);
    let verifier = xdr::fixed_bytes(xdr::zeros(8));
    assert(entries_from(names, 0) == entries) by {
        entries_split(names, 0);
        assert(names.take(0) =~= Seq::empty());
        assert(Seq::<u8>::empty() + entries_from(names, 0) =~= entries_from(names, 0));
    }
    assert(read_entries(entries + flags) == Ok::<_, Failure>((names, eof))) by {
        entries_read_back(names, 0, eof);
        assert(names.skip(0) =~= names);
    }
    assert(xdr::read_bool(eof) == Ok::<_, Failure>((true, Seq::<u8>::empty()))) by {
        xdr::bool_reads_back(true, Seq::empty());
        assert(eof + Seq::<u8>::empty() =~= eof);
    }
    assert(parse_names(entries + flags) == Ok::<_, Failure>(without_dots(names))) by {
        reveal(parse_names);
    }
    assert(readdir_ok_bytes(names) == status + (absent + (verifier + (entries + flags)))) by {
        xdr::runs_regroup(status + absent + verifier + entries, xdr::bool_bytes(false), eof);
        xdr::runs_regroup(status + absent + verifier, entries, flags);
        xdr::runs_regroup(status + absent, verifier, entries + flags);
        xdr::runs_regroup(status, absent, verifier + (entries + flags));
    }
    status::failures_are_named("listing"@, OK, absent + (verifier + (entries + flags)));
    xdr::bool_reads_back(false, verifier + (entries + flags));
    xdr::fixed_reads_back(xdr::zeros(8), 8, entries + flags);
}

} // verus!
