//! The mount program, version 3 (RFC 1813 appendix I): `MNT` hands out the
//! root handle of an export, `UMNT` says it is no longer in use. Spoken on
//! the same connection as NFS here.

use vstd::prelude::*;
#[allow(unused_imports)]
use vstd::utf8;

use crate::cursor::Cursor;
#[allow(unused_imports)]
use crate::error::Failure;
use crate::error::Result;
#[allow(unused_imports)]
use crate::procedure::{self, Carried};
use crate::procedure::Handle;
#[allow(unused_imports)]
use crate::status;
use crate::status::{expect_ok, OK};
#[allow(unused_imports)]
use crate::writer;
use crate::writer::ByteWriter;
#[allow(unused_imports)]
use crate::xdr;
use crate::xdr::{Xdr, XdrWrite};

verus! {

/// `MOUNTPROC3_MNT`.
pub const MNT: u32 = 1;

/// `MOUNTPROC3_UMNT`.
pub const UMNT: u32 = 3;

/// The path a `MNT` or `UMNT` names.
pub open spec fn parse_args(arguments: Seq<u8>) -> Carried<Seq<char>> {
    match xdr::read_string(arguments) {
        Ok((export, _)) => Ok(export),
        Err(failure) => Err(failure),
    }
}

/// `MNT` arguments and `UMNT` arguments: the export's path.
#[must_use]
pub fn args(export: &str) -> (out: Vec<u8>)
    ensures
        out@ == xdr::string_bytes(export@),
{
    let mut out = Vec::new();
    out.string(export);
    assert(out@ =~= xdr::string_bytes(export@));
    out
}

/// The path a `MNT` or `UMNT` names.
///
/// # Errors
/// Where the arguments are cut short.
pub fn take_args(arguments: &[u8]) -> (taken: Result<String>)
    ensures
        match parse_args(arguments@) {
            Ok(export) => taken is Ok && taken->Ok_0@ == export,
            Err(failure) => taken is Err && taken->Err_0@ == failure,
        },
{
    Cursor::new(arguments).string()
}

/// A successful `MNT` result: the root handle, `AUTH_UNIX` the one flavor.
pub open spec fn ok_bytes(root: Seq<u8>) -> Seq<u8> {
    writer::u32_bytes(OK) + xdr::opaque_bytes(root) + writer::u32_bytes(1) + writer::u32_bytes(1)
}

/// The root handle a `MNT` result carries.
pub open spec fn parse_root(results: Seq<u8>) -> Carried<Seq<u8>> {
    match status::after_ok(results, "mounting"@) {
        Ok(rest) => procedure::parse_first_handle(rest),
        Err(failure) => Err(failure),
    }
}

/// A successful `MNT` result: the root handle, `AUTH_UNIX` the one flavor.
#[must_use]
pub fn ok(root: &Handle) -> (out: Vec<u8>)
    ensures
        out@ == ok_bytes(root@),
{
    let mut out = Vec::new();
    out.u32_be(OK);
    root.put(&mut out);
    out.u32_be(1);
    out.u32_be(1);
    assert(out@ =~= ok_bytes(root@));
    out
}

/// A failed `MNT` result: the errno.
#[must_use]
pub fn failure(status: u32) -> (out: Vec<u8>)
    ensures
        out@ == writer::u32_bytes(status),
{
    let mut out = Vec::new();
    out.u32_be(status);
    assert(out@ =~= writer::u32_bytes(status));
    out
}

/// The root handle a `MNT` result carries.
///
/// # Errors
/// Where the mount was refused.
pub fn take(results: &[u8]) -> (taken: Result<Handle>)
    ensures
        match parse_root(results@) {
            Ok(root) => taken is Ok && taken->Ok_0@ == root,
            Err(failure) => taken is Err && taken->Err_0@ == failure,
        },
{
    let mut reader = Cursor::new(results);
    expect_ok(&mut reader, "mounting")?;
    Handle::take(&mut reader)
}

/// The path a mount is put for is the path taken.
pub proof fn args_read_back(export: Seq<char>)
    requires
        utf8::encode_utf8(export).len() <= u32::MAX,
    ensures
        parse_args(xdr::string_bytes(export)) == Ok::<_, Failure>(export),
{
    let bytes = xdr::string_bytes(export);
    assert(bytes + Seq::<u8>::empty() =~= bytes);
    xdr::string_reads_back(export, Seq::empty());
}

/// The root handed out is the root taken.
pub proof fn ok_reads_back(root: Seq<u8>)
    requires
        root.len() <= 64,
    ensures
        parse_root(ok_bytes(root)) == Ok::<_, Failure>(root),
{
    broadcast use xdr::group_reads_back;

}

/// A refused mount is taken as the failure its errno names.
pub proof fn failure_reads_back(status: u32)
    requires
        status != OK,
    ensures
        parse_root(writer::u32_bytes(status)) == Err::<Seq<u8>, _>(
            status::status_failure("mounting"@, status),
        ),
{
    let bytes = writer::u32_bytes(status);
    assert(bytes + Seq::<u8>::empty() =~= bytes);
    status::failures_are_named("mounting"@, status, Seq::empty());
}

} // verus!
