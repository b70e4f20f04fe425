//! `nfsstat3` (RFC 1813 section 2.6): the status that opens every result,
//! the few that are answered with here, and what each means to a caller,
//! including the one that means try again.

use vstd::prelude::*;

#[allow(unused_imports)]
use crate::cursor;
use crate::cursor::Cursor;
#[allow(unused_imports)]
use crate::error::Failure;
use crate::error::{Result, TransportError};
use crate::text;
#[allow(unused_imports)]
use crate::writer;
#[allow(unused_imports)]
use crate::xdr;

verus! {

/// `NFS3_OK`.
pub const OK: u32 = 0;

/// `NFS3ERR_NOENT`: no such file.
pub const NOENT: u32 = 2;

/// `NFS3ERR_ACCES`: not permitted.
pub const ACCES: u32 = 13;

/// `NFS3ERR_FBIG`: too big a file.
pub const FBIG: u32 = 27;

/// `NFS3ERR_STALE`: a handle to something gone.
pub const STALE: u32 = 70;

/// `NFS3ERR_JUKEBOX`: not now, later.
pub const JUKEBOX: u32 = 10008;

/// What a status means, in words.
pub open spec fn meaning(status: u32) -> Seq<char> {
    if status == 1 {
        "not permitted"@
    } else if status == NOENT {
        "no such file or directory"@
    } else if status == 5 {
        "an I/O error"@
    } else if status == ACCES {
        "access denied"@
    } else if status == 17 {
        "it exists already"@
    } else if status == 20 {
        "not a directory"@
    } else if status == 21 {
        "a directory"@
    } else if status == FBIG {
        "too big a file"@
    } else if status == 28 {
        "no space left"@
    } else if status == 30 {
        "a read-only file system"@
    } else if status == STALE {
        "a stale file handle"@
    } else if status == 10001 {
        "a bad file handle"@
    } else if status == 10004 {
        "not supported"@
    } else if status == JUKEBOX {
        "try again later"@
    } else {
        "an error"@
    }
}

/// The failure a status names: what was being done, the number and its
/// meaning, worth another try only where the server said later.
pub open spec fn status_failure(what: Seq<char>, status: u32) -> Failure {
    Failure {
        message: what + ": NFS status "@ + text::decimal(status as nat) + ", "@ + meaning(status),
        retryable: status == JUKEBOX,
    }
}

/// What follows the status that opens `bytes`, where that is OK.
pub open spec fn after_ok(bytes: Seq<u8>, what: Seq<char>) -> core::result::Result<
    Seq<u8>,
    Failure,
> {
    match cursor::read_u32(bytes) {
        Ok((status, rest)) => if status == OK {
            Ok(rest)
        } else {
            Err(status_failure(what, status))
        },
        Err(failure) => Err(failure),
    }
}

/// The failure a status names, for a message: retryable only where the
/// server said later.
#[must_use]
pub fn status_error(what: &str, status: u32) -> (error: TransportError)
    ensures
        error@ == status_failure(what@, status),
{
    let name = match status {
        1 => "not permitted",
        NOENT => "no such file or directory",
        5 => "an I/O error",
        ACCES => "access denied",
        17 => "it exists already",
        20 => "not a directory",
        21 => "a directory",
        FBIG => "too big a file",
        28 => "no space left",
        30 => "a read-only file system",
        STALE => "a stale file handle",
        10001 => "a bad file handle",
        10004 => "not supported",
        JUKEBOX => "try again later",
        _ => "an error",
    };
    let mut message = what.to_owned();
    message.append(": NFS status ");
    message.append(text::number(status as u64).as_str());
    message.append(", ");
    message.append(name);
    if status == JUKEBOX {
        TransportError::retryable(message)
    } else {
        TransportError::permanent(message)
    }
}

/// Read the status that opens a result, and stop where it is not OK.
///
/// # Errors
/// The failure the status names.
pub fn expect_ok(reader: &mut Cursor<'_>, what: &str) -> (done: Result<()>)
    ensures
        final(reader).buffer() == old(reader).buffer(),
        final(reader)@ == xdr::past_count(old(reader)@),
        match after_ok(old(reader)@, what@) {
            Ok(rest) => done is Ok && final(reader)@ == rest,
            Err(failure) => done is Err && done->Err_0@ == failure,
        },
{
    match reader.u32_be()? {
        OK => Ok(()),
        other => Err(status_error(what, other)),
    }
}

/// Only the jukebox is worth another try.
pub proof fn only_the_jukebox_is_retryable(what: Seq<char>, status: u32)
    ensures
        status_failure(what, status).retryable <==> status == JUKEBOX,
{
}

/// A result that opens with any status but OK is read as the failure that
/// status names.
pub proof fn failures_are_named(what: Seq<char>, status: u32, rest: Seq<u8>)
    ensures
        after_ok(writer::u32_bytes(status) + rest, what) == (if status == OK {
            Ok::<_, Failure>(rest)
        } else {
            Err(status_failure(what, status))
        }),
{
    writer::u32_reads_back(status, rest);
}

/// A failed status is told with what was being done and its number in front
/// of its meaning, and is worth another try only where it is 10008, the
/// server's word for later.
pub proof fn statuses_are_told(what: Seq<char>, status: u32)
    ensures
        status_failure(what, status).message == what + ": NFS status "@ + text::decimal(
            status as nat,
        ) + ", "@ + meaning(status),
        status_failure(what, status).retryable <==> status == 10008,
{
}

/// The statuses that have a meaning of their own; any other is an error.
pub proof fn statuses_mean(status: u32)
    ensures
        meaning(1) == "not permitted"@,
        meaning(2) == "no such file or directory"@,
        meaning(5) == "an I/O error"@,
        meaning(13) == "access denied"@,
        meaning(17) == "it exists already"@,
        meaning(20) == "not a directory"@,
        meaning(21) == "a directory"@,
        meaning(27) == "too big a file"@,
        meaning(28) == "no space left"@,
        meaning(30) == "a read-only file system"@,
        meaning(70) == "a stale file handle"@,
        meaning(10001) == "a bad file handle"@,
        meaning(10004) == "not supported"@,
        meaning(10008) == "try again later"@,
        !(seq![1u32, 2, 5, 13, 17, 20, 21, 27, 28, 30, 70, 10001, 10004, 10008].contains(status))
            ==> meaning(status) == "an error"@,
{
    let told = seq![1u32, 2, 5, 13, 17, 20, 21, 27, 28, 30, 70, 10001, 10004, 10008];
    assert(told[0] == 1 && told[1] == 2 && told[2] == 5 && told[3] == 13 && told[4] == 17);
    assert(told[5] == 20 && told[6] == 21 && told[7] == 27 && told[8] == 28 && told[9] == 30);
    assert(told[10] == 70 && told[11] == 10001 && told[12] == 10004 && told[13] == 10008);
}

} // verus!
