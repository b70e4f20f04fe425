//! Where everything lies on the wire (RFC 4506, RFC 5531, RFC 1813), byte by
//! byte: what each message that is put holds at which place, and what each
//! message that is taken is read as, whoever put it.

use vstd::prelude::*;
#[allow(unused_imports)]
use vstd::utf8;

#[allow(unused_imports)]
use crate::cursor;
#[allow(unused_imports)]
use crate::error::{self, Failure};
#[allow(unused_imports)]
use crate::mount;
#[allow(unused_imports)]
use crate::procedure;
#[allow(unused_imports)]
use crate::rpc::{
    self, CallView, OutcomeView, Received, RecordView, ReplyView, UnixView, Wanted,
};
#[allow(unused_imports)]
use crate::status;
#[allow(unused_imports)]
use crate::text;
#[allow(unused_imports)]
use crate::writer;
#[allow(unused_imports)]
use crate::xdr;

verus! {

/// The number that the four bytes at a place are, most significant first.
#[verifier::opaque]
pub open spec fn u32_at(bytes: Seq<u8>, at: int) -> u32 {
    (bytes[at] * 0x100_0000 + bytes[at + 1] * 0x1_0000 + bytes[at + 2] * 0x100 + bytes[at
        + 3]) as u32
}

/// The number that the eight bytes at a place are, most significant first.
pub open spec fn u64_at(bytes: Seq<u8>, at: int) -> u64 {
    (u32_at(bytes, at) * 0x1_0000_0000 + u32_at(bytes, at + 4)) as u64
}

/// `count` up to the next multiple of four.
pub open spec fn rounded(count: int) -> int {
    (count + 3) / 4 * 4
}

/// Where a counted field ends, its padding included: four bytes that say how
/// many follow, those, and up to three more.
pub open spec fn field_end(bytes: Seq<u8>, at: int) -> int {
    at + 4 + rounded(u32_at(bytes, at) as int)
}

/// Whether a counted field is all there.
pub open spec fn has_field(bytes: Seq<u8>, at: int) -> bool {
    0 <= at && at + 4 <= bytes.len() && field_end(bytes, at) <= bytes.len()
}

/// What a counted field holds.
pub open spec fn field_at(bytes: Seq<u8>, at: int) -> Seq<u8> {
    bytes.subrange(at + 4, at + 4 + u32_at(bytes, at))
}

/// A number is read where it lies, and the four bytes are passed.
pub proof fn numbers_are_read(bytes: Seq<u8>, at: int)
    requires
        0 <= at <= bytes.len(),
    ensures
        cursor::read_u32(bytes.skip(at)) == (if at + 4 <= bytes.len() {
            Ok((u32_at(bytes, at), bytes.skip(at + 4)))
        } else {
            Err(error::runs_past())
        }),
{
    reveal(u32_at);
    if at + 4 <= bytes.len() {
        assert(bytes.skip(at).skip(4) =~= bytes.skip(at + 4));
    }
}

/// A long number is read where it lies, and the eight bytes are passed.
pub proof fn long_numbers_are_read(bytes: Seq<u8>, at: int)
    requires
        0 <= at <= bytes.len(),
    ensures
        cursor::read_u64(bytes.skip(at)) == (if at + 8 <= bytes.len() {
            Ok((u64_at(bytes, at), bytes.skip(at + 8)))
        } else {
            Err(error::runs_past())
        }),
{
    reveal(u32_at);
    if at + 8 <= bytes.len() {
        assert(bytes.skip(at).skip(8) =~= bytes.skip(at + 8));
        assert(bytes.skip(at).skip(4) =~= bytes.skip(at + 4));
    }
}

/// A flag is any number: zero is false, every other true.
pub proof fn flags_are_read(bytes: Seq<u8>, at: int)
    requires
        0 <= at <= bytes.len(),
    ensures
        xdr::read_bool(bytes.skip(at)) == (if at + 4 <= bytes.len() {
            Ok((u32_at(bytes, at) != 0, bytes.skip(at + 4)))
        } else {
            Err(error::runs_past())
        }),
{
    numbers_are_read(bytes, at);
}

/// Bytes that both sides know the number of are read where they lie, and
/// their padding is passed; where it is not there they are not read.
pub proof fn runs_are_read(bytes: Seq<u8>, at: int, count: nat)
    requires
        0 <= at <= bytes.len(),
    ensures
        xdr::read_fixed(bytes.skip(at), count) == (if at + rounded(count as int) <= bytes.len() {
            Ok((bytes.subrange(at, at + count), bytes.skip(at + rounded(count as int))))
        } else {
            Err(error::runs_past())
        }),
{
    assert(count + xdr::pad(count) == rounded(count as int));
    if at + rounded(count as int) <= bytes.len() {
        assert(bytes.skip(at).take(count as int) =~= bytes.subrange(at, at + count));
        assert(bytes.skip(at).skip(rounded(count as int)) =~= bytes.skip(
            at + rounded(count as int),
        ));
    }
}

/// A counted field is read where it lies, and its padding is passed.
pub proof fn fields_are_read(bytes: Seq<u8>, at: int)
    requires
        0 <= at <= bytes.len(),
    ensures
        xdr::read_opaque(bytes.skip(at)) == (if has_field(bytes, at) {
            Ok((field_at(bytes, at), bytes.skip(field_end(bytes, at))))
        } else {
            Err(error::runs_past())
        }),
{
    numbers_are_read(bytes, at);
    if at + 4 <= bytes.len() {
        runs_are_read(bytes, at + 4, u32_at(bytes, at) as nat);
    }
}

/// A string is a counted field, read as UTF-8.
pub proof fn strings_are_read(bytes: Seq<u8>, at: int)
    requires
        0 <= at <= bytes.len(),
    ensures
        xdr::read_string(bytes.skip(at)) == (if has_field(bytes, at) {
            Ok((text::text_of(field_at(bytes, at)), bytes.skip(field_end(bytes, at))))
        } else {
            Err(error::runs_past())
        }),
{
    fields_are_read(bytes, at);
}

/// What is skipped of none is all.
proof fn from_the_start(bytes: Seq<u8>)
    ensures
        bytes.skip(0) == bytes,
{
    assert(bytes.skip(0) =~= bytes);
}

/// Whether a file handle is all there, and is one: sixty-four bytes at most.
pub open spec fn has_handle(bytes: Seq<u8>, at: int) -> bool {
    has_field(bytes, at) && u32_at(bytes, at) <= 64
}

/// What is said where there is no handle.
pub open spec fn no_handle(bytes: Seq<u8>, at: int) -> Failure {
    if has_field(bytes, at) {
        error::permanent_failure("a file handle over sixty-four bytes"@)
    } else {
        error::runs_past()
    }
}

/// A handle is a counted field of sixty-four bytes at most.
pub proof fn handles_are_read(bytes: Seq<u8>, at: int)
    requires
        0 <= at <= bytes.len(),
    ensures
        procedure::read_handle(bytes.skip(at)) == (if has_handle(bytes, at) {
            Ok((field_at(bytes, at), bytes.skip(field_end(bytes, at))))
        } else {
            Err(no_handle(bytes, at))
        }),
{
    fields_are_read(bytes, at);
}

/// What a result says that opens with a status other than zero, or with none.
pub open spec fn refusal(results: Seq<u8>, what: Seq<char>) -> Failure {
    if results.len() < 4 {
        error::runs_past()
    } else {
        status::status_failure(what, u32_at(results, 0))
    }
}

/// Whether a result opens with the status zero.
pub open spec fn is_ok(results: Seq<u8>) -> bool {
    results.len() >= 4 && u32_at(results, 0) == 0
}

/// A result that opens with the status zero goes on behind it; any other is
/// the failure its status names, and one too short for a status is cut.
pub proof fn statuses_open_results(results: Seq<u8>, what: Seq<char>)
    ensures
        status::after_ok(results, what) == (if is_ok(results) {
            Ok(results.skip(4))
        } else {
            Err(refusal(results, what))
        }),
{
    from_the_start(results);
    numbers_are_read(results, 0);
}

/// `diropargs3` are a handle and then a name.
pub proof fn dir_args_are_read(arguments: Seq<u8>)
    ensures
        procedure::parse_dir_args(arguments) == (if !has_handle(arguments, 0) {
            Err(no_handle(arguments, 0))
        } else if !has_field(arguments, field_end(arguments, 0)) {
            Err(error::runs_past())
        } else {
            Ok(
                (
                    field_at(arguments, 0),
                    text::text_of(field_at(arguments, field_end(arguments, 0))),
                ),
            )
        }),
{
    from_the_start(arguments);
    handles_are_read(arguments, 0);
    if has_handle(arguments, 0) {
        strings_are_read(arguments, field_end(arguments, 0));
    }
}

/// A `READ` is of a handle, then eight bytes of offset, then four of count.
pub proof fn read_args_are_read(arguments: Seq<u8>)
    ensures
        ({
            let at = field_end(arguments, 0);
            procedure::parse_read_args(arguments) == (if !has_handle(arguments, 0) {
                Err(no_handle(arguments, 0))
            } else if arguments.len() < at + 12 {
                Err(error::runs_past())
            } else {
                Ok((field_at(arguments, 0), u64_at(arguments, at), u32_at(arguments, at + 8)))
            })
        }),
{
    from_the_start(arguments);
    handles_are_read(arguments, 0);
    if has_handle(arguments, 0) {
        let at = field_end(arguments, 0);
        long_numbers_are_read(arguments, at);
        if at + 8 <= arguments.len() {
            numbers_are_read(arguments, at + 8);
        }
    }
}

/// A `WRITE` is of a handle, then eight bytes of offset, four of count and
/// four of how stable, neither of which is looked at, and then the data.
pub proof fn write_args_are_read(arguments: Seq<u8>)
    ensures
        ({
            let at = field_end(arguments, 0);
            procedure::parse_write_args(arguments) == (if !has_handle(arguments, 0) {
                Err(no_handle(arguments, 0))
            } else if !has_field(arguments, at + 16) {
                Err(error::runs_past())
            } else {
                Ok((field_at(arguments, 0), u64_at(arguments, at), field_at(arguments, at + 16)))
            })
        }),
{
    from_the_start(arguments);
    handles_are_read(arguments, 0);
    if has_handle(arguments, 0) {
        let at = field_end(arguments, 0);
        long_numbers_are_read(arguments, at);
        if at + 8 <= arguments.len() {
            numbers_are_read(arguments, at + 8);
        }
        if at + 12 <= arguments.len() {
            numbers_are_read(arguments, at + 12);
        }
        if at + 16 <= arguments.len() {
            fields_are_read(arguments, at + 16);
        }
    }
}

/// A `COMMIT` and a `READDIR` are of the handle they open with.
pub proof fn first_handles_are_read(arguments: Seq<u8>)
    ensures
        procedure::parse_first_handle(arguments) == (if has_handle(arguments, 0) {
            Ok(field_at(arguments, 0))
        } else {
            Err(no_handle(arguments, 0))
        }),
{
    from_the_start(arguments);
    handles_are_read(arguments, 0);
}

/// A `MNT` and a `UMNT` name the path they open with.
pub proof fn mount_args_are_read(arguments: Seq<u8>)
    ensures
        mount::parse_args(arguments) == (if has_field(arguments, 0) {
            Ok(text::text_of(field_at(arguments, 0)))
        } else {
            Err(error::runs_past())
        }),
{
    from_the_start(arguments);
    strings_are_read(arguments, 0);
}

/// The root a `MNT` hands out lies behind its status.
pub proof fn roots_are_read(results: Seq<u8>)
    ensures
        mount::parse_root(results) == (if !is_ok(results) {
            Err(refusal(results, "mounting"@))
        } else if !has_handle(results, 4) {
            Err(no_handle(results, 4))
        } else {
            Ok(field_at(results, 4))
        }),
{
    statuses_open_results(results, "mounting"@);
    if is_ok(results) {
        handles_are_read(results, 4);
    }
}

/// The handle a `LOOKUP` gives lies behind its status; that of a `CREATE`
/// behind a flag that says that there is one.
pub proof fn handle_results_are_read(results: Seq<u8>, procedure: u32)
    ensures
        procedure::parse_handle(results, procedure) == (if !is_ok(results) {
            Err(refusal(results, "looking up"@))
        } else if procedure != 8 {
            if has_handle(results, 4) {
                Ok(field_at(results, 4))
            } else {
                Err(no_handle(results, 4))
            }
        } else if results.len() < 8 {
            Err(error::runs_past())
        } else if u32_at(results, 4) == 0 {
            Err(error::permanent_failure("the file was created without a handle"@))
        } else if has_handle(results, 8) {
            Ok(field_at(results, 8))
        } else {
            Err(no_handle(results, 8))
        }),
{
    statuses_open_results(results, "looking up"@);
    if is_ok(results) {
        flags_are_read(results, 4);
        handles_are_read(results, 4);
        if results.len() >= 8 {
            handles_are_read(results, 8);
        }
    }
}

/// Where the attributes of a file end: a flag, and eighty-four bytes where it
/// says that they are there.
pub open spec fn attributes_end(bytes: Seq<u8>, at: int) -> int {
    at + 4 + if u32_at(bytes, at) != 0 {
        84int
    } else {
        0
    }
}

/// Whether the attributes of a file are all there, or said not to be.
pub open spec fn has_attributes(bytes: Seq<u8>, at: int) -> bool {
    0 <= at && at + 4 <= bytes.len() && attributes_end(bytes, at) <= bytes.len()
}

/// Where the attributes of before a change end: a flag, and twenty-four
/// bytes where it says that they are there.
pub open spec fn before_end(bytes: Seq<u8>, at: int) -> int {
    at + 4 + if u32_at(bytes, at) != 0 {
        24int
    } else {
        0
    }
}

/// Whether the attributes of before and after a change are all there, or
/// said not to be.
pub open spec fn has_wcc(bytes: Seq<u8>, at: int) -> bool {
    0 <= at && at + 4 <= bytes.len() && has_attributes(bytes, before_end(bytes, at))
}

/// Attributes are passed, there or not.
pub proof fn attributes_are_passed(bytes: Seq<u8>, at: int)
    requires
        0 <= at <= bytes.len(),
    ensures
        procedure::past_attributes(bytes.skip(at)) == (if has_attributes(bytes, at) {
            Ok(bytes.skip(attributes_end(bytes, at)))
        } else {
            Err(error::runs_past())
        }),
{
    flags_are_read(bytes, at);
    if at + 4 <= bytes.len() {
        runs_are_read(bytes, at + 4, 84);
    }
}

/// The attributes of before and after a change are passed, there or not.
pub proof fn changes_are_passed(bytes: Seq<u8>, at: int)
    requires
        0 <= at <= bytes.len(),
    ensures
        procedure::past_wcc(bytes.skip(at)) == (if has_wcc(bytes, at) {
            Ok(bytes.skip(attributes_end(bytes, before_end(bytes, at))))
        } else {
            Err(error::runs_past())
        }),
{
    flags_are_read(bytes, at);
    if at + 4 <= bytes.len() {
        runs_are_read(bytes, at + 4, 24);
        if before_end(bytes, at) <= bytes.len() {
            attributes_are_passed(bytes, before_end(bytes, at));
        }
    }
}

/// What a `READ` gives: past the status and the attributes, four bytes of
/// count that are not looked at, a flag that says whether the file ends
/// there, and the data.
pub proof fn read_results_are_read(results: Seq<u8>)
    ensures
        ({
            let at = attributes_end(results, 4);
            procedure::parse_read(results) == (if !is_ok(results) {
                Err(refusal(results, "reading"@))
            } else if !has_attributes(results, 4) || !has_field(results, at + 8) {
                Err(error::runs_past())
            } else {
                Ok((field_at(results, at + 8), u32_at(results, at + 4) != 0))
            })
        }),
{
    statuses_open_results(results, "reading"@);
    if is_ok(results) {
        attributes_are_passed(results, 4);
        if has_attributes(results, 4) {
            let at = attributes_end(results, 4);
            numbers_are_read(results, at);
            if at + 4 <= results.len() {
                flags_are_read(results, at + 4);
            }
            if at + 8 <= results.len() {
                fields_are_read(results, at + 8);
            }
        }
    }
}

/// How much a `WRITE` wrote lies behind the status and the attributes of
/// before and after.
pub proof fn write_results_are_read(results: Seq<u8>)
    ensures
        ({
            let at = attributes_end(results, before_end(results, 4));
            procedure::parse_write(results) == (if !is_ok(results) {
                Err(refusal(results, "writing"@))
            } else if !has_wcc(results, 4) || at + 4 > results.len() {
                Err(error::runs_past())
            } else {
                Ok(u32_at(results, at))
            })
        }),
{
    statuses_open_results(results, "writing"@);
    if is_ok(results) {
        changes_are_passed(results, 4);
        if has_wcc(results, 4) {
            numbers_are_read(results, attributes_end(results, before_end(results, 4)));
        }
    }
}

/// A `COMMIT` and a `REMOVE` are done where the status is zero, whatever
/// follows it.
pub proof fn done_results_are_read(results: Seq<u8>, what: Seq<char>)
    ensures
        procedure::parse_done(results, what) == (if is_ok(results) {
            Ok(())
        } else {
            Err(refusal(results, what))
        }),
{
    statuses_open_results(results, what);
}

/// Where an entry of a listing ends: a flag that says that there is one,
/// eight bytes of file id, the name, eight bytes of cookie.
pub open spec fn entry_end(bytes: Seq<u8>, at: int) -> int {
    field_end(bytes, at + 12) + 8
}

/// An entry of a listing is read where it lies, and the listing goes on
/// behind it; a flag of zero ends it.
pub proof fn entries_are_read(bytes: Seq<u8>, at: int)
    requires
        0 <= at <= bytes.len(),
    ensures
        procedure::read_entries(bytes.skip(at)) == (if at + 4 > bytes.len() {
            Err(error::runs_past())
        } else if u32_at(bytes, at) == 0 {
            Ok((Seq::empty(), bytes.skip(at + 4)))
        } else if !has_field(bytes, at + 12) || entry_end(bytes, at) > bytes.len() {
            Err(error::runs_past())
        } else {
            match procedure::read_entries(bytes.skip(entry_end(bytes, at))) {
                Ok((names, rest)) => Ok(
                    (seq![text::text_of(field_at(bytes, at + 12))] + names, rest),
                ),
                Err(failure) => Err(failure),
            }
        }),
{
    flags_are_read(bytes, at);
    if at + 4 <= bytes.len() {
        long_numbers_are_read(bytes, at + 4);
        if at + 12 <= bytes.len() {
            strings_are_read(bytes, at + 12);
            if has_field(bytes, at + 12) {
                long_numbers_are_read(bytes, field_end(bytes, at + 12));
            }
        }
    }
}

/// The names a `READDIR` gives lie behind the status, the attributes and
/// eight bytes of verifier, and a flag behind them says that they are all.
pub proof fn listings_are_read(results: Seq<u8>)
    ensures
        ({
            let at = attributes_end(results, 4) + 8;
            procedure::parse_readdir(results) == (if !is_ok(results) {
                Err(refusal(results, "listing"@))
            } else if !has_attributes(results, 4) || at > results.len() {
                Err(error::runs_past())
            } else {
                match procedure::read_entries(results.skip(at)) {
                    Ok((names, rest)) => if rest.len() < 4 {
                        Err(error::runs_past())
                    } else if u32_at(rest, 0) == 0 {
                        Err(error::permanent_failure("a directory longer than one listing"@))
                    } else {
                        Ok(procedure::without_dots(names))
                    },
                    Err(failure) => Err(failure),
                }
            })
        }),
{
    if !is_ok(results) || !has_attributes(results, 4) || attributes_end(results, 4) + 8
        > results.len() {
        short_listings_are_refused(results);
    } else {
        names_open_behind_the_verifier(results);
    }
}

/// A listing that was refused, or that ends before its names.
proof fn short_listings_are_refused(results: Seq<u8>)
    requires
        !is_ok(results) || !has_attributes(results, 4) || attributes_end(results, 4) + 8
            > results.len(),
    ensures
        procedure::parse_readdir(results) == Err::<Seq<Seq<char>>, Failure>(
            if is_ok(results) {
                error::runs_past()
            } else {
                refusal(results, "listing"@)
            },
        ),
{
    statuses_open_results(results, "listing"@);
    if is_ok(results) {
        attributes_are_passed(results, 4);
        if has_attributes(results, 4) {
            runs_are_read(results, attributes_end(results, 4), 8);
        }
    }
}

/// A listing that goes on to its names.
proof fn names_open_behind_the_verifier(results: Seq<u8>)
    requires
        is_ok(results),
        has_attributes(results, 4),
        attributes_end(results, 4) + 8 <= results.len(),
    ensures
        procedure::parse_readdir(results) == (match procedure::read_entries(
            results.skip(attributes_end(results, 4) + 8),
        ) {
            Ok((names, rest)) => if rest.len() < 4 {
                Err(error::runs_past())
            } else if u32_at(rest, 0) == 0 {
                Err(error::permanent_failure("a directory longer than one listing"@))
            } else {
                Ok(procedure::without_dots(names))
            },
            Err(failure) => Err(failure),
        }),
{
    let at = attributes_end(results, 4);
    statuses_open_results(results, "listing"@);
    attributes_are_passed(results, 4);
    runs_are_read(results, at, 8);
    names_end_with_a_flag(results.skip(at + 8));
}

/// The names of a listing and the flag behind them.
proof fn names_end_with_a_flag(bytes: Seq<u8>)
    ensures
        procedure::parse_names(bytes) == (match procedure::read_entries(bytes) {
            Ok((names, rest)) => if rest.len() < 4 {
                Err(error::runs_past())
            } else if u32_at(rest, 0) == 0 {
                Err(error::permanent_failure("a directory longer than one listing"@))
            } else {
                Ok(procedure::without_dots(names))
            },
            Err(failure) => Err(failure),
        }),
{
    reveal(procedure::parse_names);
    if let Ok((_, rest)) = procedure::read_entries(bytes) {
        from_the_start(rest);
        flags_are_read(rest, 0);
    }
}

/// Of the names of a listing `.` and `..` are left out, and no other: the
/// rest stay as they are, in their order.
pub proof fn only_dots_are_left_out(names: Seq<Seq<char>>, name: Seq<char>)
    ensures
        procedure::without_dots(Seq::empty()) == Seq::<Seq<char>>::empty(),
        procedure::without_dots(names.push(name)) == (if name == seq!['.'] || name == seq![
            '.',
            '.',
        ] {
            procedure::without_dots(names)
        } else {
            procedure::without_dots(names).push(name)
        }),
{
    reveal(Seq::filter);
    reveal_strlit(".");
    reveal_strlit("..");
    assert("."@ =~= seq!['.']);
    assert(".."@ =~= seq!['.', '.']);
    assert(names.push(name).drop_last() =~= names);
}

/// A listing gives the same names whether or not the attributes of the
/// directory come with it.
pub proof fn listings_do_not_depend_on_attributes(attributes: Seq<u8>, rest: Seq<u8>)
    requires
        attributes.len() == 84,
    ensures
        ({
            let ok = seq![0u8, 0, 0, 0];
            let with = ok + seq![0u8, 0, 0, 1] + attributes + rest;
            let without = ok + seq![0u8, 0, 0, 0] + rest;
            procedure::parse_readdir(with) == procedure::parse_readdir(without)
        }),
{
    let ok = seq![0u8, 0, 0, 0];
    let with = ok + seq![0u8, 0, 0, 1] + attributes + rest;
    let without = ok + seq![0u8, 0, 0, 0] + rest;
    reveal(u32_at);
    listings_are_read(with);
    listings_are_read(without);
    assert(u32_at(with, 0) == 0 && u32_at(with, 4) == 1);
    assert(u32_at(without, 0) == 0 && u32_at(without, 4) == 0);
    if rest.len() >= 8 {
        assert(with.skip(100) =~= rest.skip(8));
        assert(without.skip(16) =~= rest.skip(8));
    }
}

/// Whether the four bytes at a place are this number.
#[verifier::opaque]
pub open spec fn says_u32(bytes: Seq<u8>, at: int, value: u32) -> bool {
    0 <= at && at + 4 <= bytes.len() && u32_at(bytes, at) == value
}

/// Whether the eight bytes at a place are this number.
#[verifier::opaque]
pub open spec fn says_u64(bytes: Seq<u8>, at: int, value: u64) -> bool {
    0 <= at && at + 8 <= bytes.len() && u64_at(bytes, at) == value
}

/// Whether the bytes at a place are these.
#[verifier::opaque]
pub open spec fn says_run(bytes: Seq<u8>, at: int, run: Seq<u8>) -> bool {
    0 <= at && at + run.len() <= bytes.len() && bytes.subrange(at, at + run.len()) == run
}

/// Whether the counted field at a place holds these bytes, padded with zeros.
#[verifier::opaque]
pub open spec fn says_field(bytes: Seq<u8>, at: int, run: Seq<u8>) -> bool {
    &&& has_field(bytes, at)
    &&& u32_at(bytes, at) == run.len()
    &&& field_at(bytes, at) == run
    &&& forall|i: int|
        at + 4 + run.len() <= i < field_end(bytes, at) ==> #[trigger] bytes[i] == 0
}

/// What is said stays said where more follows.
proof fn what_is_said_stays(said: Seq<u8>, more: Seq<u8>)
    ensures
        forall|at: int, value: u32| #[trigger]
            says_u32(said, at, value) ==> says_u32(said + more, at, value),
        forall|at: int, value: u64| #[trigger]
            says_u64(said, at, value) ==> says_u64(said + more, at, value),
        forall|at: int, run: Seq<u8>| #[trigger]
            says_run(said, at, run) ==> says_run(said + more, at, run),
        forall|at: int, run: Seq<u8>| #[trigger]
            says_field(said, at, run) ==> says_field(said + more, at, run),
{
    let all = said + more;
    assert forall|at: int| 0 <= at && at + 4 <= said.len() implies #[trigger] u32_at(all, at)
        == u32_at(said, at) by {
        reveal(u32_at);
    }
    assert forall|at: int, value: u32| #[trigger] says_u32(said, at, value) implies says_u32(
        all,
        at,
        value,
    ) by {
        reveal(says_u32);
    }
    assert forall|at: int, value: u64| #[trigger] says_u64(said, at, value) implies says_u64(
        all,
        at,
        value,
    ) by {
        reveal(says_u64);
    }
    assert forall|at: int, run: Seq<u8>| #[trigger] says_run(said, at, run) implies says_run(
        all,
        at,
        run,
    ) by {
        reveal(says_run);
        assert(all.subrange(at, at + run.len()) =~= said.subrange(at, at + run.len()));
    }
    assert forall|at: int, run: Seq<u8>| #[trigger] says_field(said, at, run) implies says_field(
        all,
        at,
        run,
    ) by {
        reveal(says_field);
        assert(field_at(all, at) =~= field_at(said, at));
    }
}

/// What is put first is put behind nothing.
proof fn first(bytes: Seq<u8>)
    ensures
        Seq::<u8>::empty() + bytes == bytes,
{
    assert(Seq::<u8>::empty() + bytes =~= bytes);
}

/// A number is put most significant byte first, in four bytes.
pub proof fn numbers_are_put(said: Seq<u8>, value: u32)
    ensures
        says_u32(said + writer::u32_bytes(value), said.len() as int, value),
        writer::u32_bytes(value).len() == 4,
{
    reveal(u32_at);
    reveal(says_u32);
    let bytes = writer::u32_bytes(value);
    let all = said + bytes;
    let at = said.len() as int;
    assert(all[at] == bytes[0] && all[at + 1] == bytes[1] && all[at + 2] == bytes[2] && all[at + 3]
        == bytes[3]);
}

/// A long number is put most significant byte first, in eight bytes.
pub proof fn long_numbers_are_put(said: Seq<u8>, value: u64)
    ensures
        says_u64(said + writer::u64_bytes(value), said.len() as int, value),
        writer::u64_bytes(value).len() == 8,
{
    let high = (value / 0x1_0000_0000) as u32;
    let low = (value % 0x1_0000_0000) as u32;
    numbers_are_put(said, high);
    numbers_are_put(said + writer::u32_bytes(high), low);
    what_is_said_stays(said + writer::u32_bytes(high), writer::u32_bytes(low));
    xdr::runs_regroup(said, writer::u32_bytes(high), writer::u32_bytes(low));
    reveal(says_u32);
    reveal(says_u64);
}

/// A flag is put as the number one or zero.
pub proof fn flags_are_put(said: Seq<u8>, value: bool)
    ensures
        says_u32(
            said + xdr::bool_bytes(value),
            said.len() as int,
            if value {
                1
            } else {
                0
            },
        ),
        xdr::bool_bytes(value).len() == 4,
{
    numbers_are_put(
        said,
        if value {
            1
        } else {
            0
        },
    );
}

/// Counted bytes are put behind their number, and zeros take them to a
/// multiple of four.
pub proof fn fields_are_put(said: Seq<u8>, run: Seq<u8>)
    requires
        run.len() <= u32::MAX,
    ensures
        says_field(said + xdr::opaque_bytes(run), said.len() as int, run),
        xdr::opaque_bytes(run).len() == 4 + rounded(run.len() as int),
{
    let count = writer::u32_bytes(run.len() as u32);
    let at = said.len() as int;
    let all = said + xdr::opaque_bytes(run);
    assert(all =~= said + count + xdr::fixed_bytes(run));
    numbers_are_put(said, run.len() as u32);
    what_is_said_stays(said + count, xdr::fixed_bytes(run));
    assert(says_u32(all, at, run.len() as u32));
    assert(u32_at(all, at) == run.len() && all.len() >= at + 4) by {
        reveal(says_u32);
    }
    assert(field_at(all, at) =~= run);
    reveal(says_field);
}

/// A string is put as its UTF-8 bytes, counted.
pub proof fn strings_are_put(said: Seq<u8>, name: Seq<char>)
    requires
        utf8::encode_utf8(name).len() <= u32::MAX,
    ensures
        says_field(said + xdr::string_bytes(name), said.len() as int, utf8::encode_utf8(name)),
        xdr::string_bytes(name).len() == 4 + rounded(utf8::encode_utf8(name).len() as int),
{
    fields_are_put(said, utf8::encode_utf8(name));
}

/// Eight bytes that both sides know the number of are put as they are.
pub proof fn eights_are_put(said: Seq<u8>, run: Seq<u8>)
    requires
        run.len() == 8,
    ensures
        says_run(said + xdr::fixed_bytes(run), said.len() as int, run),
        xdr::fixed_bytes(run).len() == 8,
{
    reveal(says_run);
    let all = said + xdr::fixed_bytes(run);
    assert(all.subrange(said.len() as int, said.len() as int + 8) =~= run);
}

/// `diropargs3` are put as the handle and then the name.
pub proof fn dir_args_are_put(dir: Seq<u8>, name: Seq<char>)
    requires
        dir.len() <= u32::MAX,
        utf8::encode_utf8(name).len() <= u32::MAX,
    ensures
        ({
            let put = procedure::dir_args_bytes(dir, name);
            let at = 4 + rounded(dir.len() as int);
            &&& says_field(put, 0, dir)
            &&& says_field(put, at, utf8::encode_utf8(name))
            &&& put.len() == at + 4 + rounded(utf8::encode_utf8(name).len() as int)
        }),
{
    let handle = xdr::opaque_bytes(dir);
    first(handle);
    fields_are_put(Seq::empty(), dir);
    strings_are_put(handle, name);
    what_is_said_stays(handle, xdr::string_bytes(name));
}

/// `CREATE` arguments are `diropargs3`, a zero for `UNCHECKED`, and six zeros
/// for the attributes that are not set.
pub proof fn create_args_are_put(dir: Seq<u8>, name: Seq<char>)
    requires
        dir.len() <= u32::MAX,
        utf8::encode_utf8(name).len() <= u32::MAX,
    ensures
        ({
            let put = procedure::create_args_bytes(dir, name);
            let at = 4 + rounded(dir.len() as int);
            let how = at + 4 + rounded(utf8::encode_utf8(name).len() as int);
            &&& says_field(put, 0, dir)
            &&& says_field(put, at, utf8::encode_utf8(name))
            &&& put.len() == how + 28
            &&& forall|i: int| how <= i < how + 28 ==> #[trigger] put[i] == 0
        }),
{
    dir_args_are_put(dir, name);
    let named = procedure::dir_args_bytes(dir, name);
    let zero = writer::u32_bytes(0);
    let how = zero + procedure::no_settings();
    xdr::runs_regroup(named, zero, procedure::no_settings());
    what_is_said_stays(named, how);
    assert(how.len() == 28);
    assert forall|i: int| 0 <= i < 28 implies #[trigger] how[i] == 0 by {}
    let put = procedure::create_args_bytes(dir, name);
    assert forall|i: int| named.len() <= i < named.len() + 28 implies #[trigger] put[i] == 0 by {
        assert(put[i] == how[i - named.len()]);
    }
}

/// `READ` arguments are the handle, the offset in eight bytes and the count
/// in four.
pub proof fn read_args_are_put(file: Seq<u8>, offset: u64, count: u32)
    requires
        file.len() <= u32::MAX,
    ensures
        ({
            let put = procedure::read_args_bytes(file, offset, count);
            let at = 4 + rounded(file.len() as int);
            &&& says_field(put, 0, file)
            &&& says_u64(put, at, offset)
            &&& says_u32(put, at + 8, count)
            &&& put.len() == at + 12
        }),
{
    let one = xdr::opaque_bytes(file);
    let two = one + writer::u64_bytes(offset);
    first(one);
    fields_are_put(Seq::empty(), file);
    long_numbers_are_put(one, offset);
    what_is_said_stays(one, writer::u64_bytes(offset));
    numbers_are_put(two, count);
    what_is_said_stays(two, writer::u32_bytes(count));
}

/// `WRITE` arguments are the handle, the offset in eight bytes, the count in
/// four, a two for `FILE_SYNC`, and the data.
pub proof fn write_args_are_put(file: Seq<u8>, offset: u64, data: Seq<u8>)
    requires
        file.len() <= u32::MAX,
        data.len() <= u32::MAX,
    ensures
        ({
            let put = procedure::write_args_bytes(file, offset, data);
            let at = 4 + rounded(file.len() as int);
            &&& says_field(put, 0, file)
            &&& says_u64(put, at, offset)
            &&& says_u32(put, at + 8, data.len() as u32)
            &&& says_u32(put, at + 12, 2)
            &&& says_field(put, at + 16, data)
            &&& put.len() == at + 20 + rounded(data.len() as int)
        }),
{
    let count = data.len() as u32;
    let one = xdr::opaque_bytes(file);
    let two = one + writer::u64_bytes(offset);
    let three = two + writer::u32_bytes(count);
    let four = three + writer::u32_bytes(2);
    first(one);
    fields_are_put(Seq::empty(), file);
    long_numbers_are_put(one, offset);
    what_is_said_stays(one, writer::u64_bytes(offset));
    numbers_are_put(two, count);
    what_is_said_stays(two, writer::u32_bytes(count));
    numbers_are_put(three, 2);
    what_is_said_stays(three, writer::u32_bytes(2));
    fields_are_put(four, data);
    what_is_said_stays(four, xdr::opaque_bytes(data));
}

/// `COMMIT` arguments are the handle and twelve zeros, the whole file;
/// `READDIR` arguments the handle, sixteen zeros, from the start, and the
/// count.
pub proof fn handle_args_are_put(handle: Seq<u8>, count: u32)
    requires
        handle.len() <= u32::MAX,
    ensures
        ({
            let put = procedure::commit_args_bytes(handle);
            let at = 4 + rounded(handle.len() as int);
            &&& says_field(put, 0, handle)
            &&& says_u64(put, at, 0)
            &&& says_u32(put, at + 8, 0)
            &&& put.len() == at + 12
        }),
        ({
            let put = procedure::readdir_args_bytes(handle, count);
            let at = 4 + rounded(handle.len() as int);
            &&& says_field(put, 0, handle)
            &&& says_u64(put, at, 0)
            &&& says_run(put, at + 8, seq![0u8, 0, 0, 0, 0, 0, 0, 0])
            &&& says_u32(put, at + 16, count)
            &&& put.len() == at + 20
        }),
{
    let one = xdr::opaque_bytes(handle);
    let two = one + writer::u64_bytes(0);
    let three = two + xdr::fixed_bytes(xdr::zeros(8));
    first(one);
    fields_are_put(Seq::empty(), handle);
    long_numbers_are_put(one, 0);
    what_is_said_stays(one, writer::u64_bytes(0));
    numbers_are_put(two, 0);
    what_is_said_stays(two, writer::u32_bytes(0));
    assert(xdr::zeros(8) =~= seq![0u8, 0, 0, 0, 0, 0, 0, 0]);
    eights_are_put(two, xdr::zeros(8));
    what_is_said_stays(two, xdr::fixed_bytes(xdr::zeros(8)));
    numbers_are_put(three, count);
    what_is_said_stays(three, writer::u32_bytes(count));
}

/// A run of bytes put behind others lies there.
proof fn runs_are_put(said: Seq<u8>, run: Seq<u8>)
    ensures
        says_run(said + run, said.len() as int, run),
{
    reveal(says_run);
    let all = said + run;
    assert(all.subrange(said.len() as int, said.len() as int + run.len()) =~= run);
}

/// A failed result is the status and flags that say that no attributes
/// follow: two where the procedure is a write, a create, a remove or a
/// commit, and one where it is another.
pub proof fn failures_are_put(status: u32, procedure: u32)
    ensures
        ({
            let put = procedure::failure_bytes(status, procedure);
            let changes = procedure == 7 || procedure == 8 || procedure == 12 || procedure == 21;
            &&& says_u32(put, 0, status)
            &&& says_u32(put, 4, 0)
            &&& changes ==> says_u32(put, 8, 0) && put.len() == 12
            &&& !changes ==> put.len() == 8
        }),
{
    let one = writer::u32_bytes(status);
    let none = xdr::bool_bytes(false);
    first(one);
    numbers_are_put(Seq::empty(), status);
    flags_are_put(one, false);
    what_is_said_stays(one, none);
    flags_are_put(one + none, false);
    what_is_said_stays(one + none, none);
    xdr::runs_regroup(one, none, none);
}

/// A successful `LOOKUP` is a zero, the handle, and two flags that say that
/// no attributes follow; a `CREATE` has a flag that says that the handle is
/// there before it, and one more that says that attributes are not behind.
pub proof fn handle_results_are_put(handle: Seq<u8>)
    requires
        handle.len() <= u32::MAX,
    ensures
        ({
            let put = procedure::handle_ok_bytes(handle, 3);
            let at = 8 + rounded(handle.len() as int);
            &&& says_u32(put, 0, 0)
            &&& says_field(put, 4, handle)
            &&& says_u32(put, at, 0)
            &&& says_u32(put, at + 4, 0)
            &&& put.len() == at + 8
        }),
        ({
            let put = procedure::handle_ok_bytes(handle, 8);
            let at = 12 + rounded(handle.len() as int);
            &&& says_u32(put, 0, 0)
            &&& says_u32(put, 4, 1)
            &&& says_field(put, 8, handle)
            &&& says_u32(put, at, 0)
            &&& says_u32(put, at + 4, 0)
            &&& says_u32(put, at + 8, 0)
            &&& put.len() == at + 12
        }),
{
    let ok = writer::u32_bytes(0);
    let field = xdr::opaque_bytes(handle);
    let none = xdr::bool_bytes(false);
    first(ok);
    numbers_are_put(Seq::empty(), 0);
    fields_are_put(ok, handle);
    what_is_said_stays(ok, field);
    flags_are_put(ok + field, false);
    what_is_said_stays(ok + field, none);
    flags_are_put(ok + field + none, false);
    what_is_said_stays(ok + field + none, none);
    let there = ok + xdr::bool_bytes(true);
    flags_are_put(ok, true);
    what_is_said_stays(ok, xdr::bool_bytes(true));
    fields_are_put(there, handle);
    what_is_said_stays(there, field);
    flags_are_put(there + field, false);
    what_is_said_stays(there + field, none);
    flags_are_put(there + field + none, false);
    what_is_said_stays(there + field + none, none);
    flags_are_put(there + field + none + none, false);
    what_is_said_stays(there + field + none + none, none);
}

/// A successful `READ` is a zero, a flag that says that no attributes
/// follow, the count, whether the file ends there, and the data.
pub proof fn read_results_are_put(data: Seq<u8>, eof: bool)
    requires
        data.len() <= u32::MAX,
    ensures
        ({
            let put = procedure::read_ok_bytes(data, eof);
            &&& says_u32(put, 0, 0)
            &&& says_u32(put, 4, 0)
            &&& says_u32(put, 8, data.len() as u32)
            &&& says_u32(
                put,
                12,
                if eof {
                    1
                } else {
                    0
                },
            )
            &&& says_field(put, 16, data)
            &&& put.len() == 20 + rounded(data.len() as int)
        }),
{
    let one = writer::u32_bytes(0);
    let two = one + xdr::bool_bytes(false);
    let three = two + writer::u32_bytes(data.len() as u32);
    let four = three + xdr::bool_bytes(eof);
    first(one);
    numbers_are_put(Seq::empty(), 0);
    flags_are_put(one, false);
    what_is_said_stays(one, xdr::bool_bytes(false));
    numbers_are_put(two, data.len() as u32);
    what_is_said_stays(two, writer::u32_bytes(data.len() as u32));
    flags_are_put(three, eof);
    what_is_said_stays(three, xdr::bool_bytes(eof));
    fields_are_put(four, data);
    what_is_said_stays(four, xdr::opaque_bytes(data));
}

/// A successful `WRITE` is a zero, two flags that say that no attributes
/// follow, the count, a two for `FILE_SYNC`, and the verifier.
pub proof fn write_results_are_put(count: u32, verifier: Seq<u8>)
    requires
        verifier.len() == 8,
    ensures
        ({
            let put = procedure::write_ok_bytes(count, verifier);
            &&& says_u32(put, 0, 0)
            &&& says_u32(put, 4, 0)
            &&& says_u32(put, 8, 0)
            &&& says_u32(put, 12, count)
            &&& says_u32(put, 16, 2)
            &&& says_run(put, 20, verifier)
            &&& put.len() == 28
        }),
{
    let one = writer::u32_bytes(0);
    let none = xdr::bool_bytes(false);
    let three = one + none + none;
    let four = three + writer::u32_bytes(count);
    let five = four + writer::u32_bytes(2);
    removes_are_put();
    numbers_are_put(three, count);
    what_is_said_stays(three, writer::u32_bytes(count));
    numbers_are_put(four, 2);
    what_is_said_stays(four, writer::u32_bytes(2));
    eights_are_put(five, verifier);
    what_is_said_stays(five, xdr::fixed_bytes(verifier));
}

/// A successful `REMOVE` is a zero and two flags that say that no attributes
/// follow.
pub proof fn removes_are_put()
    ensures
        ({
            let put = procedure::remove_ok_bytes();
            &&& says_u32(put, 0, 0)
            &&& says_u32(put, 4, 0)
            &&& says_u32(put, 8, 0)
            &&& put.len() == 12
        }),
{
    let one = writer::u32_bytes(0);
    let none = xdr::bool_bytes(false);
    first(one);
    numbers_are_put(Seq::empty(), 0);
    flags_are_put(one, false);
    what_is_said_stays(one, none);
    flags_are_put(one + none, false);
    what_is_said_stays(one + none, none);
}

/// A successful `COMMIT` is a zero, two flags that say that no attributes
/// follow, and the verifier.
pub proof fn commits_are_put(verifier: Seq<u8>)
    requires
        verifier.len() == 8,
    ensures
        ({
            let put = procedure::commit_ok_bytes(verifier);
            &&& says_u32(put, 0, 0)
            &&& says_u32(put, 4, 0)
            &&& says_u32(put, 8, 0)
            &&& says_run(put, 12, verifier)
            &&& put.len() == 20
        }),
{
    let three = procedure::remove_ok_bytes();
    removes_are_put();
    eights_are_put(three, verifier);
    what_is_said_stays(three, xdr::fixed_bytes(verifier));
}

/// An entry of a listing is a flag that says that there is one, a file id of
/// eight bytes, the name, and a cookie of eight bytes.
pub proof fn entries_are_put(name: Seq<char>, index: nat)
    requires
        utf8::encode_utf8(name).len() <= u32::MAX,
        index + 2 <= u64::MAX,
    ensures
        ({
            let put = procedure::entry_bytes(name, index);
            let at = 16 + rounded(utf8::encode_utf8(name).len() as int);
            &&& says_u32(put, 0, 1)
            &&& says_u64(put, 4, (index + 2) as u64)
            &&& says_field(put, 12, utf8::encode_utf8(name))
            &&& says_u64(put, at, (index + 1) as u64)
            &&& put.len() == at + 8
        }),
{
    let id = (index + 2) as u64;
    let cookie = (index + 1) as u64;
    assert(procedure::wrapped(index + 2) == id && procedure::wrapped(index + 1) == cookie);
    let one = xdr::bool_bytes(true);
    let two = one + writer::u64_bytes(id);
    let three = two + xdr::string_bytes(name);
    first(one);
    flags_are_put(Seq::empty(), true);
    long_numbers_are_put(one, id);
    what_is_said_stays(one, writer::u64_bytes(id));
    strings_are_put(two, name);
    what_is_said_stays(two, xdr::string_bytes(name));
    long_numbers_are_put(three, cookie);
    what_is_said_stays(three, writer::u64_bytes(cookie));
}

/// A listing is a zero, a flag that says that no attributes follow, eight
/// zeros of verifier, the entries one behind another in the order of the
/// names, a zero that ends them, and a one that says that they are all.
pub proof fn listings_are_put(names: Seq<Seq<char>>, name: Seq<char>)
    ensures
        procedure::entries_bytes(Seq::empty()) == Seq::<u8>::empty(),
        procedure::entries_bytes(names.push(name)) == procedure::entries_bytes(names)
            + procedure::entry_bytes(name, names.len()),
        ({
            let put = procedure::readdir_ok_bytes(names);
            let entries = procedure::entries_bytes(names);
            let end = 16 + entries.len() as int;
            &&& says_u32(put, 0, 0)
            &&& says_u32(put, 4, 0)
            &&& says_run(put, 8, seq![0u8, 0, 0, 0, 0, 0, 0, 0])
            &&& says_run(put, 16, entries)
            &&& says_u32(put, end, 0)
            &&& says_u32(put, end + 4, 1)
            &&& put.len() == end + 8
        }),
{
    assert(names.push(name).drop_last() =~= names);
    let entries = procedure::entries_bytes(names);
    let verifier = xdr::fixed_bytes(xdr::zeros(8));
    let one = writer::u32_bytes(0);
    let two = one + xdr::bool_bytes(false);
    let three = two + verifier;
    let four = three + entries;
    let five = four + xdr::bool_bytes(false);
    first(one);
    numbers_are_put(Seq::empty(), 0);
    flags_are_put(one, false);
    what_is_said_stays(one, xdr::bool_bytes(false));
    assert(xdr::zeros(8) =~= seq![0u8, 0, 0, 0, 0, 0, 0, 0]);
    eights_are_put(two, xdr::zeros(8));
    what_is_said_stays(two, verifier);
    runs_are_put(three, entries);
    what_is_said_stays(three, entries);
    flags_are_put(four, false);
    what_is_said_stays(four, xdr::bool_bytes(false));
    flags_are_put(five, true);
    what_is_said_stays(five, xdr::bool_bytes(true));
}

/// A mount is put as its path, and answered with a zero, the root, and one
/// flavor of credentials, the first.
pub proof fn mounts_are_put(export: Seq<char>, root: Seq<u8>)
    requires
        utf8::encode_utf8(export).len() <= u32::MAX,
        root.len() <= u32::MAX,
    ensures
        says_field(xdr::string_bytes(export), 0, utf8::encode_utf8(export)),
        xdr::string_bytes(export).len() == 4 + rounded(utf8::encode_utf8(export).len() as int),
        ({
            let put = mount::ok_bytes(root);
            let at = 8 + rounded(root.len() as int);
            &&& says_u32(put, 0, 0)
            &&& says_field(put, 4, root)
            &&& says_u32(put, at, 1)
            &&& says_u32(put, at + 4, 1)
            &&& put.len() == at + 8
        }),
{
    first(xdr::string_bytes(export));
    strings_are_put(Seq::empty(), export);
    let one = writer::u32_bytes(0);
    let two = one + xdr::opaque_bytes(root);
    let three = two + writer::u32_bytes(1);
    first(one);
    numbers_are_put(Seq::empty(), 0);
    fields_are_put(one, root);
    what_is_said_stays(one, xdr::opaque_bytes(root));
    numbers_are_put(two, 1);
    what_is_said_stays(two, writer::u32_bytes(1));
    numbers_are_put(three, 1);
    what_is_said_stays(three, writer::u32_bytes(1));
}

/// The body of an `AUTH_UNIX` credential is a stamp of zero, the machine, the
/// user, the group, and a zero for no other groups, in that order.
pub proof fn credentials_are_put(unix: UnixView)
    requires
        utf8::encode_utf8(unix.machine).len() <= u32::MAX,
    ensures
        ({
            let put = rpc::unix_bytes(unix);
            let at = 8 + rounded(utf8::encode_utf8(unix.machine).len() as int);
            &&& says_u32(put, 0, 0)
            &&& says_field(put, 4, utf8::encode_utf8(unix.machine))
            &&& says_u32(put, at, unix.uid)
            &&& says_u32(put, at + 4, unix.gid)
            &&& says_u32(put, at + 8, 0)
            &&& put.len() == at + 12
        }),
{
    let one = writer::u32_bytes(0);
    let two = one + xdr::string_bytes(unix.machine);
    let three = two + writer::u32_bytes(unix.uid);
    let four = three + writer::u32_bytes(unix.gid);
    first(one);
    numbers_are_put(Seq::empty(), 0);
    strings_are_put(one, unix.machine);
    what_is_said_stays(one, xdr::string_bytes(unix.machine));
    numbers_are_put(two, unix.uid);
    what_is_said_stays(two, writer::u32_bytes(unix.uid));
    numbers_are_put(three, unix.gid);
    what_is_said_stays(three, writer::u32_bytes(unix.gid));
    numbers_are_put(four, 0);
    what_is_said_stays(four, writer::u32_bytes(0));
}

/// The credentials in the body of an `AUTH_UNIX` credential: behind a stamp
/// that is not looked at the machine, the user and the group, in that order.
pub proof fn credentials_are_read(body: Seq<u8>)
    ensures
        ({
            let at = field_end(body, 4);
            rpc::parse_unix(body) == (if body.len() < 4 || !has_field(body, 4) || at + 8
                > body.len() {
                Err(error::runs_past())
            } else {
                Ok(
                    UnixView {
                        machine: text::text_of(field_at(body, 4)),
                        uid: u32_at(body, at),
                        gid: u32_at(body, at + 4),
                    },
                )
            })
        }),
{
    from_the_start(body);
    numbers_are_read(body, 0);
    if body.len() >= 4 {
        strings_are_read(body, 4);
        if has_field(body, 4) {
            let at = field_end(body, 4);
            numbers_are_read(body, at);
            if at + 4 <= body.len() {
                numbers_are_read(body, at + 4);
            }
        }
    }
}

/// Whether a record is a call: its id, a zero for a call, the version of RPC,
/// two, the program, its version, the procedure, an `AUTH_UNIX` credential,
/// whose flavor is one, a verifier of no bytes whose flavor is zero, and the
/// arguments.
#[verifier::opaque]
pub open spec fn says_call(record: Seq<u8>, call: CallView, credentials: UnixView) -> bool {
    let body = rpc::unix_bytes(credentials);
    let at = 32 + rounded(body.len() as int);
    &&& says_u32(record, 0, call.xid)
    &&& says_u32(record, 4, 0)
    &&& says_u32(record, 8, 2)
    &&& says_u32(record, 12, call.program)
    &&& says_u32(record, 16, call.version)
    &&& says_u32(record, 20, call.procedure)
    &&& says_u32(record, 24, 1)
    &&& says_field(record, 28, body)
    &&& says_u32(record, at, 0)
    &&& says_u32(record, at + 4, 0)
    &&& says_run(record, at + 8, call.arguments)
    &&& record.len() == at + 8 + call.arguments.len()
}

/// A call is put as one.
pub proof fn calls_are_put(call: CallView, credentials: UnixView)
    requires
        rpc::unix_bytes(credentials).len() <= u32::MAX,
    ensures
        says_call(rpc::call_bytes(call, credentials), call, credentials),
{
    let body = rpc::unix_bytes(credentials);
    let one = writer::u32_bytes(call.xid);
    let two = one + writer::u32_bytes(0);
    let three = two + writer::u32_bytes(2);
    let four = three + writer::u32_bytes(call.program);
    let five = four + writer::u32_bytes(call.version);
    let six = five + writer::u32_bytes(call.procedure);
    let seven = six + writer::u32_bytes(1);
    let eight = seven + xdr::opaque_bytes(body);
    let nine = eight + writer::u32_bytes(0);
    let ten = nine + xdr::opaque_bytes(Seq::empty());
    assert(rpc::call_bytes(call, credentials) == ten + call.arguments);
    first(one);
    numbers_are_put(Seq::empty(), call.xid);
    numbers_are_put(one, 0);
    what_is_said_stays(one, writer::u32_bytes(0));
    numbers_are_put(two, 2);
    what_is_said_stays(two, writer::u32_bytes(2));
    numbers_are_put(three, call.program);
    what_is_said_stays(three, writer::u32_bytes(call.program));
    numbers_are_put(four, call.version);
    what_is_said_stays(four, writer::u32_bytes(call.version));
    numbers_are_put(five, call.procedure);
    what_is_said_stays(five, writer::u32_bytes(call.procedure));
    numbers_are_put(six, 1);
    what_is_said_stays(six, writer::u32_bytes(1));
    fields_are_put(seven, body);
    what_is_said_stays(seven, xdr::opaque_bytes(body));
    numbers_are_put(eight, 0);
    what_is_said_stays(eight, writer::u32_bytes(0));
    fields_are_put(nine, Seq::empty());
    assert(says_u32(ten, nine.len() as int, 0)) by {
        reveal(says_field);
        reveal(says_u32);
    }
    what_is_said_stays(nine, xdr::opaque_bytes(Seq::empty()));
    runs_are_put(ten, call.arguments);
    what_is_said_stays(ten, call.arguments);
    reveal(says_call);
}

/// The number that says how a call came out.
pub open spec fn outcome_number(outcome: OutcomeView) -> u32 {
    match outcome {
        OutcomeView::Success(_) => 0,
        OutcomeView::ProgramUnavailable => 1,
        OutcomeView::ProgramMismatch { .. } => 2,
        OutcomeView::ProcedureUnavailable => 3,
        OutcomeView::GarbageArguments => 4,
    }
}

/// Whether a record is a reply: the id of the call, a one for a reply, a zero
/// for one that was accepted, a verifier of no bytes whose flavor is zero,
/// how the call came out, and then the results where it was run, and the
/// lowest and the highest version that are spoken where it was of another.
pub open spec fn says_reply(record: Seq<u8>, reply: ReplyView) -> bool {
    &&& says_u32(record, 0, reply.xid)
    &&& says_u32(record, 4, 1)
    &&& says_u32(record, 8, 0)
    &&& says_u32(record, 12, 0)
    &&& says_u32(record, 16, 0)
    &&& says_u32(record, 20, outcome_number(reply.outcome))
    &&& match reply.outcome {
        OutcomeView::Success(results) => says_run(record, 24, results) && record.len() == 24
            + results.len(),
        OutcomeView::ProgramMismatch { low, high } => says_u32(record, 24, low) && says_u32(
            record,
            28,
            high,
        ) && record.len() == 32,
        _ => record.len() == 24,
    }
}

/// A reply is put as one.
pub proof fn replies_are_put(reply: ReplyView)
    ensures
        says_reply(rpc::reply_bytes(reply), reply),
{
    let number = outcome_number(reply.outcome);
    let none = xdr::opaque_bytes(Seq::empty());
    let one = writer::u32_bytes(reply.xid);
    let two = one + writer::u32_bytes(1);
    let three = two + writer::u32_bytes(0);
    let four = three + writer::u32_bytes(0);
    let five = four + none;
    let six = five + writer::u32_bytes(number);
    first(one);
    numbers_are_put(Seq::empty(), reply.xid);
    numbers_are_put(one, 1);
    what_is_said_stays(one, writer::u32_bytes(1));
    numbers_are_put(two, 0);
    what_is_said_stays(two, writer::u32_bytes(0));
    numbers_are_put(three, 0);
    what_is_said_stays(three, writer::u32_bytes(0));
    fields_are_put(four, Seq::empty());
    assert(says_u32(five, 16, 0)) by {
        reveal(says_field);
        reveal(says_u32);
    }
    what_is_said_stays(four, none);
    numbers_are_put(five, number);
    what_is_said_stays(five, writer::u32_bytes(number));
    match reply.outcome {
        OutcomeView::Success(results) => {
            xdr::runs_regroup(five, writer::u32_bytes(0), results);
            runs_are_put(six, results);
            what_is_said_stays(six, results);
        },
        OutcomeView::ProgramMismatch { low, high } => {
            let seven = six + writer::u32_bytes(low);
            xdr::runs_regroup(five, writer::u32_bytes(2), writer::u32_bytes(low));
            xdr::runs_regroup(
                five,
                writer::u32_bytes(2) + writer::u32_bytes(low),
                writer::u32_bytes(high),
            );
            numbers_are_put(six, low);
            what_is_said_stays(six, writer::u32_bytes(low));
            numbers_are_put(seven, high);
            what_is_said_stays(seven, writer::u32_bytes(high));
        },
        _ => {},
    }
}

/// A fragment of a record is its length, in the last with the topmost bit
/// set, and its bytes; a record in one fragment is its last.
pub proof fn fragments_are_put(fragment: Seq<u8>, last: bool)
    requires
        fragment.len() < 0x8000_0000,
    ensures
        ({
            let put = rpc::fragment_bytes(fragment, last);
            let length = fragment.len() + if last {
                0x8000_0000int
            } else {
                0
            };
            &&& says_u32(put, 0, length as u32)
            &&& says_run(put, 4, fragment)
            &&& put.len() == 4 + fragment.len()
        }),
        rpc::record_bytes(fragment) == rpc::fragment_bytes(fragment, true),
{
    let length = (fragment.len() + if last {
        0x8000_0000int
    } else {
        0
    }) as u32;
    let one = writer::u32_bytes(length);
    first(one);
    numbers_are_put(Seq::empty(), length);
    runs_are_put(one, fragment);
    what_is_said_stays(one, fragment);
}

/// How a record that was sent as a call is read: the id, the program, its
/// version, the procedure, the credentials where their flavor is one, and
/// the arguments behind the verifier.
pub proof fn calls_are_read(record: Seq<u8>)
    requires
        record.len() >= 12,
        u32_at(record, 4) == 0,
        u32_at(record, 8) == 2,
    ensures
        ({
            let verifier = field_end(record, 28);
            let unix = rpc::parse_unix(field_at(record, 28));
            rpc::parse_call(record) == (if record.len() < 28 || !has_field(record, 28) {
                Err(error::runs_past())
            } else if u32_at(record, 24) == 1 && unix is Err {
                Err(unix->Err_0)
            } else if verifier + 4 > record.len() || !has_field(record, verifier + 4) {
                Err(error::runs_past())
            } else {
                Ok(
                    CallView {
                        xid: u32_at(record, 0),
                        program: u32_at(record, 12),
                        version: u32_at(record, 16),
                        procedure: u32_at(record, 20),
                        credentials: if u32_at(record, 24) == 1 {
                            Some(unix->Ok_0)
                        } else {
                            None
                        },
                        arguments: record.skip(field_end(record, verifier + 4)),
                    },
                )
            })
        }),
{
    from_the_start(record);
    numbers_are_read(record, 0);
    numbers_are_read(record, 4);
    numbers_are_read(record, 8);
    call_bodies_are_read(record);
}

/// What a call says behind its first three numbers.
proof fn call_bodies_are_read(record: Seq<u8>)
    requires
        record.len() >= 12,
    ensures
        ({
            let verifier = field_end(record, 28);
            let unix = rpc::parse_unix(field_at(record, 28));
            rpc::parse_call_body(u32_at(record, 0), record.skip(12)) == (if record.len() < 28
                || !has_field(record, 28) {
                Err(error::runs_past())
            } else if u32_at(record, 24) == 1 && unix is Err {
                Err(unix->Err_0)
            } else if verifier + 4 > record.len() || !has_field(record, verifier + 4) {
                Err(error::runs_past())
            } else {
                Ok(
                    CallView {
                        xid: u32_at(record, 0),
                        program: u32_at(record, 12),
                        version: u32_at(record, 16),
                        procedure: u32_at(record, 20),
                        credentials: if u32_at(record, 24) == 1 {
                            Some(unix->Ok_0)
                        } else {
                            None
                        },
                        arguments: record.skip(field_end(record, verifier + 4)),
                    },
                )
            })
        }),
{
    numbers_are_read(record, 12);
    if record.len() >= 16 {
        numbers_are_read(record, 16);
    }
    if record.len() >= 20 {
        numbers_are_read(record, 20);
    }
    if record.len() >= 24 {
        numbers_are_read(record, 24);
    }
    if record.len() >= 28 {
        fields_are_read(record, 28);
        if has_field(record, 28) {
            verifiers_are_passed(record, field_end(record, 28));
        }
    }
}

/// A verifier is passed: its flavor, and its bytes.
proof fn verifiers_are_passed(record: Seq<u8>, at: int)
    requires
        0 <= at <= record.len(),
    ensures
        rpc::past_auth(record.skip(at)) == (if at + 4 > record.len() || !has_field(
            record,
            at + 4,
        ) {
            Err(error::runs_past())
        } else {
            Ok(record.skip(field_end(record, at + 4)))
        }),
{
    numbers_are_read(record, at);
    if at + 4 <= record.len() {
        fields_are_read(record, at + 4);
    }
}

/// A record that is no call of this version of RPC is not taken for one.
pub proof fn other_records_are_no_calls(record: Seq<u8>)
    ensures
        record.len() < 8 ==> rpc::parse_call(record) == Err::<CallView, Failure>(
            error::runs_past(),
        ),
        record.len() >= 8 && u32_at(record, 4) != 0 ==> rpc::parse_call(record) == Err::<
            CallView,
            Failure,
        >(error::permanent_failure("a reply where a call was expected"@)),
        8 <= record.len() < 12 && u32_at(record, 4) == 0 ==> rpc::parse_call(record) == Err::<
            CallView,
            Failure,
        >(error::runs_past()),
        record.len() >= 12 && u32_at(record, 4) == 0 && u32_at(record, 8) != 2
            ==> rpc::parse_call(record) == Err::<CallView, Failure>(
            error::permanent_failure("an RPC version other than 2"@),
        ),
{
    from_the_start(record);
    numbers_are_read(record, 0);
    if record.len() >= 4 {
        numbers_are_read(record, 4);
    }
    if record.len() >= 8 {
        numbers_are_read(record, 8);
    }
}

/// How a call came out is the number at a place, and the results lie behind
/// it, or the two versions; any other number is a failure that names it.
pub proof fn outcomes_are_read(record: Seq<u8>, at: int)
    requires
        0 <= at <= record.len(),
    ensures
        rpc::parse_outcome(record.skip(at)) == (if at + 4 > record.len() {
            Err(error::runs_past())
        } else if u32_at(record, at) == 0 {
            Ok(OutcomeView::Success(record.skip(at + 4)))
        } else if u32_at(record, at) == 1 {
            Ok(OutcomeView::ProgramUnavailable)
        } else if u32_at(record, at) == 2 {
            if at + 12 > record.len() {
                Err(error::runs_past())
            } else {
                Ok(
                    OutcomeView::ProgramMismatch {
                        low: u32_at(record, at + 4),
                        high: u32_at(record, at + 8),
                    },
                )
            }
        } else if u32_at(record, at) == 3 {
            Ok(OutcomeView::ProcedureUnavailable)
        } else if u32_at(record, at) == 4 {
            Ok(OutcomeView::GarbageArguments)
        } else {
            Err(
                error::permanent_failure(
                    "accept status "@ + text::decimal(u32_at(record, at) as nat),
                ),
            )
        }),
{
    numbers_are_read(record, at);
    if at + 4 <= record.len() {
        numbers_are_read(record, at + 4);
    }
    if at + 8 <= record.len() {
        numbers_are_read(record, at + 8);
    }
}

/// How a record that was sent as a reply is read: the id it answers, and,
/// where the call was accepted, how it came out, which lies behind the
/// verifier; where it was denied, the reason is told.
pub proof fn replies_are_read(record: Seq<u8>)
    ensures
        rpc::parse_reply(record) == (if record.len() < 8 {
            Err(error::runs_past())
        } else if u32_at(record, 4) != 1 {
            Err(error::permanent_failure("a call where a reply was expected"@))
        } else if record.len() < 12 {
            Err(error::runs_past())
        } else if u32_at(record, 8) == 0 {
            if record.len() < 16 || !has_field(record, 16) {
                Err(error::runs_past())
            } else {
                match rpc::parse_outcome(record.skip(field_end(record, 16))) {
                    Ok(outcome) => Ok(ReplyView { xid: u32_at(record, 0), outcome }),
                    Err(failure) => Err(failure),
                }
            }
        } else if u32_at(record, 8) == 1 {
            if record.len() < 16 {
                Err(error::runs_past())
            } else if u32_at(record, 12) == 0 {
                Err(
                    error::permanent_failure(
                        "the call was denied: "@ + "the server speaks another RPC version"@,
                    ),
                )
            } else if record.len() < 20 {
                Err(error::runs_past())
            } else {
                Err(
                    error::permanent_failure(
                        "the call was denied: "@ + ("the credentials were refused, status "@
                            + text::decimal(u32_at(record, 16) as nat)),
                    ),
                )
            }
        } else {
            Err(
                error::permanent_failure(
                    "reply status "@ + text::decimal(u32_at(record, 8) as nat),
                ),
            )
        }),
{
    from_the_start(record);
    numbers_are_read(record, 0);
    if record.len() >= 4 {
        numbers_are_read(record, 4);
    }
    if record.len() >= 8 {
        numbers_are_read(record, 8);
    }
    if record.len() >= 12 {
        verifiers_are_passed(record, 12);
        numbers_are_read(record, 12);
    }
    if record.len() >= 16 {
        numbers_are_read(record, 16);
    }
}

/// How many bytes follow a mark: what it says without its topmost bit.
pub open spec fn marked_length(wire: Seq<u8>) -> int {
    if is_last(wire) {
        u32_at(wire, 0) - 0x8000_0000
    } else {
        u32_at(wire, 0) as int
    }
}

/// Whether a mark says that its fragment is the last: its topmost bit is set.
pub open spec fn is_last(wire: Seq<u8>) -> bool {
    u32_at(wire, 0) >= 0x8000_0000
}

/// What a reader owes first is a mark of four bytes, and behind it a fragment
/// of as many bytes as the mark says; a mark that takes the record over what
/// is read is refused.
pub proof fn marks_are_taken(state: RecordView, mark: Seq<u8>)
    requires
        state.wanted == Wanted::Mark,
        mark.len() == 4,
    ensures
        rpc::unread_record(state.max) == (RecordView {
            record: Seq::empty(),
            max: state.max,
            begun: false,
            wanted: Wanted::Mark,
        }),
        rpc::owed(state.wanted) == 4,
        ({
            let length = marked_length(mark);
            let wanted = Wanted::Fragment { length: length as usize, last: is_last(mark) };
            &&& 0 <= length < 0x8000_0000
            &&& rpc::owed(wanted) == length
            &&& rpc::after_owed(state, mark) == (if state.record.len() + length > state.max {
                Err(
                    error::permanent_failure(
                        "a record over the "@ + text::decimal(state.max) + " bytes read here"@,
                    ),
                )
            } else {
                Ok(
                    (
                        RecordView {
                            record: state.record,
                            max: state.max,
                            begun: true,
                            wanted,
                        },
                        None::<Seq<u8>>,
                    ),
                )
            })
        }),
{
    reveal(u32_at);
}

/// A fragment is put behind those before it. Behind the last the record is
/// whole and the reader as new, and behind any other a mark is owed again.
pub proof fn fragments_are_taken(state: RecordView, fragment: Seq<u8>, last: bool)
    requires
        state.wanted == (Wanted::Fragment { length: fragment.len() as usize, last }),
    ensures
        last ==> rpc::after_owed(state, fragment) == Ok::<_, Failure>(
            (
                RecordView {
                    record: Seq::empty(),
                    max: state.max,
                    begun: false,
                    wanted: Wanted::Mark,
                },
                Some(state.record + fragment),
            ),
        ),
        !last ==> rpc::after_owed(state, fragment) == Ok::<_, Failure>(
            (
                RecordView {
                    record: state.record + fragment,
                    max: state.max,
                    begun: state.begun,
                    wanted: Wanted::Mark,
                },
                None::<Seq<u8>>,
            ),
        ),
{
}

/// How a wire is read where a mark is owed: a wire that is empty before a
/// record began is closed, one that ends within a mark or a fragment is
/// broken there, and what follows the last fragment is left.
pub proof fn records_are_read(state: RecordView, wire: Seq<u8>)
    requires
        state.wanted == Wanted::Mark,
    ensures
        wire.len() == 0 && !state.begun ==> rpc::received(state, wire) == Received::Closed,
        wire.len() < 4 && (wire.len() > 0 || state.begun) ==> rpc::received(state, wire)
            == Received::Broken(Wanted::Mark),
        wire.len() >= 4 ==> ({
            let length = marked_length(wire);
            let last = is_last(wire);
            let record = state.record + wire.subrange(4, 4 + length);
            rpc::received(state, wire) == (if state.record.len() + length > state.max {
                Received::Refused(
                    error::permanent_failure(
                        "a record over the "@ + text::decimal(state.max) + " bytes read here"@,
                    ),
                    wire.skip(4),
                )
            } else if wire.len() < 4 + length {
                Received::Broken(Wanted::Fragment { length: length as usize, last })
            } else if last {
                Received::Record(record, wire.skip(4 + length))
            } else {
                rpc::received(
                    RecordView { record, max: state.max, begun: true, wanted: Wanted::Mark },
                    wire.skip(4 + length),
                )
            })
        }),
{
    if wire.len() >= 4 {
        let mark = wire.take(4);
        let length = marked_length(wire);
        assert(u32_at(mark, 0) == u32_at(wire, 0)) by {
            reveal(u32_at);
        }
        marks_are_taken(state, mark);
        if state.record.len() + length <= state.max {
            let wanted = Wanted::Fragment { length: length as usize, last: is_last(wire) };
            let marked = RecordView { record: state.record, max: state.max, begun: true, wanted };
            let rest = wire.skip(4);
            assert(rpc::received(state, wire) == rpc::received(marked, rest));
            if wire.len() >= 4 + length {
                assert(rest.take(length) =~= wire.subrange(4, 4 + length));
                assert(rest.skip(length) =~= wire.skip(4 + length));
                fragments_are_taken(marked, rest.take(length), is_last(wire));
            }
        }
    }
}

/// What is said of a wire that ends while a mark is owed, and while a
/// fragment is.
pub proof fn broken_wires_are_told(length: usize, last: bool)
    ensures
        rpc::cut_short(Wanted::Mark) == error::permanent_failure(
            "reading a record mark"@ + ": the wire ended"@,
        ),
        rpc::cut_short(Wanted::Fragment { length, last }) == error::permanent_failure(
            "reading a fragment"@ + ": the wire ended"@,
        ),
{
}

/// Fragments are put together one behind another, and lie on the wire in the
/// same order, none but the last of them marked so.
pub proof fn fragments_are_joined(first: Seq<u8>, more: Seq<Seq<u8>>)
    ensures
        rpc::joined(Seq::empty()) == Seq::<u8>::empty(),
        rpc::joined(seq![first] + more) == first + rpc::joined(more),
        rpc::fragments_bytes(Seq::empty()) == Seq::<u8>::empty(),
        rpc::fragments_bytes(seq![first] + more) == rpc::fragment_bytes(first, more.len() == 0)
            + rpc::fragments_bytes(more),
{
    assert((seq![first] + more).drop_first() =~= more);
}

/// What is said of a call that was not run, and the results of one that was.
pub proof fn outcomes_are_told(outcome: OutcomeView)
    ensures
        rpc::results_of(outcome) == (match outcome {
            OutcomeView::Success(results) => Ok(results),
            OutcomeView::ProgramUnavailable => Err(
                error::permanent_failure("the server has no such program"@),
            ),
            OutcomeView::ProgramMismatch { low, high } => Err(
                error::permanent_failure(
                    "the server speaks versions "@ + text::decimal(low as nat) + " to "@
                        + text::decimal(high as nat),
                ),
            ),
            OutcomeView::ProcedureUnavailable => Err(
                error::permanent_failure("the server has no such procedure"@),
            ),
            OutcomeView::GarbageArguments => Err(
                error::permanent_failure("the server could not read the call"@),
            ),
        }),
{
}

/// A count that four bytes cannot say is put as the most that they can, and
/// the bytes follow it all the same, padded to a multiple of four.
pub proof fn counts_stop_at_what_can_be_said(run: Seq<u8>)
    ensures
        run.len() <= u32::MAX ==> xdr::count_of(run.len()) == run.len(),
        run.len() > u32::MAX ==> xdr::count_of(run.len()) == 0xffff_ffff,
        says_u32(xdr::opaque_bytes(run), 0, xdr::count_of(run.len())),
        says_run(xdr::opaque_bytes(run), 4, run),
        xdr::opaque_bytes(run).len() == 4 + rounded(run.len() as int),
        xdr::pad(run.len()) == rounded(run.len() as int) - run.len(),
{
    let count = writer::u32_bytes(xdr::count_of(run.len()));
    let put = xdr::opaque_bytes(run);
    first(count);
    numbers_are_put(Seq::empty(), xdr::count_of(run.len()));
    assert(put =~= count + xdr::fixed_bytes(run));
    what_is_said_stays(count, xdr::fixed_bytes(run));
    reveal(says_run);
    assert(put.subrange(4, 4 + run.len() as int) =~= run);
}

} // verus!
