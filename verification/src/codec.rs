//! What the functions that put and take fields, records and files hand back,
//! told of the functions themselves, byte by byte.

use vstd::prelude::*;
#[allow(unused_imports)]
use vstd::utf8;

#[allow(unused_imports)]
use crate::arrived;
#[allow(unused_imports)]
use crate::client;
#[allow(unused_imports)]
use crate::cursor::Cursor;
#[allow(unused_imports)]
use crate::error::{self, Result, TransportError};
#[allow(unused_imports)]
use crate::files::{self, Files};
#[allow(unused_imports)]
use crate::layout;
#[allow(unused_imports)]
use crate::mount;
#[allow(unused_imports)]
use crate::procedure::{self, Handle};
#[allow(unused_imports)]
use crate::progress;
#[allow(unused_imports)]
use crate::promises;
#[allow(unused_imports)]
use crate::rpc::{self, Outcome, RecordReader, Reply, Wanted};
#[allow(unused_imports)]
use crate::status;
#[allow(unused_imports)]
use crate::target;
#[allow(unused_imports)]
use crate::text;
#[allow(unused_imports)]
use crate::xdr::Xdr;

verus! {

/// What the server takes of arguments is what lies in them, each field behind
/// the one before it.
pub proof fn arguments_are_taken(
    arguments: &[u8],
    dir: Result<(Handle, String)>,
    read: Result<(Handle, u64, u32)>,
    write: Result<(Handle, u64, Vec<u8>)>,
    commit: Result<Handle>,
    list: Result<Handle>,
    path: Result<String>,
)
    requires
        call_ensures(procedure::take_dir_args, (arguments,), dir),
        call_ensures(procedure::take_read_args, (arguments,), read),
        call_ensures(procedure::take_write_args, (arguments,), write),
        call_ensures(procedure::take_commit_args, (arguments,), commit),
        call_ensures(procedure::take_readdir_args, (arguments,), list),
        call_ensures(mount::take_args, (arguments,), path),
    ensures
        ({
            let at = layout::field_end(arguments@, 0);
            let handle = layout::field_at(arguments@, 0);
            let there = layout::has_handle(arguments@, 0);
            &&& !there ==> promises::fails(dir, layout::no_handle(arguments@, 0))
            &&& dir is Ok <==> there && layout::has_field(arguments@, at)
            &&& dir matches Ok((taken, name)) ==> taken.0@ == handle && name@ == text::text_of(
                layout::field_at(arguments@, at),
            )
            &&& read is Ok <==> there && arguments@.len() >= at + 12
            &&& read matches Ok((taken, offset, count)) ==> taken.0@ == handle && offset
                == layout::u64_at(arguments@, at) && count == layout::u32_at(arguments@, at + 8)
            &&& write is Ok <==> there && layout::has_field(arguments@, at + 16)
            &&& write matches Ok((taken, offset, data)) ==> taken.0@ == handle && offset
                == layout::u64_at(arguments@, at) && data@ == layout::field_at(
                arguments@,
                at + 16,
            )
            &&& commit is Ok <==> there
            &&& commit matches Ok(taken) ==> taken.0@ == handle
            &&& list is Ok <==> there
            &&& list matches Ok(taken) ==> taken.0@ == handle
            &&& path is Ok <==> layout::has_field(arguments@, 0)
            &&& path matches Ok(taken) ==> taken@ == text::text_of(handle)
        }),
{
    layout::dir_args_are_read(arguments@);
    layout::read_args_are_read(arguments@);
    layout::write_args_are_read(arguments@);
    layout::first_handles_are_read(arguments@);
    layout::mount_args_are_read(arguments@);
}

/// What the client takes of results is what lies in them, behind the status
/// and the attributes; a status other than zero is a refusal.
pub proof fn results_are_taken(
    results: &[u8],
    what: &str,
    read: Result<(Vec<u8>, bool)>,
    written: Result<u32>,
    done: Result<()>,
    root: Result<Handle>,
)
    requires
        call_ensures(procedure::take_read, (results,), read),
        call_ensures(procedure::take_write, (results,), written),
        call_ensures(procedure::take_done, (results, what), done),
        call_ensures(mount::take, (results,), root),
    ensures
        ({
            let at = layout::attributes_end(results@, 4);
            let ok = layout::is_ok(results@);
            &&& !ok ==> promises::fails(read, layout::refusal(results@, "reading"@))
            &&& !ok ==> promises::fails(written, layout::refusal(results@, "writing"@))
            &&& !ok ==> promises::fails(done, layout::refusal(results@, what@))
            &&& !ok ==> promises::fails(root, layout::refusal(results@, "mounting"@))
            &&& read is Ok <==> ok && layout::has_attributes(results@, 4) && layout::has_field(
                results@,
                at + 8,
            )
            &&& read matches Ok((data, eof)) ==> data@ == layout::field_at(results@, at + 8)
                && eof == (layout::u32_at(results@, at + 4) != 0)
            &&& written is Ok <==> progress::says_written(results@)
            &&& written matches Ok(count) ==> count == progress::written_in(results@)
            &&& done is Ok <==> ok
            &&& root is Ok <==> ok && layout::has_handle(results@, 4)
            &&& root matches Ok(handle) ==> handle.0@ == layout::field_at(results@, 4)
        }),
{
    layout::read_results_are_read(results@);
    layout::write_results_are_read(results@);
    layout::done_results_are_read(results@, what@);
    layout::roots_are_read(results@);
}

/// The handle that a `LOOKUP` or a `CREATE` gives is taken where it lies, for
/// a create behind a flag that says that it is there.
pub proof fn handles_are_taken(results: &[u8], procedure: u32, taken: Result<Handle>)
    requires
        call_ensures(procedure::take_handle, (results, procedure), taken),
    ensures
        ({
            let at: int = if procedure == 8 {
                8
            } else {
                4
            };
            let ok = layout::is_ok(results@);
            &&& !ok ==> promises::fails(taken, layout::refusal(results@, "looking up"@))
            &&& taken is Ok <==> ok && layout::has_handle(results@, at) && (procedure == 8
                ==> layout::u32_at(results@, 4) != 0)
            &&& taken matches Ok(handle) ==> handle.0@ == layout::field_at(results@, at)
        }),
{
    layout::handle_results_are_read(results@, procedure);
}

/// What the client puts in arguments lies where it is looked for.
pub proof fn arguments_are_given(
    handle: &Handle,
    name: &str,
    offset: u64,
    count: u32,
    data: &[u8],
    dir: Vec<u8>,
    create: Vec<u8>,
    read: Vec<u8>,
    write: Vec<u8>,
    commit: Vec<u8>,
    list: Vec<u8>,
    path: Vec<u8>,
)
    requires
        call_ensures(procedure::dir_args, (handle, name), dir),
        call_ensures(procedure::create_args, (handle, name), create),
        call_ensures(procedure::read_args, (handle, offset, count), read),
        call_ensures(procedure::write_args, (handle, offset, data), write),
        call_ensures(procedure::commit_args, (handle,), commit),
        call_ensures(procedure::readdir_args, (handle, count), list),
        call_ensures(mount::args, (name,), path),
        handle.0@.len() <= u32::MAX,
        data@.len() <= u32::MAX,
        utf8::encode_utf8(name@).len() <= u32::MAX,
    ensures
        ({
            let at = 4 + layout::rounded(handle.0@.len() as int);
            let named = utf8::encode_utf8(name@);
            let end = at + 4 + layout::rounded(named.len() as int);
            &&& layout::says_field(dir@, 0, handle.0@)
            &&& layout::says_field(dir@, at, named)
            &&& dir@.len() == end
            &&& layout::says_field(create@, 0, handle.0@)
            &&& layout::says_field(create@, at, named)
            &&& create@.len() == end + 28
            &&& forall|i: int| end <= i < end + 28 ==> #[trigger] create@[i] == 0
            &&& layout::says_field(read@, 0, handle.0@)
            &&& layout::says_u64(read@, at, offset)
            &&& layout::says_u32(read@, at + 8, count)
            &&& read@.len() == at + 12
            &&& layout::says_field(write@, 0, handle.0@)
            &&& layout::says_u64(write@, at, offset)
            &&& layout::says_u32(write@, at + 8, data@.len() as u32)
            &&& layout::says_u32(write@, at + 12, 2)
            &&& layout::says_field(write@, at + 16, data@)
            &&& write@.len() == at + 20 + layout::rounded(data@.len() as int)
            &&& layout::says_field(commit@, 0, handle.0@)
            &&& layout::says_u64(commit@, at, 0)
            &&& layout::says_u32(commit@, at + 8, 0)
            &&& commit@.len() == at + 12
            &&& layout::says_field(list@, 0, handle.0@)
            &&& layout::says_u64(list@, at, 0)
            &&& layout::says_run(list@, at + 8, seq![0u8, 0, 0, 0, 0, 0, 0, 0])
            &&& layout::says_u32(list@, at + 16, count)
            &&& list@.len() == at + 20
            &&& layout::says_field(path@, 0, named)
            &&& path@.len() == 4 + layout::rounded(named.len() as int)
        }),
{
    layout::dir_args_are_put(handle@, name@);
    layout::create_args_are_put(handle@, name@);
    layout::read_args_are_put(handle@, offset, count);
    layout::write_args_are_put(handle@, offset, data@);
    layout::handle_args_are_put(handle@, count);
    layout::mounts_are_put(name@, Seq::empty());
}

/// What the server puts in results lies where it is looked for.
pub proof fn results_are_given(
    status: u32,
    procedure: u32,
    data: &[u8],
    eof: bool,
    count: u32,
    verifier: [u8; 8],
    failed: Vec<u8>,
    read: Vec<u8>,
    written: Vec<u8>,
    committed: Vec<u8>,
    removed: Vec<u8>,
)
    requires
        call_ensures(procedure::put_failure, (status, procedure), failed),
        call_ensures(procedure::read_ok, (data, eof), read),
        call_ensures(procedure::write_ok, (count, verifier), written),
        call_ensures(procedure::commit_ok, (verifier,), committed),
        call_ensures(procedure::remove_ok, (), removed),
        data@.len() <= u32::MAX,
    ensures
        layout::says_u32(failed@, 0, status),
        layout::says_u32(failed@, 4, 0),
        ({
            let changes = procedure == 7 || procedure == 8 || procedure == 12 || procedure == 21;
            failed@.len() == if changes {
                12int
            } else {
                8
            } && (changes ==> layout::says_u32(failed@, 8, 0))
        }),
        layout::says_u32(read@, 0, 0),
        layout::says_u32(read@, 4, 0),
        layout::says_u32(read@, 8, data@.len() as u32),
        layout::says_u32(
            read@,
            12,
            if eof {
                1
            } else {
                0
            },
        ),
        layout::says_field(read@, 16, data@),
        read@.len() == 20 + layout::rounded(data@.len() as int),
        layout::says_u32(written@, 0, 0),
        layout::says_u32(written@, 4, 0),
        layout::says_u32(written@, 8, 0),
        layout::says_u32(written@, 12, count),
        layout::says_u32(written@, 16, 2),
        layout::says_run(written@, 20, verifier@),
        written@.len() == 28,
        layout::says_u32(committed@, 0, 0),
        layout::says_u32(committed@, 4, 0),
        layout::says_u32(committed@, 8, 0),
        layout::says_run(committed@, 12, verifier@),
        committed@.len() == 20,
        layout::says_u32(removed@, 0, 0),
        layout::says_u32(removed@, 4, 0),
        layout::says_u32(removed@, 8, 0),
        removed@.len() == 12,
{
    layout::failures_are_put(status, procedure);
    layout::read_results_are_put(data@, eof);
    layout::write_results_are_put(count, verifier@);
    layout::commits_are_put(verifier@);
    layout::removes_are_put();
}

/// What the server puts in the results of a mount, a `LOOKUP` and a `CREATE`
/// is the handle, where it is looked for.
pub proof fn handles_are_given(
    handle: &Handle,
    status: u32,
    found: Vec<u8>,
    created: Vec<u8>,
    mounted: Vec<u8>,
    refused: Vec<u8>,
)
    requires
        call_ensures(procedure::handle_ok, (handle, 3u32), found),
        call_ensures(procedure::handle_ok, (handle, 8u32), created),
        call_ensures(mount::ok, (handle,), mounted),
        call_ensures(mount::failure, (status,), refused),
        handle.0@.len() <= u32::MAX,
    ensures
        ({
            let end = 8 + layout::rounded(handle.0@.len() as int);
            &&& layout::says_u32(found@, 0, 0)
            &&& layout::says_field(found@, 4, handle.0@)
            &&& layout::says_u32(found@, end, 0)
            &&& layout::says_u32(found@, end + 4, 0)
            &&& found@.len() == end + 8
            &&& layout::says_u32(created@, 0, 0)
            &&& layout::says_u32(created@, 4, 1)
            &&& layout::says_field(created@, 8, handle.0@)
            &&& layout::says_u32(created@, end + 4, 0)
            &&& layout::says_u32(created@, end + 8, 0)
            &&& layout::says_u32(created@, end + 12, 0)
            &&& created@.len() == end + 16
            &&& layout::says_u32(mounted@, 0, 0)
            &&& layout::says_field(mounted@, 4, handle.0@)
            &&& layout::says_u32(mounted@, end, 1)
            &&& layout::says_u32(mounted@, end + 4, 1)
            &&& mounted@.len() == end + 8
            &&& layout::says_u32(refused@, 0, status)
            &&& refused@.len() == 4
        }),
{
    layout::handle_results_are_put(handle@);
    layout::mounts_are_put(Seq::empty(), handle@);
    layout::numbers_are_put(Seq::empty(), status);
    assert(Seq::<u8>::empty() + refused@ =~= refused@);
}

/// A record is written behind what is on the wire as one last fragment, its
/// length in four bytes with the topmost bit set; one too long for that is
/// refused, and nothing is written.
pub proof fn records_are_written(wire: &mut Vec<u8>, message: &[u8], written: Result<()>)
    requires
        call_ensures(rpc::write_record, (wire, message), written),
    ensures
        ({
            let was = old(wire)@;
            let now = final(wire)@;
            if message@.len() < 0x8000_0000 {
                let put = now.skip(was.len() as int);
                &&& written is Ok
                &&& now.len() == was.len() + 4 + message@.len()
                &&& now.take(was.len() as int) == was
                &&& layout::says_u32(put, 0, (0x8000_0000 + message@.len()) as u32)
                &&& layout::says_run(put, 4, message@)
            } else {
                promises::fails(
                    written,
                    error::permanent_failure("a record longer than a fragment can say"@),
                ) && now == was
            }
        }),
{
    if message@.len() < 0x8000_0000 {
        layout::fragments_are_put(message@, true);
        let was = wire@;
        let now = final(wire)@;
        assert(now.skip(was.len() as int) =~= rpc::record_bytes(message@));
        assert(now.take(was.len() as int) =~= was);
    }
}

/// What a reader of records owes, says and does is what the wire does to the
/// record that it reads.
pub proof fn readers_take_what_is_owed(
    max: usize,
    fresh: RecordReader,
    reader: &mut RecordReader,
    bytes: &[u8],
    taken: Result<Option<Vec<u8>>>,
)
    requires
        call_ensures(RecordReader::new, (max,), fresh),
        call_ensures(RecordReader::take, (reader, bytes), taken),
        bytes@.len() == rpc::owed(reader@.wanted),
    ensures
        fresh@.record.len() == 0,
        fresh@.max == max,
        !fresh@.begun,
        fresh@.wanted == Wanted::Mark,
        final(reader)@.max == old(reader)@.max,
        match old(reader)@.wanted {
            Wanted::Mark => {
                let length = layout::marked_length(bytes@);
                if old(reader)@.record.len() + length > old(reader)@.max {
                    taken is Err && final(reader)@ == old(reader)@
                } else {
                    &&& taken matches Ok(None)
                    &&& final(reader)@.record == old(reader)@.record
                    &&& final(reader)@.begun
                    &&& final(reader)@.wanted == (Wanted::Fragment {
                        length: length as usize,
                        last: layout::is_last(bytes@),
                    })
                }
            },
            Wanted::Fragment { last, .. } => if last {
                &&& taken matches Ok(Some(record))
                &&& record@ == old(reader)@.record + bytes@
                &&& final(reader)@.record.len() == 0
                &&& !final(reader)@.begun
                &&& final(reader)@.wanted == Wanted::Mark
            } else {
                &&& taken matches Ok(None)
                &&& final(reader)@.record == old(reader)@.record + bytes@
                &&& final(reader)@.wanted == Wanted::Mark
            },
        },
{
    match reader@.wanted {
        Wanted::Mark => {
            layout::marks_are_taken(reader@, bytes@);
        },
        Wanted::Fragment { length, last } => {
            layout::fragments_are_taken(reader@, bytes@, last);
        },
    }
}

/// How a reader of records is seen: four bytes are owed where a mark is, and
/// as many as it said where a fragment is; a wire closes cleanly only before
/// a record began.
pub proof fn readers_say_what_is_owed(
    reader: RecordReader,
    got: usize,
    count: usize,
    what: &'static str,
    clean: bool,
)
    requires
        call_ensures(RecordReader::owed, (&reader,), count),
        call_ensures(RecordReader::reading, (&reader,), what),
        call_ensures(RecordReader::closed_cleanly, (&reader, got), clean),
    ensures
        clean <==> got == 0 && !reader@.begun,
        reader@.wanted is Mark ==> count == 4 && what@ == "reading a record mark"@,
        reader@.wanted matches Wanted::Fragment { length, .. } ==> count == length && what@
            == "reading a fragment"@,
{
}

/// A record that is read off a wire is the one that opens it, in as many
/// fragments as it takes: where it is one last fragment, its bytes; what
/// follows it stays on the wire.
pub proof fn records_are_read_off_the_wire(
    wire: &mut Cursor,
    max: usize,
    read: Result<Option<Vec<u8>>>,
)
    requires
        call_ensures(rpc::read_record, (wire, max), read),
    ensures
        ({
            let was = old(wire)@;
            let now = final(wire)@;
            let length = layout::marked_length(was);
            &&& was.len() == 0 ==> (read matches Ok(None)) && now == was
            &&& 0 < was.len() < 4 ==> promises::fails(
                read,
                error::permanent_failure("reading a record mark"@ + ": the wire ended"@),
            ) && now.len() == 0
            &&& was.len() >= 4 && length > max ==> {
                &&& read matches Err(error) && !error.retryable
                &&& now == was.skip(4)
            }
            &&& was.len() >= 4 && length <= max && was.len() < 4 + length ==> promises::fails(
                read,
                error::permanent_failure("reading a fragment"@ + ": the wire ended"@),
            ) && now.len() == 0
            &&& was.len() >= 4 && length <= max && was.len() >= 4 + length && layout::is_last(was)
                ==> {
                &&& read matches Ok(Some(record))
                &&& record@ == was.subrange(4, 4 + length)
                &&& now == was.skip(4 + length)
            }
        }),
{
    let was = wire@;
    layout::records_are_read(rpc::unread_record(max as nat), was);
    let length = layout::marked_length(was);
    assert(Seq::<u8>::empty() + was.subrange(4, 4 + length) =~= was.subrange(4, 4 + length));
    layout::broken_wires_are_told(length as usize, layout::is_last(was));
}

/// Files are held by name: one that is put is there with its bytes, one that
/// is removed is gone, and what it held is handed back; nothing else changes.
pub proof fn files_are_held_by_name(
    files: &mut Files,
    name: String,
    bytes: Vec<u8>,
    wanted: &str,
    removed: Option<Vec<u8>>,
)
    ensures
        call_ensures(Files::insert, (files, name, bytes), ()) ==> {
            &&& final(files)@.dom() == old(files)@.dom().insert(name@)
            &&& final(files)@[name@] == bytes@
            &&& forall|other: Seq<char>|
                other != name@ && old(files)@.dom().contains(other) ==> final(files)@[other]
                    == #[trigger] old(files)@[other]
        },
        call_ensures(Files::remove, (files, wanted), removed) ==> {
            &&& final(files)@.dom() == old(files)@.dom().remove(wanted@)
            &&& removed is Some <==> old(files)@.dom().contains(wanted@)
            &&& removed matches Some(held) ==> held@ == old(files)@[wanted@]
            &&& forall|other: Seq<char>|
                other != wanted@ && old(files)@.dom().contains(other) ==> final(files)@[other]
                    == #[trigger] old(files)@[other]
        },
{
}

/// What files are seen to hold is what they hold: each by its name, all names
/// in the order of their bytes, each once, and how many there are.
pub proof fn files_are_seen(
    files: Files,
    name: &str,
    found: Option<&Vec<u8>>,
    there: bool,
    names: Vec<String>,
    count: usize,
    empty: bool,
)
    requires
        call_ensures(Files::get, (&files, name), found),
        call_ensures(Files::contains, (&files, name), there),
        call_ensures(Files::names, (&files,), names),
        call_ensures(Files::len, (&files,), count),
        call_ensures(Files::is_empty, (&files,), empty),
        files::listable(files@),
    ensures
        found is Some <==> files@.dom().contains(name@),
        found matches Some(bytes) ==> bytes@ == files@[name@],
        there <==> files@.dom().contains(name@),
        count == names@.len(),
        empty <==> files@ == Map::<Seq<char>, Seq<u8>>::empty(),
        forall|i: int| 0 <= i < names@.len() ==> files@.dom().contains((#[trigger] names@[i])@),
        forall|held: Seq<char>| #[trigger]
            files@.dom().contains(held) ==> exists|i: int|
                0 <= i < names@.len() && (#[trigger] names@[i])@ == held,
        forall|i: int, j: int|
            0 <= i < j < names@.len() ==> files::sorts_before(
                (#[trigger] names@[i])@,
                (#[trigger] names@[j])@,
            ),
{
    let listed = procedure::texts(names@);
    assert(files::lists(listed, files@));
    assert forall|i: int| 0 <= i < names@.len() implies files@.dom().contains(
        (#[trigger] names@[i])@,
    ) by {
        assert(listed[i] == names@[i]@);
        assert(listed.contains(listed[i]));
    }
    assert forall|held: Seq<char>| #[trigger] files@.dom().contains(held) implies exists|i: int|
        0 <= i < names@.len() && (#[trigger] names@[i])@ == held by {
        let i = choose|i: int| 0 <= i < listed.len() && listed[i] == held;
        assert(names@[i]@ == held);
    }
    assert forall|i: int, j: int| 0 <= i < j < names@.len() implies files::sorts_before(
        (#[trigger] names@[i])@,
        (#[trigger] names@[j])@,
    ) by {
        assert(listed[i] == names@[i]@ && listed[j] == names@[j]@);
    }
}

/// A status is told in words, a number in decimal, and a record is read to
/// 65536 bytes past the longest file.
pub proof fn numbers_are_told(
    what: &str,
    status: u32,
    told: TransportError,
    value: u64,
    digits: String,
    max_body: usize,
    limit: usize,
)
    requires
        call_ensures(status::status_error, (what, status), told),
        call_ensures(text::number, (value,), digits),
        call_ensures(client::record_limit, (max_body,), limit),
    ensures
        told.message@ == what@ + ": NFS status "@ + text::decimal(status as nat) + ", "@
            + status::meaning(status),
        told.retryable <==> status == 10008,
        text::value_of(digits@) == value,
        digits@ == text::decimal(value as nat),
        max_body + 65536 <= usize::MAX ==> limit == max_body + 65536,
        max_body + 65536 > usize::MAX ==> limit == usize::MAX,
{
    text::decimals_say_the_number(value as nat);
    client::records_have_room_for_a_file(max_body as nat);
}

/// A cursor starts at the front of its bytes, and tells how far it is and
/// what is left.
pub proof fn cursors_are_seen(
    bytes: &[u8],
    fresh: Cursor,
    reader: Cursor,
    position: usize,
    empty: bool,
    rest: &[u8],
)
    requires
        call_ensures(Cursor::new, (bytes,), fresh),
        call_ensures(Cursor::position, (&reader,), position),
        call_ensures(Cursor::is_empty, (&reader,), empty),
        call_ensures(Cursor::remaining, (&reader,), rest),
    ensures
        fresh@ == bytes@,
        fresh.buffer() == bytes@,
        position + rest@.len() == reader.buffer().len(),
        rest@ == reader.buffer().skip(position as int),
        rest@ == reader@,
        empty <==> rest@.len() == 0,
{
}

/// Bytes are taken off the front of what is left, and moved past; where there
/// are too few the cursor stays.
pub proof fn bytes_are_taken(reader: &mut Cursor, count: usize, taken: Result<&[u8]>)
    requires
        call_ensures(Cursor::take, (reader, count), taken),
    ensures
        final(reader).buffer() == old(reader).buffer(),
        count <= old(reader)@.len() ==> {
            &&& taken matches Ok(bytes)
            &&& bytes@ == old(reader)@.take(count as int)
            &&& final(reader)@ == old(reader)@.skip(count as int)
        },
        count > old(reader)@.len() ==> promises::fails(taken, error::runs_past())
            && final(reader)@ == old(reader)@,
{
}

/// Numbers are taken off the front of what is left, most significant byte
/// first, and moved past; where there are too few bytes the cursor stays.
pub proof fn numbers_are_taken(
    reader: &mut Cursor,
    short: Result<u32>,
    long: Result<u64>,
    flag: Result<bool>,
)
    ensures
        call_ensures(Cursor::u32_be, (reader,), short) ==> {
            let was = old(reader)@;
            if was.len() < 4 {
                promises::fails(short, error::runs_past()) && final(reader)@ == was
            } else {
                &&& short matches Ok(value)
                &&& value == was[0] * 0x100_0000 + was[1] * 0x1_0000 + was[2] * 0x100 + was[3]
                &&& final(reader)@ == was.skip(4)
            }
        },
        call_ensures(Cursor::u64_be, (reader,), long) ==> {
            let was = old(reader)@;
            if was.len() < 8 {
                promises::fails(long, error::runs_past()) && final(reader)@ == was
            } else {
                &&& long matches Ok(value)
                &&& value == layout::u64_at(was, 0)
                &&& final(reader)@ == was.skip(8)
            }
        },
        call_ensures(<Cursor as Xdr>::bool, (reader,), flag) ==> {
            let was = old(reader)@;
            if was.len() < 4 {
                promises::fails(flag, error::runs_past()) && final(reader)@ == was
            } else {
                &&& flag matches Ok(value)
                &&& value == (layout::u32_at(was, 0) != 0)
                &&& final(reader)@ == was.skip(4)
            }
        },
{
    let was = reader@;
    assert(was.skip(0) =~= was);
    layout::numbers_are_read(was, 0);
    layout::long_numbers_are_read(was, 0);
    layout::flags_are_read(was, 0);
}

/// Counted bytes and strings are taken off the front of what is left, and
/// moved past with their padding.
pub proof fn fields_are_taken(reader: &mut Cursor, field: Result<&[u8]>, string: Result<String>)
    ensures
        call_ensures(<Cursor as Xdr>::opaque, (reader,), field) ==> {
            let was = old(reader)@;
            if layout::has_field(was, 0) {
                &&& field matches Ok(bytes)
                &&& bytes@ == layout::field_at(was, 0)
                &&& final(reader)@ == was.skip(layout::field_end(was, 0))
            } else {
                promises::fails(field, error::runs_past())
            }
        },
        call_ensures(<Cursor as Xdr>::string, (reader,), string) ==> {
            let was = old(reader)@;
            if layout::has_field(was, 0) {
                &&& string matches Ok(read)
                &&& read@ == text::text_of(layout::field_at(was, 0))
                &&& final(reader)@ == was.skip(layout::field_end(was, 0))
            } else {
                promises::fails(string, error::runs_past())
            }
        },
{
    let was = reader@;
    assert(was.skip(0) =~= was);
    layout::fields_are_read(was, 0);
    layout::strings_are_read(was, 0);
}

/// A listing is given as one, of the names that it is handed, in their order.
pub proof fn listings_are_given(names: &[String], out: Vec<u8>)
    requires
        call_ensures(procedure::readdir_ok, (names,), out),
    ensures
        ({
            let entries = procedure::entries_bytes(Seq::new(names@.len(), |i: int| names@[i]@));
            let end = 16 + entries.len() as int;
            &&& layout::says_u32(out@, 0, 0)
            &&& layout::says_u32(out@, 4, 0)
            &&& layout::says_run(out@, 8, seq![0u8, 0, 0, 0, 0, 0, 0, 0])
            &&& layout::says_run(out@, 16, entries)
            &&& layout::says_u32(out@, end, 0)
            &&& layout::says_u32(out@, end + 4, 1)
            &&& out@.len() == end + 8
        }),
{
    assert(procedure::texts(names@) =~= Seq::new(names@.len(), |i: int| names@[i]@));
    layout::listings_are_put(procedure::texts(names@), Seq::empty());
}

/// The names that are taken of a listing are those that lie in it, behind the
/// status, the attributes and the verifier, where the flag behind them says
/// that they are all.
pub proof fn listings_are_taken(results: &[u8], taken: Result<Vec<String>>)
    requires
        call_ensures(procedure::take_readdir, (results,), taken),
    ensures
        ({
            let at = layout::attributes_end(results@, 4) + 8;
            let entries = procedure::read_entries(results@.skip(at));
            let ok = layout::is_ok(results@);
            &&& !ok ==> promises::fails(taken, layout::refusal(results@, "listing"@))
            &&& taken is Ok <==> {
                &&& ok
                &&& layout::has_attributes(results@, 4)
                &&& at <= results@.len()
                &&& entries is Ok
                &&& entries->Ok_0.1.len() >= 4
                &&& layout::u32_at(entries->Ok_0.1, 0) != 0
            }
            &&& taken matches Ok(names) ==> procedure::texts(names@) == procedure::without_dots(
                entries->Ok_0.0,
            )
        }),
{
    layout::listings_are_read(results@);
}

/// The origin of a file, and what a target stands for: a name on what is
/// configured, or the server, the export and the name of a URI.
pub proof fn targets_are_told(
    server: &str,
    export: &str,
    name: &str,
    uri: String,
    target: &str,
    named: Result<(&str, String, &str)>,
)
    requires
        call_ensures(arrived::origin, (server, export, name), uri),
        call_ensures(target::resolve, (server, export, target), named),
    ensures
        uri@ == seq!['n', 'f', 's', ':', '/', '/'] + server@ + export@ + seq!['/'] + name@,
        named matches Err(error) ==> !error.retryable,
        target@.len() > 0 && !target@.contains('/') ==> {
            &&& named matches Ok((host, path, file))
            &&& host@ == server@
            &&& path@ == export@
            &&& file@ == target@
        },
        named matches Ok((host, path, file)) ==> {
            &&& file@.len() > 0
            &&& !file@.contains('/')
            &&& {
                ||| target@ == file@ && host@ == server@ && path@ == export@
                ||| {
                    &&& target@ == seq!['n', 'f', 's', ':', '/', '/'] + host@ + path@ + seq!['/']
                        + file@
                    &&& !host@.contains('/')
                    &&& path@.len() > 1
                    &&& path@[0] == '/'
                }
            }
        },
{
    arrived::origins_are_told(server@, export@, name@);
    target::targets_are_names_or_uris(server@, export@, target@);
    target::bad_targets_are_permanent(server@, export@, target@);
    if target@.len() > 0 && !target@.contains('/') {
        target::names_resolve(server@, export@, target@);
    }
}

/// The results of a reply are those that it carries where the call was run;
/// where it was not there are none, and trying again will not mend it.
pub proof fn replies_give_their_results(reply: Reply, results: Result<Vec<u8>>)
    requires
        call_ensures(Reply::results, (reply,), results),
    ensures
        reply.outcome matches Outcome::Success(bytes) ==> (results matches Ok(same) && same@
            == bytes@),
        !(reply.outcome is Success) ==> (results matches Err(error) && !error.retryable),
{
    layout::outcomes_are_told(reply@.outcome);
}

/// A failure is told in the words it is given, and says whether trying again
/// may mend it.
pub proof fn failures_are_what_they_say(
    message: String,
    words: &str,
    lasting: TransportError,
    passing: TransportError,
    foreign: TransportError,
)
    requires
        call_ensures(TransportError::permanent, (message,), lasting),
        call_ensures(TransportError::retryable, (message,), passing),
        call_ensures(error::protocol_error, (words,), foreign),
    ensures
        lasting.message@ == message@ && !lasting.retryable,
        passing.message@ == message@ && passing.retryable,
        foreign.message@ == words@ && !foreign.retryable,
{
}

} // verus!
