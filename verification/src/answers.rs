//! How a session answers each procedure, told by where things lie in the
//! arguments and in the results, and by what the files hold, byte by byte.

use vstd::prelude::*;
#[allow(unused_imports)]
use vstd::utf8;

#[allow(unused_imports)]
use crate::arrived::ArrivedView;
#[allow(unused_imports)]
use crate::error::{self, Failure};
#[allow(unused_imports)]
use crate::files::{self, FilesView};
#[allow(unused_imports)]
use crate::layout;
#[allow(unused_imports)]
use crate::mount;
#[allow(unused_imports)]
use crate::procedure;
#[allow(unused_imports)]
use crate::rpc::{self, CallView, OutcomeView, ReplyView};
#[allow(unused_imports)]
use crate::session::{self, EventView, SessionView};
#[allow(unused_imports)]
use crate::text;
#[allow(unused_imports)]
use crate::xdr;

verus! {

/// What a call is answered with, what is told of it, and what the export then
/// holds.
pub type Answer = (OutcomeView, Option<EventView>, FilesView);

/// Whether a call is of this procedure of the NFS program.
pub open spec fn is_nfs(call: CallView, procedure: u32) -> bool {
    call.program == 100003 && call.version == 3 && call.procedure == procedure
}

/// Whether a call is of this procedure of the mount program.
pub open spec fn is_mount(call: CallView, procedure: u32) -> bool {
    call.program == 100005 && call.version == 3 && call.procedure == procedure
}

/// Whether an answer is a status with this many empty attributes behind it,
/// and nothing was done.
pub open spec fn refuses(session: SessionView, answer: Answer, status: u32, flags: int) -> bool {
    &&& answer.0 matches OutcomeView::Success(results)
    &&& layout::says_u32(results, 0, status)
    &&& forall|i: int| 1 <= i <= flags ==> #[trigger] layout::says_u32(results, 4 * i, 0)
    &&& results.len() == 4 + 4 * flags
    &&& answer.1 is None
    &&& answer.2 == session.files
}

/// Whether an answer is that the arguments could not be read, and nothing was
/// done.
pub open spec fn is_garbage(session: SessionView, answer: Answer) -> bool {
    answer == (OutcomeView::GarbageArguments, None::<EventView>, session.files)
}

/// A refusal is put as one.
proof fn refusals_are_put(session: SessionView, status: u32, procedure: u32)
    ensures
        ({
            let done = session::refused(session, status, procedure);
            let changes = procedure == 7 || procedure == 8 || procedure == 12 || procedure == 21;
            refuses(
                session,
                (OutcomeView::Success(done.results), done.event, done.files),
                status,
                if changes {
                    2
                } else {
                    1
                },
            )
        }),
{
    let results = procedure::failure_bytes(status, procedure);
    layout::failures_are_put(status, procedure);
    assert(forall|i: int|
        1 <= i <= 2 && 4 + 4 * i <= results.len() ==> #[trigger] layout::says_u32(
            results,
            4 * i,
            0,
        ));
}

/// The handle of one zero byte is the root's, whose name is empty; any other
/// is the name of its file in UTF-8, and a file's handle is its name in
/// UTF-8.
pub proof fn handles_are_names(handle: Seq<u8>, name: Seq<char>)
    ensures
        session::root_handle() == seq![0u8],
        session::name_in(seq![0u8]) == Seq::<char>::empty(),
        handle != seq![0u8] ==> session::name_in(handle) == text::text_of(handle),
        session::handle_of(name) == utf8::encode_utf8(name),
{
}

/// How many bytes of a file of `len` a read from `offset` gives: as many as
/// it asks for, or as many as there are.
pub open spec fn readable(len: int, offset: int, count: int) -> int {
    let left = if offset < len {
        len - offset
    } else {
        0
    };
    if count < left {
        count
    } else {
        left
    }
}

/// What is read of a file is as many bytes as are asked for, or as there are
/// from the offset on, and each is the file's at its place.
pub proof fn reads_give_what_the_file_holds(bytes: Seq<u8>, offset: nat, count: nat)
    ensures
        ({
            let data = session::slice_of(bytes, offset, count);
            &&& data.len() == readable(bytes.len() as int, offset as int, count as int)
            &&& forall|i: int| 0 <= i < data.len() ==> #[trigger] data[i] == bytes[offset + i]
        }),
{
}

/// A `READ` is of the file of its handle, from the offset in the eight bytes
/// behind it, and of as many bytes as the four behind those say. It gives as
/// many as there are from there on, each the file's at its place, and says
/// that the file ends there just where what was asked for reaches its end;
/// where it says so, what it gives reaches the end too.
pub proof fn reads_are_answered(session: SessionView, call: CallView)
    requires
        is_nfs(call, 6),
    ensures
        ({
            let arguments = call.arguments;
            let at = layout::field_end(arguments, 0);
            let name = session::name_in(layout::field_at(arguments, 0));
            let offset = layout::u64_at(arguments, at);
            let count = layout::u32_at(arguments, at + 8);
            let bytes = session.files[name];
            let data = Seq::new(
                readable(bytes.len() as int, offset as int, count as int) as nat,
                |i: int| bytes[offset + i],
            );
            let eof = offset + count >= bytes.len();
            let answer = session::answered(session, call);
            if !layout::has_handle(arguments, 0) || arguments.len() < at + 12 {
                is_garbage(session, answer)
            } else if !session.files.dom().contains(name) {
                refuses(session, answer, 70, 1)
            } else {
                &&& answer.0 matches OutcomeView::Success(results)
                &&& layout::says_u32(results, 0, 0)
                &&& layout::says_u32(results, 4, 0)
                &&& layout::says_u32(results, 8, data.len() as u32)
                &&& layout::says_u32(
                    results,
                    12,
                    if eof {
                        1
                    } else {
                        0
                    },
                )
                &&& layout::says_field(results, 16, data)
                &&& results.len() == 20 + layout::rounded(data.len() as int)
                &&& eof ==> offset + data.len() >= bytes.len()
                &&& answer.1 == Some(EventView::Read(name))
                &&& answer.2 == session.files
            }
        }),
{
    let arguments = call.arguments;
    layout::read_args_are_read(arguments);
    let at = layout::field_end(arguments, 0);
    let name = session::name_in(layout::field_at(arguments, 0));
    let offset = layout::u64_at(arguments, at);
    let count = layout::u32_at(arguments, at + 8);
    let bytes = session.files[name];
    let data = Seq::new(
        readable(bytes.len() as int, offset as int, count as int) as nat,
        |i: int| bytes[offset + i],
    );
    assert(session::slice_of(bytes, offset as nat, count as nat) =~= data);
    layout::read_results_are_put(data, offset + count >= bytes.len());
    refusals_are_put(session, 70, 6);
}

/// A `WRITE` is of the file of its handle, at the offset in the eight bytes
/// behind it, of the data that lie sixteen bytes behind it. It is refused
/// where there is no such file and where the data would reach past what is
/// kept. Else the file holds the data from the offset on, what it held
/// elsewhere, and zeros between where it ended before the offset; no other
/// file changes, and all of the data are said to be written.
pub proof fn writes_are_answered(session: SessionView, call: CallView)
    requires
        is_nfs(call, 7),
    ensures
        ({
            let arguments = call.arguments;
            let at = layout::field_end(arguments, 0);
            let name = session::name_in(layout::field_at(arguments, 0));
            let offset = layout::u64_at(arguments, at);
            let data = layout::field_at(arguments, at + 16);
            let bytes = session.files[name];
            let end = offset + data.len();
            let answer = session::answered(session, call);
            let over = answer.2[name];
            if !layout::has_handle(arguments, 0) || !layout::has_field(arguments, at + 16) {
                is_garbage(session, answer)
            } else if !session.files.dom().contains(name) {
                refuses(session, answer, 70, 2)
            } else if end > session.max_body {
                refuses(session, answer, 27, 2)
            } else {
                &&& answer.0 matches OutcomeView::Success(results)
                &&& layout::says_u32(results, 0, 0)
                &&& layout::says_u32(results, 4, 0)
                &&& layout::says_u32(results, 8, 0)
                &&& layout::says_u32(results, 12, data.len() as u32)
                &&& layout::says_u32(results, 16, 2)
                &&& layout::says_run(results, 20, seq![120u8, 109, 105, 112, 45, 110, 102, 115])
                &&& results.len() == 28
                &&& answer.1 == Some(EventView::Written(name, offset, data.len()))
                &&& answer.2 == session.files.insert(name, over)
                &&& over.len() == if end > bytes.len() {
                    end
                } else {
                    bytes.len() as int
                }
                &&& forall|i: int|
                    0 <= i < over.len() ==> #[trigger] over[i] == if offset <= i < end {
                        data[i - offset]
                    } else if i < bytes.len() {
                        bytes[i]
                    } else {
                        0
                    }
            }
        }),
{
    let arguments = call.arguments;
    layout::write_args_are_read(arguments);
    let data = layout::field_at(arguments, layout::field_end(arguments, 0) + 16);
    verifier_is();
    layout::write_results_are_put(data.len() as u32, session::VERIFIER@);
    refusals_are_put(session, 70, 7);
    refusals_are_put(session, 27, 7);
}

/// The bytes of the verifier.
proof fn verifier_is()
    ensures
        session::VERIFIER@ == seq![120u8, 109, 105, 112, 45, 110, 102, 115],
{
    assert(session::VERIFIER@ =~= seq![120u8, 109, 105, 112, 45, 110, 102, 115]);
}

/// A `COMMIT` is of the file of its handle: it is refused where there is none,
/// and else hands up the file as it is, from where the client is, and changes
/// nothing.
pub proof fn commits_are_answered(session: SessionView, call: CallView)
    requires
        is_nfs(call, 21),
    ensures
        ({
            let arguments = call.arguments;
            let name = session::name_in(layout::field_at(arguments, 0));
            let answer = session::answered(session, call);
            if !layout::has_handle(arguments, 0) {
                is_garbage(session, answer)
            } else if !session.files.dom().contains(name) {
                refuses(session, answer, 70, 2)
            } else {
                &&& answer.0 matches OutcomeView::Success(results)
                &&& layout::says_u32(results, 0, 0)
                &&& layout::says_u32(results, 4, 0)
                &&& layout::says_u32(results, 8, 0)
                &&& layout::says_run(results, 12, seq![120u8, 109, 105, 112, 45, 110, 102, 115])
                &&& results.len() == 20
                &&& answer.1 == Some(
                    EventView::Committed(
                        ArrivedView {
                            origin_uri: "nfs://"@ + session.peer + session.export + "/"@ + name,
                            bytes: session.files[name],
                        },
                    ),
                )
                &&& answer.2 == session.files
            }
        }),
{
    layout::first_handles_are_read(call.arguments);
    verifier_is();
    layout::commits_are_put(session::VERIFIER@);
    refusals_are_put(session, 70, 21);
}

/// A `LOOKUP` is of the name that lies behind the handle of the directory: it
/// gives the name as the handle where there is such a file, and is refused
/// where there is none.
pub proof fn lookups_are_answered(session: SessionView, call: CallView)
    requires
        is_nfs(call, 3),
    ensures
        ({
            let arguments = call.arguments;
            let at = layout::field_end(arguments, 0);
            let name = text::text_of(layout::field_at(arguments, at));
            let handle = utf8::encode_utf8(name);
            let end = 8 + layout::rounded(handle.len() as int);
            let answer = session::answered(session, call);
            if !layout::has_handle(arguments, 0) || !layout::has_field(arguments, at) {
                is_garbage(session, answer)
            } else if !session.files.dom().contains(name) {
                refuses(session, answer, 2, 1)
            } else {
                &&& answer.0 matches OutcomeView::Success(results)
                &&& answer.1 is None
                &&& answer.2 == session.files
                &&& handle.len() <= u32::MAX ==> {
                    &&& layout::says_u32(results, 0, 0)
                    &&& layout::says_field(results, 4, handle)
                    &&& layout::says_u32(results, end, 0)
                    &&& layout::says_u32(results, end + 4, 0)
                    &&& results.len() == end + 8
                }
            }
        }),
{
    let arguments = call.arguments;
    layout::dir_args_are_read(arguments);
    let name = text::text_of(layout::field_at(arguments, layout::field_end(arguments, 0)));
    if utf8::encode_utf8(name).len() <= u32::MAX {
        layout::handle_results_are_put(utf8::encode_utf8(name));
    }
    refusals_are_put(session, 2, 3);
}

/// A `CREATE` is of the name that lies behind the handle of the directory: an
/// empty file is then there under it, whatever was, no other file changes,
/// and the name is given as the handle.
pub proof fn creates_are_answered(session: SessionView, call: CallView)
    requires
        is_nfs(call, 8),
    ensures
        ({
            let arguments = call.arguments;
            let at = layout::field_end(arguments, 0);
            let name = text::text_of(layout::field_at(arguments, at));
            let handle = utf8::encode_utf8(name);
            let end = 12 + layout::rounded(handle.len() as int);
            let answer = session::answered(session, call);
            if !layout::has_handle(arguments, 0) || !layout::has_field(arguments, at) {
                is_garbage(session, answer)
            } else {
                &&& answer.0 matches OutcomeView::Success(results)
                &&& answer.1 == Some(EventView::Created(name))
                &&& answer.2 == session.files.insert(name, Seq::empty())
                &&& handle.len() <= u32::MAX ==> {
                    &&& layout::says_u32(results, 0, 0)
                    &&& layout::says_u32(results, 4, 1)
                    &&& layout::says_field(results, 8, handle)
                    &&& layout::says_u32(results, end, 0)
                    &&& layout::says_u32(results, end + 4, 0)
                    &&& layout::says_u32(results, end + 8, 0)
                    &&& results.len() == end + 12
                }
            }
        }),
{
    let arguments = call.arguments;
    layout::dir_args_are_read(arguments);
    let name = text::text_of(layout::field_at(arguments, layout::field_end(arguments, 0)));
    if utf8::encode_utf8(name).len() <= u32::MAX {
        layout::handle_results_are_put(utf8::encode_utf8(name));
    }
}

/// A `REMOVE` is of the name that lies behind the handle of the directory:
/// the file is then gone, and no other changes; it is refused where there is
/// none.
pub proof fn removes_are_answered(session: SessionView, call: CallView)
    requires
        is_nfs(call, 12),
    ensures
        ({
            let arguments = call.arguments;
            let at = layout::field_end(arguments, 0);
            let name = text::text_of(layout::field_at(arguments, at));
            let answer = session::answered(session, call);
            if !layout::has_handle(arguments, 0) || !layout::has_field(arguments, at) {
                is_garbage(session, answer)
            } else if !session.files.dom().contains(name) {
                refuses(session, answer, 2, 2)
            } else {
                &&& answer.0 matches OutcomeView::Success(results)
                &&& layout::says_u32(results, 0, 0)
                &&& layout::says_u32(results, 4, 0)
                &&& layout::says_u32(results, 8, 0)
                &&& results.len() == 12
                &&& answer.1 == Some(EventView::Removed(name))
                &&& answer.2 == session.files.remove(name)
            }
        }),
{
    layout::dir_args_are_read(call.arguments);
    layout::removes_are_put();
    refusals_are_put(session, 2, 12);
}

/// A `READDIR` of any handle gives the names of all files, in order, and
/// changes nothing.
pub proof fn listings_are_answered(session: SessionView, call: CallView)
    requires
        is_nfs(call, 16),
        files::listable(session.files),
    ensures
        ({
            let names = files::listing(session.files);
            let entries = procedure::entries_bytes(names);
            let end = 16 + entries.len() as int;
            let answer = session::answered(session, call);
            if !layout::has_handle(call.arguments, 0) {
                is_garbage(session, answer)
            } else {
                &&& answer.0 matches OutcomeView::Success(results)
                &&& layout::says_u32(results, 0, 0)
                &&& layout::says_u32(results, 4, 0)
                &&& layout::says_run(results, 8, seq![0u8, 0, 0, 0, 0, 0, 0, 0])
                &&& layout::says_run(results, 16, entries)
                &&& layout::says_u32(results, end, 0)
                &&& layout::says_u32(results, end + 4, 1)
                &&& results.len() == end + 8
                &&& answer.1 == Some(EventView::Listed)
                &&& answer.2 == session.files
                &&& forall|name: Seq<char>| #[trigger]
                    names.contains(name) <==> session.files.dom().contains(name)
                &&& forall|i: int, j: int|
                    0 <= i < j < names.len() ==> files::sorts_before(
                        #[trigger] names[i],
                        #[trigger] names[j],
                    )
            }
        }),
{
    layout::first_handles_are_read(call.arguments);
    layout::listings_are_put(files::listing(session.files), Seq::empty());
    assert(files::lists(files::listing(session.files), session.files));
}

/// A `MNT` of the export is granted, with the root; one of another path is
/// refused. A `UMNT` of any path is granted, and so is a `NULL`. None of them
/// changes a file.
pub proof fn mounts_are_answered(session: SessionView, call: CallView)
    requires
        call.program == 100005,
        call.version == 3,
    ensures
        ({
            let arguments = call.arguments;
            let path = text::text_of(layout::field_at(arguments, 0));
            let answer = session::answered(session, call);
            if !layout::has_field(arguments, 0) {
                is_garbage(session, answer)
            } else if call.procedure == 0 {
                answer == (
                    OutcomeView::Success(Seq::empty()),
                    None::<EventView>,
                    session.files,
                )
            } else if call.procedure == 1 && path != session.export {
                refuses(session, answer, 13, 0)
            } else if call.procedure == 1 {
                &&& answer.0 matches OutcomeView::Success(results)
                &&& layout::says_u32(results, 0, 0)
                &&& layout::says_field(results, 4, seq![0u8])
                &&& layout::says_u32(results, 12, 1)
                &&& layout::says_u32(results, 16, 1)
                &&& results.len() == 20
                &&& answer.1 == Some(EventView::Mounted(path))
                &&& answer.2 == session.files
            } else if call.procedure == 3 {
                answer == (
                    OutcomeView::Success(Seq::empty()),
                    Some(EventView::Unmounted),
                    session.files,
                )
            } else {
                answer == (OutcomeView::ProcedureUnavailable, None::<EventView>, session.files)
            }
        }),
{
    layout::mount_args_are_read(call.arguments);
    layout::mounts_are_put(Seq::empty(), seq![0u8]);
    layout::numbers_are_put(Seq::empty(), 13);
    assert(Seq::<u8>::empty() + crate::writer::u32_bytes(13) =~= crate::writer::u32_bytes(13));
}

/// A call of another program is of none that is served, and one of another
/// version than three is told of three. Of the NFS program a `NULL` is
/// granted whatever it carries, and a procedure that is none of the seven is
/// not served. None of these does anything.
pub proof fn other_calls_are_not_served(session: SessionView, call: CallView)
    ensures
        call.program != 100003 && call.program != 100005 ==> session::answered(session, call) == (
            OutcomeView::ProgramUnavailable,
            None::<EventView>,
            session.files,
        ),
        (call.program == 100003 || call.program == 100005) && call.version != 3
            ==> session::answered(session, call) == (
            OutcomeView::ProgramMismatch { low: 3, high: 3 },
            None::<EventView>,
            session.files,
        ),
        is_nfs(call, 0) ==> session::answered(session, call) == (
            OutcomeView::Success(Seq::empty()),
            None::<EventView>,
            session.files,
        ),
        call.program == 100003 && call.version == 3 && call.procedure != 0 && call.procedure != 3
            && call.procedure != 6 && call.procedure != 7 && call.procedure != 8 && call.procedure
            != 12 && call.procedure != 16 && call.procedure != 21 ==> session::answered(
            session,
            call,
        ) == (OutcomeView::ProcedureUnavailable, None::<EventView>, session.files),
{
}

/// A record is replied to just where it is a call. The reply has the id of
/// the call in its first four bytes and says how the call was answered, and
/// of the session only the files change.
pub proof fn records_are_replied_to(session: SessionView, record: Seq<u8>)
    ensures
        match rpc::parse_call(record) {
            Ok(call) => {
                let answer = session::answered(session, call);
                &&& session::replied(session, record) matches Ok((reply, event, after))
                &&& layout::says_reply(
                    reply,
                    ReplyView { xid: layout::u32_at(record, 0), outcome: answer.0 },
                )
                &&& event == answer.1
                &&& after.files == answer.2
                &&& after.peer == session.peer
                &&& after.export == session.export
                &&& after.max_body == session.max_body
            },
            Err(failure) => session::replied(session, record) == Err::<
                (Seq<u8>, Option<EventView>, SessionView),
                Failure,
            >(failure),
        },
{
    if let Ok(call) = rpc::parse_call(record) {
        layout::other_records_are_no_calls(record);
        layout::calls_are_read(record);
        layout::replies_are_put(
            ReplyView { xid: call.xid, outcome: session::answered(session, call).0 },
        );
    }
}

} // verus!
