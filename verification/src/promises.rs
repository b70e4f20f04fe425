//! What the functions of the library hand back, told of the functions
//! themselves: whatever is handed to one, and whatever it hands back, the two
//! stand to each other as is said here, byte by byte.

use core::time::Duration;

use vstd::prelude::*;
#[allow(unused_imports)]
use vstd::utf8;

#[allow(unused_imports)]
use crate::answers;
#[allow(unused_imports)]
use crate::arrived::{self, Arrived, ArrivedView};
#[allow(unused_imports)]
use crate::client::{self, Client, ClientView, Download, Downloaded, Next, Pending, Upload};
#[allow(unused_imports)]
use crate::error::{self, Failure, Result};
#[allow(unused_imports)]
use crate::exchange::{
    self, Errand, ReceiveStageView, Receiving, SendStageView, Sending, Turn,
};
#[allow(unused_imports)]
use crate::files::{self, Files};
#[allow(unused_imports)]
use crate::layout;
#[allow(unused_imports)]
use crate::mount;
#[allow(unused_imports)]
use crate::procedure::{self, Handle};
#[allow(unused_imports)]
use crate::progress;
#[allow(unused_imports)]
use crate::rpc::{self, Call, Outcome, Reply, ReplyView, Unix};
#[allow(unused_imports)]
use crate::session::{self, Event, EventView, Session, Step};
#[allow(unused_imports)]
use crate::target;
#[allow(unused_imports)]
use crate::text;
#[allow(unused_imports)]
use crate::xdr;
#[allow(unused_imports)]
use crate::{NfsTransport, TransportView};

verus! {

/// Whether what was handed back is this failure.
pub open spec fn fails<T>(handed: Result<T>, failure: Failure) -> bool {
    handed matches Err(error) && error.message@ == failure.message && error.retryable
        == failure.retryable
}

/// A call message says what the call does, and who makes it: behind the stamp
/// of zero and the padded machine name of its credential lie the user in four
/// bytes and the group in four, most significant first.
pub proof fn calls_say_who_calls(call: Call, credentials: Unix, out: Vec<u8>)
    requires
        call_ensures(Call::to_bytes, (&call, &credentials), out),
        rpc::unix_bytes(credentials@).len() <= u32::MAX,
        utf8::encode_utf8(credentials.machine@).len() <= u32::MAX,
    ensures
        ({
            let machine = utf8::encode_utf8(credentials.machine@);
            let body = layout::field_at(out@, 28);
            let at = 8 + layout::rounded(machine.len() as int);
            let verifier = layout::field_end(out@, 28);
            &&& layout::says_u32(out@, 0, call.xid)
            &&& layout::says_u32(out@, 4, 0)
            &&& layout::says_u32(out@, 8, 2)
            &&& layout::says_u32(out@, 12, call.program)
            &&& layout::says_u32(out@, 16, call.version)
            &&& layout::says_u32(out@, 20, call.procedure)
            &&& layout::says_u32(out@, 24, 1)
            &&& layout::says_field(out@, 28, body)
            &&& layout::says_u32(body, 0, 0)
            &&& layout::says_field(body, 4, machine)
            &&& layout::says_u32(body, at, credentials.uid)
            &&& layout::says_u32(body, at + 4, credentials.gid)
            &&& layout::says_u32(body, at + 8, 0)
            &&& body.len() == at + 12
            &&& layout::says_u32(out@, verifier, 0)
            &&& layout::says_u32(out@, verifier + 4, 0)
            &&& layout::says_run(out@, verifier + 8, call.arguments@)
            &&& out@.len() == verifier + 8 + call.arguments@.len()
        }),
{
    layout::calls_are_put(call@, credentials@);
    layout::credentials_are_put(credentials@);
    reveal(layout::says_call);
    reveal(layout::says_field);
}

/// What is taken of a call message is what lies in it: of its credential the
/// user in the four bytes behind the stamp and the padded machine name, and
/// the group in the four behind those.
pub proof fn calls_are_heard(record: &[u8], taken: Result<Call>)
    requires
        call_ensures(Call::from_bytes, (record,), taken),
    ensures
        taken matches Ok(call) ==> {
            let body = layout::field_at(record@, 28);
            let at = layout::field_end(body, 4);
            let verifier = layout::field_end(record@, 28);
            &&& layout::u32_at(record@, 0) == call.xid
            &&& layout::u32_at(record@, 4) == 0
            &&& layout::u32_at(record@, 8) == 2
            &&& layout::u32_at(record@, 12) == call.program
            &&& layout::u32_at(record@, 16) == call.version
            &&& layout::u32_at(record@, 20) == call.procedure
            &&& call.credentials is Some <==> layout::u32_at(record@, 24) == 1
            &&& layout::has_field(record@, 28)
            &&& call.credentials matches Some(unix) ==> {
                &&& layout::has_field(body, 4)
                &&& body.len() >= at + 8
                &&& unix.machine@ == text::text_of(layout::field_at(body, 4))
                &&& unix.uid == layout::u32_at(body, at)
                &&& unix.gid == layout::u32_at(body, at + 4)
            }
            &&& layout::has_field(record@, verifier + 4)
            &&& call.arguments@ == record@.skip(layout::field_end(record@, verifier + 4))
        },
        ({
            let body = layout::field_at(record@, 28);
            let verifier = layout::field_end(record@, 28);
            &&& layout::has_field(record@, 28)
            &&& layout::u32_at(record@, 4) == 0
            &&& layout::u32_at(record@, 8) == 2
            &&& layout::u32_at(record@, 24) == 1 ==> layout::has_field(body, 4)
                && layout::field_end(body, 4) + 8 <= body.len()
            &&& layout::has_field(record@, verifier + 4)
        }) ==> taken is Ok,
        taken matches Err(error) ==> !error.retryable,
{
    layout::other_records_are_no_calls(record@);
    if record@.len() >= 12 && layout::u32_at(record@, 4) == 0 && layout::u32_at(record@, 8) == 2 {
        layout::calls_are_read(record@);
        if layout::has_field(record@, 28) {
            layout::credentials_are_read(layout::field_at(record@, 28));
        }
    }
}

/// A reply message says which call it answers and how the call came out.
pub proof fn replies_say_how_it_went(reply: Reply, out: Vec<u8>)
    requires
        call_ensures(Reply::to_bytes, (&reply,), out),
    ensures
        layout::says_u32(out@, 0, reply.xid),
        layout::says_u32(out@, 4, 1),
        layout::says_u32(out@, 8, 0),
        layout::says_u32(out@, 12, 0),
        layout::says_u32(out@, 16, 0),
        match reply.outcome {
            Outcome::Success(results) => layout::says_u32(out@, 20, 0) && layout::says_run(
                out@,
                24,
                results@,
            ) && out@.len() == 24 + results@.len(),
            Outcome::ProgramUnavailable => layout::says_u32(out@, 20, 1) && out@.len() == 24,
            Outcome::ProgramMismatch { low, high } => layout::says_u32(out@, 20, 2)
                && layout::says_u32(out@, 24, low) && layout::says_u32(out@, 28, high)
                && out@.len() == 32,
            Outcome::ProcedureUnavailable => layout::says_u32(out@, 20, 3) && out@.len() == 24,
            Outcome::GarbageArguments => layout::says_u32(out@, 20, 4) && out@.len() == 24,
        },
{
    layout::replies_are_put(reply@);
}

/// What is taken of a reply message is what lies in it: the id of the call,
/// and behind the verifier how the call came out.
pub proof fn replies_are_heard(record: &[u8], taken: Result<Reply>)
    requires
        call_ensures(Reply::from_bytes, (record,), taken),
    ensures
        taken matches Ok(reply) ==> {
            let at = layout::field_end(record@, 16);
            &&& layout::u32_at(record@, 0) == reply.xid
            &&& layout::u32_at(record@, 4) == 1
            &&& layout::u32_at(record@, 8) == 0
            &&& layout::has_field(record@, 16)
            &&& at + 4 <= record@.len()
            &&& match reply.outcome {
                Outcome::Success(results) => layout::u32_at(record@, at) == 0 && results@
                    == record@.skip(at + 4),
                Outcome::ProgramUnavailable => layout::u32_at(record@, at) == 1,
                Outcome::ProgramMismatch { low, high } => layout::u32_at(record@, at) == 2 && low
                    == layout::u32_at(record@, at + 4) && high == layout::u32_at(record@, at + 8)
                    && at + 12 <= record@.len(),
                Outcome::ProcedureUnavailable => layout::u32_at(record@, at) == 3,
                Outcome::GarbageArguments => layout::u32_at(record@, at) == 4,
            }
        },
        ({
            let at = layout::field_end(record@, 16);
            &&& layout::has_field(record@, 16)
            &&& at + 4 <= record@.len()
            &&& layout::u32_at(record@, 4) == 1
            &&& layout::u32_at(record@, 8) == 0
            &&& layout::u32_at(record@, at) <= 4
            &&& layout::u32_at(record@, at) == 2 ==> at + 12 <= record@.len()
        }) ==> taken is Ok,
        taken matches Err(error) ==> !error.retryable,
{
    layout::replies_are_read(record@);
    if layout::has_field(record@, 16) {
        layout::outcomes_are_read(record@, layout::field_end(record@, 16));
    }
}

/// A download that is handed the results of a `READ` with at least one byte,
/// that do not say that the file ends there and keep it within what is read,
/// is not done: it holds what it held and those bytes, and asks for what
/// comes behind them. It is done only where the server said that the file
/// ends there or sent no bytes, with all that was read.
pub proof fn downloads_read_to_the_end(
    download: &mut Download,
    client: &mut Client,
    results: &[u8],
    next: Result<Next>,
)
    requires
        call_ensures(Download::advance, (download, client, results), next),
        progress::can_call(client@),
    ensures
        ({
            let was = old(download)@;
            let now = final(download)@;
            let at = layout::attributes_end(results@, 4);
            let eof = layout::u32_at(results@, at + 4) != 0;
            let data = layout::field_at(results@, at + 8);
            let all = was.bytes + data;
            if !layout::is_ok(results@) {
                fails(next, layout::refusal(results@, "reading"@)) && now == was
            } else if !layout::has_attributes(results@, 4) || !layout::has_field(
                results@,
                at + 8,
            ) {
                fails(next, error::runs_past()) && now == was
            } else if all.len() > was.max_body {
                fails(
                    next,
                    error::permanent_failure("a file longer than one Stream Xmip reads"@),
                ) && now == was
            } else if data.len() > 0 && !eof {
                &&& next matches Ok(Next::Call(pending))
                &&& now.bytes == all
                &&& now.file == was.file
                &&& now.max_body == was.max_body
                &&& progress::asks(
                    old(client)@,
                    pending@,
                    100003,
                    6,
                    procedure::read_args_bytes(was.file, all.len() as u64, 65536),
                )
            } else {
                next matches Ok(Next::Whole(bytes)) && bytes@ == all
            }
        }),
{
    progress::downloads_end_where_the_file_does(download@, results@);
    if let Ok(Downloaded::Partly(more)) = client::download_after(download@, results@) {
        progress::downloads_ask_for_what_is_next(client@, more);
    }
}

/// An upload that is handed the results of a `WRITE` goes on only where they
/// say that all that was sent was written; it is done only where all is
/// written and the `COMMIT` was granted; any refusal is handed on.
pub proof fn uploads_write_to_the_end(
    upload: &mut Upload,
    client: &mut Client,
    results: &[u8],
    next: Result<Option<Pending>>,
)
    requires
        call_ensures(Upload::advance, (upload, client, results), next),
        progress::can_call(client@),
        upload@.offset <= upload@.bytes.len(),
    ensures
        ({
            let was = old(upload)@;
            let now = final(upload)@;
            let left = was.bytes.len() - was.offset;
            let count = progress::next_count(left);
            if left == 0 {
                if layout::is_ok(results@) {
                    next matches Ok(None)
                } else {
                    fails(next, layout::refusal(results@, "committing"@))
                }
            } else if !layout::is_ok(results@) {
                fails(next, layout::refusal(results@, "writing"@))
            } else if !progress::says_written(results@) || progress::written_in(results@)
                != count {
                next matches Err(error) && !error.retryable
            } else {
                &&& next matches Ok(Some(pending))
                &&& now.offset == was.offset + count
                &&& now.bytes == was.bytes
                &&& now.file == was.file
                &&& if left > count {
                    let data = Seq::new(
                        progress::next_count(left - count) as nat,
                        |i: int| was.bytes[was.offset + count + i],
                    );
                    progress::asks(
                        old(client)@,
                        pending@,
                        100003,
                        7,
                        procedure::write_args_bytes(
                            was.file,
                            (was.offset + count) as u64,
                            data,
                        ),
                    )
                } else {
                    progress::asks(
                        old(client)@,
                        pending@,
                        100003,
                        21,
                        procedure::commit_args_bytes(was.file),
                    )
                }
            }
        }),
{
    progress::uploads_end_where_all_is_committed(upload@, results@);
    if let Ok(Some(more)) = client::upload_after(upload@, results@) {
        progress::uploads_ask_for_what_is_next(client@, more);
        let was = upload@;
        let left = was.bytes.len() - was.offset;
        let count = progress::next_count(left);
        let data = Seq::new(
            progress::next_count(left - count) as nat,
            |i: int| was.bytes[was.offset + count + i],
        );
        let same = Seq::new(
            progress::next_count(more.bytes.len() - more.offset) as nat,
            |i: int| more.bytes[more.offset + i],
        );
        assert(data =~= same);
    }
}

/// Whether a record is the reply that a sending or a receiving waits for, and
/// says that the call was run.
pub open spec fn is_answer(xid: u32, record: Option<&[u8]>) -> bool {
    record matches Some(bytes) && {
        let at = layout::field_end(bytes@, 16);
        &&& layout::has_field(bytes@, 16)
        &&& at + 4 <= bytes@.len()
        &&& layout::u32_at(bytes@, 0) == xid
        &&& layout::u32_at(bytes@, 4) == 1
        &&& layout::u32_at(bytes@, 8) == 0
        &&& layout::u32_at(bytes@, at) == 0
    }
}

/// The results that such a reply carries.
pub open spec fn results_in(record: Option<&[u8]>) -> Seq<u8> {
    record->Some_0@.skip(layout::field_end(record->Some_0@, 16) + 4)
}

/// What is awaited is just such a reply, and its results.
proof fn answers_are_awaited(xid: u32, record: Option<&[u8]>)
    ensures
        client::awaited(xid, client::record_view(record)) is Ok <==> is_answer(xid, record),
        is_answer(xid, record) ==> client::awaited(xid, client::record_view(record)) == Ok::<
            Seq<u8>,
            Failure,
        >(results_in(record)),
        client::awaited(xid, client::record_view(record)) matches Err(failure)
            ==> !failure.retryable,
{
    match record {
        Some(bytes) => {
            progress::replies_are_awaited(xid, bytes@);
            client::broken_replies_are_permanent(xid, Some(bytes@));
        },
        None => {
            progress::replies_are_awaited(xid, Seq::empty());
        },
    }
}

/// A sending is done only where its unmount was answered, and gets there only
/// from a `COMMIT` that was granted with every byte written. Where the mount,
/// the create, a write or the commit is refused, it fails with what the
/// server said; where the server closed or sent another record than the
/// reply, it fails too.
pub proof fn sendings_succeed_only_past_the_commit(
    sending: Sending,
    record: Option<&[u8]>,
    next: Result<Option<Sending>>,
)
    requires
        call_ensures(Sending::advance, (sending, record), next),
        progress::can_call(sending@.client),
        sending@.stage matches SendStageView::Writing(upload) ==> upload.offset
            <= upload.bytes.len(),
    ensures
        !is_answer(sending@.pending.xid, record) ==> next is Err,
        is_answer(sending@.pending.xid, record) ==> {
            let results = results_in(record);
            match sending@.stage {
                SendStageView::Mounting => {
                    &&& !layout::is_ok(results) ==> fails(
                        next,
                        layout::refusal(results, "mounting"@),
                    )
                    &&& next matches Ok(more) ==> more is Some && more->Some_0@.stage is Creating
                        && layout::is_ok(results) && progress::asks(
                        sending@.client,
                        more->Some_0@.pending,
                        100003,
                        8,
                        procedure::create_args_bytes(layout::field_at(results, 4), sending@.name),
                    )
                },
                SendStageView::Creating => {
                    &&& !layout::is_ok(results) ==> fails(
                        next,
                        layout::refusal(results, "looking up"@),
                    )
                    &&& next matches Ok(more) ==> more is Some && more->Some_0@.stage is Writing
                        && more->Some_0@.stage->Writing_0.offset == 0
                        && more->Some_0@.stage->Writing_0.bytes == sending@.bytes
                        && more->Some_0@.stage->Writing_0.file == layout::field_at(results, 8)
                        && more->Some_0@.pending == client::upload_asked(
                        sending@.client,
                        more->Some_0@.stage->Writing_0,
                    ) && layout::is_ok(results)
                },
                SendStageView::Writing(upload) => {
                    let left = upload.bytes.len() - upload.offset;
                    &&& !layout::is_ok(results) && left > 0 ==> fails(
                        next,
                        layout::refusal(results, "writing"@),
                    )
                    &&& !layout::is_ok(results) && left == 0 ==> fails(
                        next,
                        layout::refusal(results, "committing"@),
                    )
                    &&& next matches Ok(more) ==> {
                        &&& more is Some
                        &&& layout::is_ok(results)
                        &&& more->Some_0@.stage is Unmounting <==> left == 0
                        &&& left == 0 ==> progress::asks(
                            sending@.client,
                            more->Some_0@.pending,
                            100005,
                            3,
                            xdr::string_bytes(sending@.export),
                        )
                        &&& left > 0 ==> {
                            &&& progress::written_in(results) == progress::next_count(left)
                            &&& more->Some_0@.stage is Writing
                            &&& more->Some_0@.stage->Writing_0.offset == upload.offset
                                + progress::next_count(left)
                            &&& more->Some_0@.stage->Writing_0.bytes == upload.bytes
                            &&& more->Some_0@.stage->Writing_0.file == upload.file
                            &&& more->Some_0@.pending == client::upload_asked(
                                sending@.client,
                                more->Some_0@.stage->Writing_0,
                            )
                        }
                    }
                },
                SendStageView::Unmounting => next matches Ok(None),
            }
        },
        next matches Ok(None) ==> sending@.stage is Unmounting,
        next matches Ok(Some(more)) ==> more@.bytes == sending@.bytes && more@.export
            == sending@.export && more@.name == sending@.name && one_call_on(
            sending@.client,
            more@.client,
        ),
{
    answers_are_awaited(sending@.pending.xid, record);
    if is_answer(sending@.pending.xid, record) {
        let results = results_in(record);
        progress::calls_are_asked(sending@.client, 0, Seq::empty());
        progress::sendings_go_on(sending@, results);
        if !layout::is_ok(results) {
            progress::refused_sendings_fail(sending@, results);
        }
    }
}

/// A listing gives the same names whether the attributes of the directory are
/// there or not: eighty-four bytes behind a flag of one are passed over, and
/// what lies behind them is read as where the flag is zero.
pub proof fn listings_pass_over_attributes(
    with: &[u8],
    without: &[u8],
    one: Result<Vec<String>>,
    other: Result<Vec<String>>,
)
    requires
        call_ensures(procedure::take_readdir, (with,), one),
        call_ensures(procedure::take_readdir, (without,), other),
        with@.len() >= 92,
        without@.len() >= 8,
        layout::u32_at(with@, 0) == 0,
        layout::u32_at(without@, 0) == 0,
        layout::u32_at(with@, 4) != 0,
        layout::u32_at(without@, 4) == 0,
        with@.skip(92) == without@.skip(8),
    ensures
        one is Ok <==> other is Ok,
        one is Ok ==> procedure::texts(one->Ok_0@) == procedure::texts(other->Ok_0@),
        one matches Err(error) ==> error@ == other->Err_0@,
{
    layout::listings_are_read(with@);
    layout::listings_are_read(without@);
    assert(layout::attributes_end(with@, 4) == 92 && layout::attributes_end(without@, 4) == 8);
    assert(with@.skip(92).len() == without@.skip(8).len());
    if with@.len() >= 100 {
        assert(with@.skip(100) =~= with@.skip(92).skip(8));
        assert(without@.skip(16) =~= without@.skip(8).skip(8));
    }
    assert(procedure::parse_readdir(with@) == procedure::parse_readdir(without@));
}

/// What a session answers a `READ` with: of a file that is there as many
/// bytes as are asked for, or as there are from the offset on, whatever the
/// count, each the file's at its place.
pub proof fn sessions_give_what_a_file_holds(
    session: &mut Session,
    call: &Call,
    reply: (Outcome, Option<Event>),
)
    requires
        call_ensures(Session::answer, (session, call), reply),
        call.program == 100003,
        call.version == 3,
        call.procedure == 6,
    ensures
        ({
            let arguments = call.arguments@;
            let at = layout::field_end(arguments, 0);
            let handle = layout::field_at(arguments, 0);
            let name = if handle == seq![0u8] {
                Seq::empty()
            } else {
                text::text_of(handle)
            };
            let offset = layout::u64_at(arguments, at);
            let count = layout::u32_at(arguments, at + 8);
            let files = old(session)@.files;
            let bytes = files[name];
            let eof = offset + count >= bytes.len();
            &&& final(session)@ == old(session)@
            &&& !layout::has_handle(arguments, 0) || arguments.len() < at + 12 ==> reply.0
                is GarbageArguments && reply.1 is None
            &&& layout::has_handle(arguments, 0) && arguments.len() >= at + 12
                && files.dom().contains(name) ==> {
                let data = layout::field_at(reply.0->Success_0@, 16);
                &&& reply.0 is Success
                &&& layout::says_u32(reply.0->Success_0@, 0, 0)
                &&& layout::says_u32(reply.0->Success_0@, 4, 0)
                &&& layout::says_u32(reply.0->Success_0@, 8, data.len() as u32)
                &&& layout::says_u32(
                    reply.0->Success_0@,
                    12,
                    if eof {
                        1
                    } else {
                        0
                    },
                )
                &&& layout::says_field(reply.0->Success_0@, 16, data)
                &&& data.len() == answers::readable(
                    bytes.len() as int,
                    offset as int,
                    count as int,
                )
                &&& forall|i: int| 0 <= i < data.len() ==> #[trigger] data[i] == bytes[offset + i]
                &&& eof ==> offset + data.len() >= bytes.len()
                &&& reply.1 matches Some(Event::Read(told)) && told@ == name
            }
        }),
{
    answers::reads_are_answered(session@, call@);
    answers::handles_are_names(layout::field_at(call.arguments@, 0), Seq::empty());
    reveal(layout::says_field);
}

/// What a session answers a `WRITE` of a file that is there with, where the
/// data stay within what is kept: that all of them are written. The file then
/// holds them from the offset on, what it held elsewhere, and zeros between;
/// no other file changes. Where they would reach past what is kept, or the
/// file is not there, nothing changes and the status says so.
pub proof fn sessions_keep_what_is_written(
    session: &mut Session,
    call: &Call,
    reply: (Outcome, Option<Event>),
)
    requires
        call_ensures(Session::answer, (session, call), reply),
        call.program == 100003,
        call.version == 3,
        call.procedure == 7,
        layout::has_handle(call.arguments@, 0),
        layout::has_field(call.arguments@, layout::field_end(call.arguments@, 0) + 16),
    ensures
        ({
            let arguments = call.arguments@;
            let at = layout::field_end(arguments, 0);
            let handle = layout::field_at(arguments, 0);
            let name = if handle == seq![0u8] {
                Seq::empty()
            } else {
                text::text_of(handle)
            };
            let offset = layout::u64_at(arguments, at);
            let data = layout::field_at(arguments, at + 16);
            let was = old(session)@.files;
            let now = final(session)@.files;
            let end = offset + data.len();
            let there = was.dom().contains(name);
            &&& reply.0 is Success
            &&& !there ==> layout::says_u32(reply.0->Success_0@, 0, 70) && reply.1 is None && now
                == was
            &&& there && end > old(session)@.max_body ==> layout::says_u32(
                reply.0->Success_0@,
                0,
                27,
            ) && reply.1 is None && now == was
            &&& there && end <= old(session)@.max_body ==> {
                &&& layout::says_u32(reply.0->Success_0@, 0, 0)
                &&& layout::says_u32(reply.0->Success_0@, 12, data.len() as u32)
                &&& layout::says_u32(reply.0->Success_0@, 16, 2)
                &&& now.dom() == was.dom()
                &&& forall|other: Seq<char>|
                    was.dom().contains(other) && other != name ==> #[trigger] now[other]
                        == was[other]
                &&& now[name].len() == if end > was[name].len() {
                    end
                } else {
                    was[name].len() as int
                }
                &&& forall|i: int|
                    0 <= i < now[name].len() ==> #[trigger] now[name][i] == if offset <= i < end {
                        data[i - offset]
                    } else if i < was[name].len() {
                        was[name][i]
                    } else {
                        0
                    }
                &&& reply.1 matches Some(Event::Written(told, start, count)) && told@ == name
                    && start == offset && count == data.len()
            }
            &&& final(session)@.peer == old(session)@.peer
            &&& final(session)@.export == old(session)@.export
            &&& final(session)@.max_body == old(session)@.max_body
        }),
{
    answers::writes_are_answered(session@, call@);
    answers::handles_are_names(layout::field_at(call.arguments@, 0), Seq::empty());
    let now = final(session)@.files;
    let was = session@.files;
    if was.dom() != now.dom() {
        assert(now.dom() =~= was.dom());
    }
}

/// What a session answers a `COMMIT` of a file that is there with, and hands
/// up: the file as it is, named by the peer, the export and its name.
pub proof fn sessions_hand_up_what_is_committed(
    session: &mut Session,
    call: &Call,
    reply: (Outcome, Option<Event>),
)
    requires
        call_ensures(Session::answer, (session, call), reply),
        call.program == 100003,
        call.version == 3,
        call.procedure == 21,
        layout::has_handle(call.arguments@, 0),
    ensures
        ({
            let handle = layout::field_at(call.arguments@, 0);
            let name = if handle == seq![0u8] {
                Seq::empty()
            } else {
                text::text_of(handle)
            };
            let was = old(session)@;
            &&& final(session)@ == was
            &&& reply.0 is Success
            &&& !was.files.dom().contains(name) ==> layout::says_u32(
                reply.0->Success_0@,
                0,
                70,
            ) && reply.1 is None
            &&& was.files.dom().contains(name) ==> {
                &&& layout::says_u32(reply.0->Success_0@, 0, 0)
                &&& reply.1 matches Some(Event::Committed(arrived))
                &&& arrived.bytes@ == was.files[name]
                &&& arrived.origin_uri@ == seq!['n', 'f', 's', ':', '/', '/'] + was.peer
                    + was.export + seq!['/'] + name
            }
        }),
{
    answers::commits_are_answered(session@, call@);
    answers::handles_are_names(layout::field_at(call.arguments@, 0), Seq::empty());
    let handle = layout::field_at(call.arguments@, 0);
    arrived::origins_are_told(session@.peer, session@.export, session::name_in(handle));
}

/// What a session does by a `CREATE` and a `REMOVE` of a name: an empty file
/// is there after the one, whatever was, and none after the other; no other
/// file changes.
pub proof fn sessions_create_and_remove(
    session: &mut Session,
    call: &Call,
    reply: (Outcome, Option<Event>),
)
    requires
        call_ensures(Session::answer, (session, call), reply),
        call.program == 100003,
        call.version == 3,
        call.procedure == 8 || call.procedure == 12,
        layout::has_handle(call.arguments@, 0),
        layout::has_field(call.arguments@, layout::field_end(call.arguments@, 0)),
    ensures
        ({
            let arguments = call.arguments@;
            let name = text::text_of(
                layout::field_at(arguments, layout::field_end(arguments, 0)),
            );
            let was = old(session)@.files;
            let now = final(session)@.files;
            &&& reply.0 is Success
            &&& call.procedure == 8 ==> {
                &&& now == was.insert(name, Seq::empty())
                &&& reply.1 matches Some(Event::Created(told)) && told@ == name
            }
            &&& call.procedure == 12 && was.dom().contains(name) ==> {
                &&& now == was.remove(name)
                &&& layout::says_u32(reply.0->Success_0@, 0, 0)
                &&& reply.1 matches Some(Event::Removed(told)) && told@ == name
            }
            &&& call.procedure == 12 && !was.dom().contains(name) ==> {
                &&& now == was
                &&& layout::says_u32(reply.0->Success_0@, 0, 2)
                &&& reply.1 is None
            }
        }),
{
    if call.procedure == 8 {
        answers::creates_are_answered(session@, call@);
    } else {
        answers::removes_are_answered(session@, call@);
    }
}

/// What a session answers any call with, and does by it, is what its answer
/// is said to be.
pub proof fn sessions_answer(session: &mut Session, call: &Call, reply: (Outcome, Option<Event>))
    requires
        call_ensures(Session::answer, (session, call), reply),
    ensures
        reply.0@ == session::answered(old(session)@, call@).0,
        session::event_view(reply.1) == session::answered(old(session)@, call@).1,
        final(session)@.files == session::answered(old(session)@, call@).2,
        final(session)@.peer == old(session)@.peer,
        final(session)@.export == old(session)@.export,
        final(session)@.max_body == old(session)@.max_body,
{
}

/// A session that is handed a record replies where it is a call, under the id
/// in the record's first four bytes, and fails where it is none, with nothing
/// changed. Where the client closed it says so.
pub proof fn sessions_reply_to_records(
    session: &mut Session,
    record: Option<&[u8]>,
    step: Result<Step<Event>>,
)
    requires
        call_ensures(Session::next_event, (session, record), step),
    ensures
        record is None ==> (step matches Ok(Step::Closed)) && final(session)@ == old(session)@,
        record matches Some(bytes) ==> match rpc::parse_call(bytes@) {
            Ok(call) => {
                let answer = session::answered(old(session)@, call);
                &&& step matches Ok(Step::Answer { reply, found })
                &&& layout::says_reply(
                    reply@,
                    ReplyView { xid: layout::u32_at(bytes@, 0), outcome: answer.0 },
                )
                &&& session::event_view(found) == answer.1
                &&& final(session)@.files == answer.2
                &&& final(session)@.peer == old(session)@.peer
                &&& final(session)@.export == old(session)@.export
                &&& final(session)@.max_body == old(session)@.max_body
            },
            Err(failure) => fails(step, failure) && final(session)@ == old(session)@,
        },
{
    if let Some(bytes) = record {
        answers::records_are_replied_to(session@, bytes@);
    }
}

/// A session that waits for a commit replies just as one that tells of
/// everything, and hands up what was committed and nothing else.
pub proof fn stores_are_what_is_committed(
    session: &mut Session,
    record: Option<&[u8]>,
    step: Result<Step<Arrived>>,
)
    requires
        call_ensures(Session::next_store, (session, record), step),
    ensures
        record is None ==> (step matches Ok(Step::Closed)) && final(session)@ == old(session)@,
        record matches Some(bytes) ==> match rpc::parse_call(bytes@) {
            Ok(call) => {
                let answer = session::answered(old(session)@, call);
                &&& step matches Ok(Step::Answer { reply, found })
                &&& layout::says_reply(
                    reply@,
                    ReplyView { xid: layout::u32_at(bytes@, 0), outcome: answer.0 },
                )
                &&& found matches Some(arrived) ==> answer.1 == Some(
                    EventView::Committed(
                        ArrivedView { origin_uri: arrived.origin_uri@, bytes: arrived.bytes@ },
                    ),
                )
                &&& found is None ==> !(answer.1 matches Some(EventView::Committed(_)))
                &&& final(session)@.files == answer.2
                &&& final(session)@.peer == old(session)@.peer
                &&& final(session)@.export == old(session)@.export
                &&& final(session)@.max_body == old(session)@.max_body
            },
            Err(failure) => fails(step, failure) && final(session)@ == old(session)@,
        },
{
    if let Some(bytes) = record {
        answers::records_are_replied_to(session@, bytes@);
    }
}

/// A session starts with nothing on the export, or with the files that it is
/// given, and shows what it holds.
pub proof fn sessions_start_as_they_are_told(
    peer: &str,
    export: &str,
    max_body: usize,
    session: Session,
    files: Files,
    filled: Session,
)
    requires
        call_ensures(Session::accept, (peer, export, max_body), session),
        call_ensures(Session::with_files, (session, files), filled),
    ensures
        session@.peer == peer@,
        session@.export == export@,
        session@.max_body == max_body,
        session@.files == Map::<Seq<char>, Seq<u8>>::empty(),
        filled@.peer == peer@,
        filled@.export == export@,
        filled@.max_body == max_body,
        filled@.files == files@,
        forall|shown: &Files|
            call_ensures(Session::files, (&filled,), shown) ==> #[trigger] shown@ == files@,
{
}

/// A receiving is done only where its unmount was answered, and fails with
/// what the server said wherever another call was refused. A Stream is taken
/// only where its file was read to the end, and, where files are removed,
/// where its remove was granted.
pub proof fn receivings_take_whole_files(
    receiving: Receiving,
    record: Option<&[u8]>,
    next: Result<Turn>,
)
    requires
        call_ensures(Receiving::advance, (receiving, record), next),
        progress::can_call(receiving@.client),
    ensures
        !is_answer(receiving@.pending.xid, record) ==> next is Err,
        is_answer(receiving@.pending.xid, record) ==> {
            let was = receiving@;
            let results = results_in(record);
            let at = layout::attributes_end(results, 4);
            let data = layout::field_at(results, at + 8);
            &&& !layout::is_ok(results) ==> match was.stage {
                ReceiveStageView::Mounting => fails(next, layout::refusal(results, "mounting"@)),
                ReceiveStageView::Listing(_) => fails(next, layout::refusal(results, "listing"@)),
                ReceiveStageView::Finding(_) => fails(
                    next,
                    layout::refusal(results, "looking up"@),
                ),
                ReceiveStageView::Reading(_, _) => fails(
                    next,
                    layout::refusal(results, "reading"@),
                ),
                ReceiveStageView::Removing(_, _) => fails(
                    next,
                    layout::refusal(results, "removing"@),
                ),
                ReceiveStageView::Unmounting => true,
            }
            &&& was.stage is Unmounting ==> (next matches Ok(Turn::Done(streams)) && streams@.len()
                == was.arrived.len() && forall|i: int|
                0 <= i < streams@.len() ==> (#[trigger] streams@[i]).bytes@ == was.arrived[i].bytes
                    && streams@[i].origin_uri@ == was.arrived[i].origin_uri)
            &&& next matches Ok(Turn::Done(_)) ==> was.stage is Unmounting
            &&& next matches Ok(Turn::More(more)) ==> match was.stage {
                ReceiveStageView::Mounting => {
                    let root = layout::field_at(results, 4);
                    &&& progress::receives_on(was, more@, ReceiveStageView::Listing(root))
                    &&& progress::asks(
                        was.client,
                        more@.pending,
                        100003,
                        16,
                        procedure::readdir_args_bytes(root, 1_048_576),
                    )
                },
                ReceiveStageView::Listing(root) => procedure::parse_readdir(results) == Ok::<
                    Seq<Seq<char>>,
                    Failure,
                >(more@.names) && more@.arrived.len() == 0
                    && progress::turns_to_the_next(was, more@, root),
                ReceiveStageView::Finding(root) => {
                    &&& more@.stage matches ReceiveStageView::Reading(dir, download)
                    &&& dir == root
                    &&& download.file == layout::field_at(results, 4)
                    &&& download.bytes.len() == 0
                    &&& download.max_body == was.errand.max_body
                    &&& progress::receives_on(was, more@, more@.stage)
                    &&& more@.pending == client::download_asked(was.client, download)
                },
                ReceiveStageView::Reading(root, download) => {
                    let all = download.bytes + data;
                    let eof = layout::u32_at(results, at + 4) != 0;
                    &&& all.len() <= download.max_body
                    &&& data.len() > 0 && !eof ==> {
                        &&& more@.stage matches ReceiveStageView::Reading(dir, longer)
                        &&& dir == root
                        &&& longer.bytes == all
                        &&& longer.file == download.file
                        &&& longer.max_body == download.max_body
                        &&& progress::receives_on(was, more@, more@.stage)
                        &&& more@.pending == client::download_asked(was.client, longer)
                    }
                    &&& (data.len() == 0 || eof) && was.errand.removes ==> progress::receives_on(
                        was,
                        more@,
                        ReceiveStageView::Removing(root, all),
                    ) && progress::asks(
                        was.client,
                        more@.pending,
                        100003,
                        12,
                        procedure::dir_args_bytes(root, was.names[was.arrived.len() as int]),
                    )
                    &&& (data.len() == 0 || eof) && !was.errand.removes ==> progress::takes_one(
                        was,
                        more@,
                        root,
                        all,
                    )
                },
                ReceiveStageView::Removing(root, bytes) => progress::takes_one(
                    was,
                    more@,
                    root,
                    bytes,
                ),
                ReceiveStageView::Unmounting => false,
            }
        },
{
    answers_are_awaited(receiving@.pending.xid, record);
    if is_answer(receiving@.pending.xid, record) {
        let results = results_in(record);
        if !layout::is_ok(results) {
            progress::refused_receivings_fail(receiving@, results);
        }
        progress::receivings_end_at_the_unmount(receiving@, results);
        match receiving@.stage {
            ReceiveStageView::Mounting => {
                progress::listings_are_asked_for(receiving@, results);
            },
            ReceiveStageView::Listing(_) => {
                progress::listings_are_asked_for(receiving@, results);
            },
            ReceiveStageView::Finding(_) => {
                progress::files_that_are_found_are_read(receiving@, results);
            },
            ReceiveStageView::Reading(_, download) => {
                progress::files_that_are_read_are_taken(receiving@, results);
                progress::downloads_end_where_the_file_does(download, results);
            },
            ReceiveStageView::Removing(_, _) => {
                progress::files_that_are_read_are_taken(receiving@, results);
            },
            ReceiveStageView::Unmounting => {
                let streams = next->Ok_0->Done_0@;
                assert(forall|i: int|
                    0 <= i < streams.len() ==> (#[trigger] streams[i])@ == exchange::streams(
                        streams,
                    )[i]);
            },
        }
    }
}

/// The results of a call are those of the reply under its id, and there are
/// none where the server closed, the record is no such reply, or the call was
/// not run.
pub proof fn results_are_of_the_reply(
    pending: Pending,
    record: Option<&[u8]>,
    results: Result<Vec<u8>>,
)
    requires
        call_ensures(Pending::results, (&pending, record), results),
    ensures
        results is Ok <==> is_answer(pending@.xid, record),
        results matches Ok(bytes) ==> bytes@ == results_in(record),
        results matches Err(error) ==> !error.retryable,
{
    answers_are_awaited(pending@.xid, record);
}

/// What the reply to a mount, a look-up, a create and a remove brings: the
/// handle where it lies, or what the server said.
pub proof fn replies_bring_handles(
    pending: Pending,
    record: Option<&[u8]>,
    root: Result<Handle>,
    found: Result<Handle>,
    created: Result<Handle>,
    removed: Result<()>,
    unmounted: Result<()>,
)
    requires
        call_ensures(Pending::mounted, (&pending, record), root),
        call_ensures(Pending::found, (&pending, record), found),
        call_ensures(Pending::created, (&pending, record), created),
        call_ensures(Pending::removed, (&pending, record), removed),
        call_ensures(Pending::unmounted, (&pending, record), unmounted),
    ensures
        !is_answer(pending@.xid, record) ==> root is Err && found is Err && created is Err
            && removed is Err && unmounted is Err,
        is_answer(pending@.xid, record) ==> {
            let results = results_in(record);
            let ok = layout::is_ok(results);
            &&& !ok ==> fails(root, layout::refusal(results, "mounting"@))
            &&& !ok ==> fails(found, layout::refusal(results, "looking up"@))
            &&& !ok ==> fails(created, layout::refusal(results, "looking up"@))
            &&& !ok ==> fails(removed, layout::refusal(results, "removing"@))
            &&& root is Ok <==> ok && layout::has_handle(results, 4)
            &&& found is Ok <==> ok && layout::has_handle(results, 4)
            &&& created is Ok <==> ok && results.len() >= 8 && layout::u32_at(results, 4) != 0
                && layout::has_handle(results, 8)
            &&& root matches Ok(handle) ==> handle.0@ == layout::field_at(results, 4)
            &&& found matches Ok(handle) ==> handle.0@ == layout::field_at(results, 4)
            &&& created matches Ok(handle) ==> handle.0@ == layout::field_at(results, 8)
            &&& removed is Ok <==> ok
            &&& unmounted is Ok
        },
{
    answers_are_awaited(pending@.xid, record);
    if is_answer(pending@.xid, record) {
        let results = results_in(record);
        layout::roots_are_read(results);
        layout::handle_results_are_read(results, 3);
        layout::handle_results_are_read(results, 8);
        layout::done_results_are_read(results, "removing"@);
    }
}

/// What the reply to a listing brings is the names it carries, as the server
/// has them.
pub proof fn replies_bring_names(
    pending: Pending,
    record: Option<&[u8]>,
    names: Result<Vec<String>>,
)
    requires
        call_ensures(Pending::listed, (&pending, record), names),
    ensures
        !is_answer(pending@.xid, record) ==> names is Err,
        is_answer(pending@.xid, record) ==> match procedure::parse_readdir(results_in(record)) {
            Ok(listed) => names is Ok && names->Ok_0@.len() == listed.len() && forall|i: int|
                0 <= i < listed.len() ==> (#[trigger] names->Ok_0@[i])@ == listed[i],
            Err(failure) => fails(names, failure),
        },
{
    answers_are_awaited(pending@.xid, record);
    if let Ok(all) = names {
        let texts = procedure::texts(all@);
        assert(forall|i: int| 0 <= i < texts.len() ==> (#[trigger] all@[i])@ == texts[i]);
    }
}

/// Whether a client went on by one call.
pub open spec fn one_call_on(before: ClientView, after: ClientView) -> bool {
    &&& after.next_xid == (before.next_xid + 1) % 0x1_0000_0000
    &&& after.credentials == before.credentials
}

/// A mount is call 1 of the mount program and an unmount call 3, of the path.
pub proof fn clients_mount(client: &mut Client, export: &str, pending: Pending)
    requires
        progress::can_call(client@),
    ensures
        call_ensures(Client::mount, (client, export), pending) ==> progress::asks(
            old(client)@,
            pending@,
            100005,
            1,
            xdr::string_bytes(export@),
        ) && one_call_on(old(client)@, final(client)@),
        call_ensures(Client::unmount, (client, export), pending) ==> progress::asks(
            old(client)@,
            pending@,
            100005,
            3,
            xdr::string_bytes(export@),
        ) && one_call_on(old(client)@, final(client)@),
{
    progress::calls_are_asked(client@, 1, xdr::string_bytes(export@));
    progress::calls_are_asked(client@, 3, xdr::string_bytes(export@));
}

/// A look-up is call 3 of the NFS program, a create call 8 and a remove call
/// 12, of the name in the directory.
pub proof fn clients_name_files(client: &mut Client, dir: &Handle, name: &str, pending: Pending)
    requires
        progress::can_call(client@),
    ensures
        call_ensures(Client::lookup, (client, dir, name), pending) ==> progress::asks(
            old(client)@,
            pending@,
            100003,
            3,
            procedure::dir_args_bytes(dir.0@, name@),
        ) && one_call_on(old(client)@, final(client)@),
        call_ensures(Client::create, (client, dir, name), pending) ==> progress::asks(
            old(client)@,
            pending@,
            100003,
            8,
            procedure::create_args_bytes(dir.0@, name@),
        ) && one_call_on(old(client)@, final(client)@),
        call_ensures(Client::remove, (client, dir, name), pending) ==> progress::asks(
            old(client)@,
            pending@,
            100003,
            12,
            procedure::dir_args_bytes(dir.0@, name@),
        ) && one_call_on(old(client)@, final(client)@),
{
    progress::calls_are_asked(client@, 3, procedure::dir_args_bytes(dir@, name@));
    progress::calls_are_asked(client@, 8, procedure::create_args_bytes(dir@, name@));
    progress::calls_are_asked(client@, 12, procedure::dir_args_bytes(dir@, name@));
}

/// A listing is call 16 of the NFS program, of the directory and 1048576
/// bytes.
pub proof fn clients_list(client: &mut Client, dir: &Handle, pending: Pending)
    requires
        progress::can_call(client@),
        call_ensures(Client::list, (client, dir), pending),
    ensures
        progress::asks(
            old(client)@,
            pending@,
            100003,
            16,
            procedure::readdir_args_bytes(dir.0@, 1_048_576),
        ),
        one_call_on(old(client)@, final(client)@),
{
    progress::calls_are_asked(client@, 16, procedure::readdir_args_bytes(dir@, 1_048_576));
}

/// A read starts with nothing and asks for 65536 bytes from the start.
pub proof fn clients_read_from_the_start(
    client: &mut Client,
    file: &Handle,
    max_body: usize,
    begun: (Download, Pending),
)
    requires
        progress::can_call(client@),
        call_ensures(Client::read_all, (client, file, max_body), begun),
    ensures
        begun.0@.file == file.0@,
        begun.0@.bytes.len() == 0,
        begun.0@.max_body == max_body,
        progress::asks(
            old(client)@,
            begun.1@,
            100003,
            6,
            procedure::read_args_bytes(file.0@, 0, 65536),
        ),
        one_call_on(old(client)@, final(client)@),
{
    progress::downloads_ask_for_what_is_next(client@, begun.0@);
    progress::calls_are_asked(client@, 6, Seq::empty());
}

/// A write starts with the first bytes of the file, 65536 or all there are,
/// and with the commit where there are none.
pub proof fn clients_write_from_the_start(
    client: &mut Client,
    file: &Handle,
    bytes: &[u8],
    begun: (Upload, Pending),
)
    requires
        progress::can_call(client@),
        call_ensures(Client::write_all, (client, file, bytes), begun),
    ensures
        begun.0@.file == file.0@,
        begun.0@.bytes == bytes@,
        begun.0@.offset == 0,
        bytes@.len() == 0 ==> progress::asks(
            old(client)@,
            begun.1@,
            100003,
            21,
            procedure::commit_args_bytes(file.0@),
        ),
        bytes@.len() > 0 ==> progress::asks(
            old(client)@,
            begun.1@,
            100003,
            7,
            procedure::write_args_bytes(
                file.0@,
                0,
                bytes@.take(progress::next_count(bytes@.len() as int)),
            ),
        ),
        one_call_on(old(client)@, final(client)@),
{
    progress::uploads_ask_for_what_is_next(client@, begun.0@);
    progress::calls_are_asked(client@, 7, Seq::empty());
    let count = progress::next_count(bytes@.len() as int);
    assert(bytes@.take(count) =~= Seq::new(count as nat, |i: int| begun.0@.bytes[0 + i]));
}

/// A client starts with the credentials it is given and call one, and its
/// messages are handed out as they are.
pub proof fn clients_start_as_they_are_told(
    credentials: Unix,
    client: Client,
    pending: Pending,
    message: &[u8],
)
    requires
        call_ensures(Client::connect, (credentials,), client),
        call_ensures(Pending::message, (&pending,), message),
    ensures
        client@.next_xid == 1,
        client@.credentials.machine == credentials.machine@,
        client@.credentials.uid == credentials.uid,
        client@.credentials.gid == credentials.gid,
        message@ == pending@.message,
{
}

/// What a sending and a receiving start with, and what they send.
pub proof fn exchanges_start_as_they_are_told(
    credentials: Unix,
    export: &str,
    name: &str,
    bytes: &[u8],
    errand: Errand,
    sending: Sending,
    receiving: Receiving,
    sent: &[u8],
    asked: &[u8],
)
    requires
        call_ensures(Sending::new, (credentials, export, name, bytes), sending),
        call_ensures(Receiving::new, (credentials, errand), receiving),
        call_ensures(Sending::message, (&sending,), sent),
        call_ensures(Receiving::message, (&receiving,), asked),
        rpc::unix_bytes(credentials@).len() <= u32::MAX,
    ensures
        sending@.export == export@,
        sending@.name == name@,
        sending@.bytes == bytes@,
        sending@.stage is Mounting,
        receiving@.errand.server == errand.server@,
        receiving@.errand.export == errand.export@,
        receiving@.errand.removes == errand.removes,
        receiving@.errand.max_body == errand.max_body,
        receiving@.stage is Mounting,
        receiving@.arrived.len() == 0,
        sent@ == sending@.pending.message,
        asked@ == receiving@.pending.message,
        progress::asks(
            ClientView { credentials: credentials@, next_xid: 1 },
            sending@.pending,
            100005,
            1,
            xdr::string_bytes(export@),
        ),
        progress::asks(
            ClientView { credentials: credentials@, next_xid: 1 },
            receiving@.pending,
            100005,
            1,
            xdr::string_bytes(errand.export@),
        ),
{
    progress::sendings_mount_first(credentials@, export@, name@, bytes@);
    progress::receivings_mount_first(credentials@, errand@);
}

/// Of what is configured each setting changes what it is of and nothing else:
/// without one, files are removed once read, and calls are root's on a
/// machine called `xmip`.
pub proof fn transports_are_as_they_are_told(
    server: &str,
    export: &str,
    credentials: Unix,
    timeout: Duration,
    plain: NfsTransport,
    presenting: NfsTransport,
    leaving: NfsTransport,
    timed: NfsTransport,
)
    requires
        call_ensures(NfsTransport::new, (server, export), plain),
        call_ensures(NfsTransport::presenting, (plain, credentials), presenting),
        call_ensures(NfsTransport::leaving_files, (plain,), leaving),
        call_ensures(NfsTransport::timing_out_after, (plain, timeout), timed),
    ensures
        plain@.server == server@,
        plain@.export == export@,
        plain@.credentials.machine == seq!['x', 'm', 'i', 'p'],
        plain@.credentials.uid == 0,
        plain@.credentials.gid == 0,
        plain@.delete_after_retrieve,
        plain@.timeout is None,
        presenting@ == (TransportView { credentials: credentials@, ..plain@ }),
        presenting@.credentials.uid == credentials.uid,
        presenting@.credentials.gid == credentials.gid,
        leaving@ == (TransportView { delete_after_retrieve: false, ..plain@ }),
        timed@ == (TransportView { timeout: Some(timeout), ..plain@ }),
{
    reveal_strlit("xmip");
    assert("xmip"@ =~= seq!['x', 'm', 'i', 'p']);
}

/// The loopback is of a port of this machine that is picked for it, about
/// `/probe`, and what is sent to its far end goes to `probe.bin` on the same
/// export at the address given.
pub proof fn loopbacks_are_of_this_machine(
    timeout: Duration,
    far: NfsTransport,
    address: &str,
    near: (NfsTransport, &'static str),
)
    requires
        call_ensures(NfsTransport::loopback, (timeout,), far),
        call_ensures(NfsTransport::send_to, (&far, address, timeout), near),
    ensures
        far@.server == "127.0.0.1:0"@,
        far@.export == "/probe"@,
        far@.timeout == Some(timeout),
        far@.delete_after_retrieve,
        near.0@.server == address@,
        near.0@.export == "/probe"@,
        near.0@.timeout == Some(timeout),
        near.1@ == "probe.bin"@,
{
}

/// What a transport hands out is of what is configured: its name, its server,
/// its timeout, a client with its credentials, a session on its export, and a
/// receiving of its export that removes files where they are to be.
pub proof fn transports_hand_out_what_is_configured(
    transport: NfsTransport,
    name: &'static str,
    server: &str,
    timeout: Option<Duration>,
    client: Client,
    peer: &str,
    max_body: usize,
    session: Session,
    receiving: Receiving,
)
    requires
        call_ensures(NfsTransport::name, (&transport,), name),
        call_ensures(NfsTransport::server, (&transport,), server),
        call_ensures(NfsTransport::timeout, (&transport,), timeout),
        call_ensures(NfsTransport::connect, (&transport,), client),
        call_ensures(NfsTransport::accept_one, (&transport, peer, max_body), session),
        call_ensures(NfsTransport::receive, (&transport, max_body), receiving),
    ensures
        name@ == seq!['n', 'f', 's'],
        server@ == transport@.server,
        timeout == transport@.timeout,
        client@.credentials == transport@.credentials,
        client@.next_xid == 1,
        session@.peer == peer@,
        session@.export == transport@.export,
        session@.max_body == max_body,
        session@.files == Map::<Seq<char>, Seq<u8>>::empty(),
        receiving@.errand.server == transport@.server,
        receiving@.errand.export == transport@.export,
        receiving@.errand.removes == transport@.delete_after_retrieve,
        receiving@.errand.max_body == max_body,
        receiving@.client.credentials == transport@.credentials,
        receiving@.stage is Mounting,
{
    reveal_strlit("nfs");
    assert("nfs"@ =~= seq!['n', 'f', 's']);
}

/// What is sent goes to the file that the target stands for: a name on what
/// is configured, or the server, the export and the name of a URI. A target
/// that is neither is refused, and nothing is begun.
pub proof fn sendings_go_where_the_target_says(
    transport: NfsTransport,
    target: &str,
    bytes: &[u8],
    begun: Result<(&str, Sending)>,
)
    requires
        call_ensures(NfsTransport::send, (&transport, target, bytes), begun),
    ensures
        begun is Err <==> target::resolved(
            transport@.server,
            transport@.export,
            target@,
        ) is Err,
        begun matches Err(error) ==> !error.retryable,
        begun matches Ok((host, sending)) ==> {
            let name = sending@.name;
            let path = sending@.export;
            &&& sending@.bytes == bytes@
            &&& sending@.stage is Mounting
            &&& sending@.client.credentials == transport@.credentials
            &&& name.len() > 0
            &&& !name.contains('/')
            &&& {
                ||| target@ == name && host@ == transport@.server && path == transport@.export
                ||| {
                    &&& target@ == seq!['n', 'f', 's', ':', '/', '/'] + host@ + path + seq!['/']
                        + name
                    &&& !host@.contains('/')
                    &&& path.len() > 1
                    &&& path[0] == '/'
                }
            }
        },
{
    target::targets_are_names_or_uris(transport@.server, transport@.export, target@);
    target::bad_targets_are_permanent(transport@.server, transport@.export, target@);
}

/// The Stream that was found is taken as it is; where there is none, the
/// client closed without committing, which trying again will not mend.
pub proof fn one_stream_is_taken(found: Option<Arrived>, taken: Result<Arrived>)
    requires
        call_ensures(NfsTransport::take_one, (found,), taken),
    ensures
        found matches Some(arrived) ==> taken matches Ok(same) && same == arrived,
        found is None ==> fails(
            taken,
            error::permanent_failure("the client closed without committing"@),
        ),
{
}

/// What a session tells of a mount that it grants, of an unmount and of a
/// listing; a mount of another path is refused, and not told.
pub proof fn sessions_tell_of_mounts(
    session: &mut Session,
    call: &Call,
    reply: (Outcome, Option<Event>),
)
    requires
        call_ensures(Session::answer, (session, call), reply),
        call.version == 3,
    ensures
        call.program == 100005 && call.procedure == 1 && layout::has_field(call.arguments@, 0)
            ==> {
            let path = text::text_of(layout::field_at(call.arguments@, 0));
            &&& final(session)@ == old(session)@
            &&& reply.0 is Success
            &&& path == old(session)@.export ==> {
                &&& layout::says_u32(reply.0->Success_0@, 0, 0)
                &&& layout::says_field(reply.0->Success_0@, 4, seq![0u8])
                &&& reply.1 matches Some(Event::Mounted(told))
                &&& told@ == path
            }
            &&& path != old(session)@.export ==> layout::says_u32(
                reply.0->Success_0@,
                0,
                13,
            ) && reply.1 is None
        },
        call.program == 100005 && call.procedure == 3 && layout::has_field(call.arguments@, 0)
            ==> {
            &&& final(session)@ == old(session)@
            &&& reply.0 is Success
            &&& reply.0->Success_0@.len() == 0
            &&& reply.1 matches Some(Event::Unmounted)
        },
        call.program == 100003 && call.procedure == 16 && layout::has_handle(call.arguments@, 0)
            ==> {
            &&& final(session)@ == old(session)@
            &&& reply.0 is Success
            &&& layout::says_u32(reply.0->Success_0@, 0, 0)
            &&& reply.1 matches Some(Event::Listed)
        },
{
    if call.program == 100005 {
        answers::mounts_are_answered(session@, call@);
    }
    layout::first_handles_are_read(call.arguments@);
    layout::listings_are_put(files::listing(session@.files), Seq::empty());
}

/// A call that is not served is told why: another program, another version
/// than three, no such procedure, or arguments that cannot be read. Nothing
/// changes and nothing is told of it.
pub proof fn sessions_refuse_what_they_do_not_serve(
    session: &mut Session,
    call: &Call,
    reply: (Outcome, Option<Event>),
)
    requires
        call_ensures(Session::answer, (session, call), reply),
    ensures
        !(reply.0 is Success) ==> reply.1 is None && final(session)@ == old(session)@,
        reply.0 is ProgramUnavailable <==> call.program != 100003 && call.program != 100005,
        (reply.0 matches Outcome::ProgramMismatch { low, high } && low == 3 && high == 3)
            <==> (call.program == 100003 || call.program == 100005) && call.version != 3,
        call.program == 100003 && call.version == 3 ==> (reply.0 is ProcedureUnavailable
            <==> call.procedure != 0 && call.procedure != 3 && call.procedure != 6
            && call.procedure != 7 && call.procedure != 8 && call.procedure != 12
            && call.procedure != 16 && call.procedure != 21),
{
    answers::other_calls_are_not_served(session@, call@);
}

/// A target is resolved on what the transport is configured with.
pub proof fn transports_resolve_targets(
    transport: NfsTransport,
    target: &str,
    named: Result<(&str, String, &str)>,
)
    requires
        call_ensures(NfsTransport::resolve, (&transport, target), named),
    ensures
        named is Ok <==> target::resolved(transport@.server, transport@.export, target@) is Ok,
        named matches Err(error) ==> !error.retryable,
        named matches Ok((host, path, name)) ==> {
            &&& name@.len() > 0
            &&& !name@.contains('/')
            &&& {
                ||| target@ == name@ && host@ == transport@.server && path@ == transport@.export
                ||| {
                    &&& target@ == seq!['n', 'f', 's', ':', '/', '/'] + host@ + path@ + seq!['/']
                        + name@
                    &&& !host@.contains('/')
                    &&& path@.len() > 1
                    &&& path@[0] == '/'
                }
            }
        },
{
    target::targets_are_names_or_uris(transport@.server, transport@.export, target@);
    target::bad_targets_are_permanent(transport@.server, transport@.export, target@);
}

/// A copy is like what it is a copy of.
pub proof fn copies_are_alike(
    transport: NfsTransport,
    credentials: Unix,
    handle: Handle,
    files: Files,
    other_transport: NfsTransport,
    other_credentials: Unix,
    other_handle: Handle,
    other_files: Files,
)
    requires
        call_ensures(<NfsTransport as Clone>::clone, (&transport,), other_transport),
        call_ensures(<Unix as Clone>::clone, (&credentials,), other_credentials),
        call_ensures(<Handle as Clone>::clone, (&handle,), other_handle),
        call_ensures(<Files as Clone>::clone, (&files,), other_files),
    ensures
        other_transport@ == transport@,
        other_credentials.machine@ == credentials.machine@,
        other_credentials.uid == credentials.uid,
        other_credentials.gid == credentials.gid,
        other_handle.0@ == handle.0@,
        other_files@ == files@,
{
}

} // verus!
