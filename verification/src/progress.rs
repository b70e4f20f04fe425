//! How the work of a client goes on: what each reply of the server leaves of
//! a download, an upload, a sending and a receiving, told by where things lie
//! in the reply.

use vstd::prelude::*;

#[allow(unused_imports)]
use crate::arrived::{self, ArrivedView};
#[allow(unused_imports)]
use crate::client::{self, ClientView, Downloaded, DownloadView, PendingView, UploadView};
#[allow(unused_imports)]
use crate::error::{self, Failure};
#[allow(unused_imports)]
use crate::exchange::{
    self, ErrandView, ReceiveStageView, ReceivingView, SendStageView, SendingView, Taken,
};
#[allow(unused_imports)]
use crate::layout;
#[allow(unused_imports)]
use crate::procedure::{self, Carried};
#[allow(unused_imports)]
use crate::rpc::{self, CallView, UnixView};
#[allow(unused_imports)]
use crate::text;
#[allow(unused_imports)]
use crate::xdr;

verus! {

/// Whether a pending call is of this procedure of a program of version three,
/// with these arguments, under the client's next id and its credentials.
pub open spec fn asks(
    client: ClientView,
    pending: PendingView,
    program: u32,
    procedure: u32,
    arguments: Seq<u8>,
) -> bool {
    &&& pending.xid == client.next_xid
    &&& layout::says_call(
        pending.message,
        CallView {
            xid: client.next_xid,
            program,
            version: 3,
            procedure,
            credentials: None,
            arguments,
        },
        client.credentials,
    )
}

/// Whether a client's credentials are short enough for a call.
pub open spec fn can_call(client: ClientView) -> bool {
    rpc::unix_bytes(client.credentials).len() <= u32::MAX
}

/// Calls of the mount program are calls of program 100005, and calls of the
/// NFS program calls of program 100003. Each takes the next id, and leaves
/// the one after it, round to zero past the last.
pub proof fn calls_are_asked(client: ClientView, procedure: u32, arguments: Seq<u8>)
    ensures
        can_call(client) ==> asks(
            client,
            client::mount_asked(client, procedure, arguments),
            100005,
            procedure,
            arguments,
        ),
        can_call(client) ==> asks(
            client,
            client::nfs_asked(client, procedure, arguments),
            100003,
            procedure,
            arguments,
        ),
        client::moved_on(client).next_xid == (client.next_xid + 1) % 0x1_0000_0000,
        client::moved_on(client).credentials == client.credentials,
{
    reveal(client::asked);
    if can_call(client) {
        layout::calls_are_put(
            client::call_made(client, 100005, 3, procedure, arguments),
            client.credentials,
        );
        layout::calls_are_put(
            client::call_made(client, 100003, 3, procedure, arguments),
            client.credentials,
        );
    }
}

/// A reply is taken for the results of a call where it has the call's id and
/// says that the call was run, and the results are what follows; it is
/// refused where the server closed, the id is another, the call was not run,
/// or the record is no reply.
pub proof fn replies_are_awaited(xid: u32, record: Seq<u8>)
    ensures
        client::awaited(xid, None) == Err::<Seq<u8>, Failure>(
            error::permanent_failure("the server closed before replying"@),
        ),
        client::awaited(xid, Some(record)) is Ok ==> {
            let at = layout::field_end(record, 16);
            &&& record.len() >= at + 4
            &&& layout::has_field(record, 16)
            &&& layout::u32_at(record, 0) == xid
            &&& layout::u32_at(record, 4) == 1
            &&& layout::u32_at(record, 8) == 0
            &&& layout::u32_at(record, at) == 0
            &&& client::awaited(xid, Some(record))->Ok_0 == record.skip(at + 4)
        },
        ({
            let at = layout::field_end(record, 16);
            &&& layout::has_field(record, 16)
            &&& record.len() >= at + 4
            &&& layout::u32_at(record, 0) == xid
            &&& layout::u32_at(record, 4) == 1
            &&& layout::u32_at(record, 8) == 0
            &&& layout::u32_at(record, at) == 0
        }) ==> client::awaited(xid, Some(record)) is Ok,
        rpc::parse_reply(record) matches Ok(reply) ==> reply.xid != xid ==> client::awaited(
            xid,
            Some(record),
        ) == Err::<Seq<u8>, Failure>(
            error::permanent_failure(
                "a reply to call "@ + text::decimal(reply.xid as nat) + " where "@ + text::decimal(
                    xid as nat,
                ) + " was awaited"@,
            ),
        ),
        rpc::parse_reply(record) matches Ok(reply) ==> reply.xid == xid ==> client::awaited(
            xid,
            Some(record),
        ) == rpc::results_of(reply.outcome),
        rpc::parse_reply(record) matches Err(failure) ==> client::awaited(xid, Some(record))
            == Err::<Seq<u8>, Failure>(failure),
{
    layout::replies_are_read(record);
    if layout::has_field(record, 16) {
        layout::outcomes_are_read(record, layout::field_end(record, 16));
    }
}

/// A download goes on wherever the server sends bytes and does not say that
/// the file ends there, be they ever so few: it then holds what it held and
/// those bytes. It is whole only where the server said so or sent nothing,
/// and is refused where the server did, or the file is over what is read.
pub proof fn downloads_end_where_the_file_does(download: DownloadView, results: Seq<u8>)
    ensures
        ({
            let at = layout::attributes_end(results, 4);
            let eof = layout::u32_at(results, at + 4) != 0;
            let data = layout::field_at(results, at + 8);
            let all = download.bytes + data;
            client::download_after(download, results) == (if !layout::is_ok(results) {
                Err(layout::refusal(results, "reading"@))
            } else if !layout::has_attributes(results, 4) || !layout::has_field(results, at + 8) {
                Err(error::runs_past())
            } else if all.len() > download.max_body {
                Err(error::permanent_failure("a file longer than one Stream Xmip reads"@))
            } else if !eof && data.len() > 0 {
                Ok(
                    Downloaded::Partly(
                        DownloadView {
                            file: download.file,
                            bytes: all,
                            max_body: download.max_body,
                        },
                    ),
                )
            } else {
                Ok(Downloaded::Whole(all))
            })
        }),
{
    layout::read_results_are_read(results);
}

/// What a download asks for next is a `READ` of the file, of 65536 bytes,
/// from as far on as the bytes that it holds.
pub proof fn downloads_ask_for_what_is_next(client: ClientView, download: DownloadView)
    requires
        can_call(client),
    ensures
        asks(
            client,
            client::download_asked(client, download),
            100003,
            6,
            procedure::read_args_bytes(download.file, download.bytes.len() as u64, 65536),
        ),
{
    calls_are_asked(
        client,
        6,
        procedure::read_args_bytes(download.file, download.bytes.len() as u64, 65536),
    );
}

/// How many bytes the next write of an upload carries: 65536, or what is
/// left where that is less.
pub open spec fn next_count(left: int) -> int {
    if left > 65536 {
        65536
    } else {
        left
    }
}

/// How much the results of a write say was written.
pub open spec fn written_in(results: Seq<u8>) -> u32 {
    layout::u32_at(results, layout::attributes_end(results, layout::before_end(results, 4)))
}

/// Whether the results of a write say how much was written.
pub open spec fn says_written(results: Seq<u8>) -> bool {
    &&& layout::is_ok(results)
    &&& layout::has_wcc(results, 4)
    &&& layout::attributes_end(results, layout::before_end(results, 4)) + 4 <= results.len()
}

/// An upload goes on past a write only where the server says that it wrote
/// all that was sent, and then by just that. It ends only where all is
/// written and the commit is answered with a zero; any other answer is
/// refused in its own words.
pub proof fn uploads_end_where_all_is_committed(upload: UploadView, results: Seq<u8>)
    requires
        upload.offset <= upload.bytes.len(),
    ensures
        ({
            let left = upload.bytes.len() - upload.offset;
            let count = next_count(left);
            client::upload_after(upload, results) == (if left == 0 {
                if layout::is_ok(results) {
                    Ok(None)
                } else {
                    Err(layout::refusal(results, "committing"@))
                }
            } else if !layout::is_ok(results) {
                Err(layout::refusal(results, "writing"@))
            } else if !says_written(results) {
                Err(error::runs_past())
            } else if written_in(results) != count {
                Err(
                    error::permanent_failure(
                        "the server wrote "@ + text::decimal(written_in(results) as nat) + " of "@
                            + text::decimal(count as nat) + " bytes"@,
                    ),
                )
            } else {
                Ok(
                    Some(
                        UploadView {
                            file: upload.file,
                            bytes: upload.bytes,
                            offset: (upload.offset + count) as nat,
                        },
                    ),
                )
            })
        }),
{
    layout::write_results_are_read(results);
    layout::done_results_are_read(results, "committing"@);
}

/// What an upload asks for next is a `WRITE` of the next bytes where they lie
/// in the file, and the `COMMIT` of the file where none are left.
pub proof fn uploads_ask_for_what_is_next(client: ClientView, upload: UploadView)
    requires
        can_call(client),
        upload.offset <= upload.bytes.len(),
    ensures
        ({
            let left = upload.bytes.len() - upload.offset;
            let data = Seq::new(
                next_count(left) as nat,
                |i: int| upload.bytes[upload.offset + i],
            );
            let pending = client::upload_asked(client, upload);
            if left > 0 {
                asks(
                    client,
                    pending,
                    100003,
                    7,
                    procedure::write_args_bytes(upload.file, upload.offset as u64, data),
                )
            } else {
                asks(client, pending, 100003, 21, procedure::commit_args_bytes(upload.file))
            }
        }),
{
    let left = upload.bytes.len() - upload.offset;
    let data = Seq::new(next_count(left) as nat, |i: int| upload.bytes[upload.offset + i]);
    if left > 0 {
        assert(client::chunk_of(upload) =~= data);
        calls_are_asked(
            client,
            7,
            procedure::write_args_bytes(upload.file, upload.offset as u64, data),
        );
    } else {
        calls_are_asked(client, 21, procedure::commit_args_bytes(upload.file));
    }
}

/// Whether a sending went on to a stage, with one more call made.
pub open spec fn sends_on(before: SendingView, after: SendingView, stage: SendStageView) -> bool {
    &&& after.client == client::moved_on(before.client)
    &&& after.export == before.export
    &&& after.name == before.name
    &&& after.bytes == before.bytes
    &&& after.stage == stage
}

/// A sending starts with the mount of its export.
pub proof fn sendings_mount_first(
    credentials: UnixView,
    export: Seq<char>,
    name: Seq<char>,
    bytes: Seq<u8>,
)
    requires
        rpc::unix_bytes(credentials).len() <= u32::MAX,
    ensures
        ({
            let client = ClientView { credentials, next_xid: 1 };
            let sending = exchange::sending(credentials, export, name, bytes);
            &&& asks(client, sending.pending, 100005, 1, xdr::string_bytes(export))
            &&& sending.client == (ClientView { credentials, next_xid: 2 })
            &&& sending.export == export
            &&& sending.name == name
            &&& sending.bytes == bytes
            &&& sending.stage == SendStageView::Mounting
        }),
{
    calls_are_asked(ClientView { credentials, next_xid: 1 }, 1, xdr::string_bytes(export));
}

/// Where the server refuses the mount, the create, a write or the commit, the
/// sending fails with what the server said; the answer to the unmount alone
/// is not looked at.
pub proof fn refused_sendings_fail(sending: SendingView, results: Seq<u8>)
    requires
        !layout::is_ok(results),
        sending.stage matches SendStageView::Writing(upload) ==> upload.offset
            <= upload.bytes.len(),
    ensures
        exchange::send_after(sending, results) == (match sending.stage {
            SendStageView::Mounting => Err(layout::refusal(results, "mounting"@)),
            SendStageView::Creating => Err(layout::refusal(results, "looking up"@)),
            SendStageView::Writing(upload) => if upload.offset < upload.bytes.len() {
                Err(layout::refusal(results, "writing"@))
            } else {
                Err(layout::refusal(results, "committing"@))
            },
            SendStageView::Unmounting => Ok(None::<SendingView>),
        }),
{
    layout::roots_are_read(results);
    layout::handle_results_are_read(results, 8);
    if let SendStageView::Writing(upload) = sending.stage {
        uploads_end_where_all_is_committed(upload, results);
    }
}

/// A mount that was granted is followed by the `CREATE` of the name in the
/// root, a file that was created by its bytes from the first on, and the
/// commit that was granted by the unmount; a sending is done where the
/// unmount was answered, and nowhere else.
pub proof fn sendings_go_on(sending: SendingView, results: Seq<u8>)
    requires
        can_call(sending.client),
        sending.stage matches SendStageView::Writing(upload) ==> upload.offset
            <= upload.bytes.len(),
    ensures
        exchange::send_after(sending, results) == Ok::<Option<SendingView>, Failure>(None)
            <==> sending.stage == SendStageView::Unmounting,
        exchange::send_after(sending, results) matches Ok(Some(next)) ==> match sending.stage {
            SendStageView::Mounting => {
                let root = layout::field_at(results, 4);
                &&& layout::is_ok(results)
                &&& layout::has_handle(results, 4)
                &&& sends_on(sending, next, SendStageView::Creating)
                &&& asks(
                    sending.client,
                    next.pending,
                    100003,
                    8,
                    procedure::create_args_bytes(root, sending.name),
                )
            },
            SendStageView::Creating => {
                let upload = UploadView {
                    file: layout::field_at(results, 8),
                    bytes: sending.bytes,
                    offset: 0,
                };
                &&& layout::is_ok(results)
                &&& layout::u32_at(results, 4) != 0
                &&& layout::has_handle(results, 8)
                &&& sends_on(sending, next, SendStageView::Writing(upload))
                &&& next.pending == client::upload_asked(sending.client, upload)
            },
            SendStageView::Writing(upload) => {
                let left = upload.bytes.len() - upload.offset;
                let more = UploadView {
                    file: upload.file,
                    bytes: upload.bytes,
                    offset: (upload.offset + next_count(left)) as nat,
                };
                &&& layout::is_ok(results)
                &&& left > 0 ==> {
                    &&& says_written(results)
                    &&& written_in(results) == next_count(left)
                    &&& sends_on(sending, next, SendStageView::Writing(more))
                    &&& next.pending == client::upload_asked(sending.client, more)
                }
                &&& left == 0 ==> {
                    &&& sends_on(sending, next, SendStageView::Unmounting)
                    &&& asks(
                        sending.client,
                        next.pending,
                        100005,
                        3,
                        xdr::string_bytes(sending.export),
                    )
                }
            },
            SendStageView::Unmounting => false,
        },
        sending.stage == SendStageView::Mounting && layout::is_ok(results) && layout::has_handle(
            results,
            4,
        ) ==> exchange::send_after(sending, results) is Ok,
        sending.stage == SendStageView::Creating && layout::is_ok(results) && results.len() >= 8
            && layout::u32_at(results, 4) != 0 && layout::has_handle(results, 8)
            ==> exchange::send_after(sending, results) is Ok,
        sending.stage matches SendStageView::Writing(upload) ==> {
            let left = upload.bytes.len() - upload.offset;
            (if left > 0 {
                says_written(results) && written_in(results) == next_count(left)
            } else {
                layout::is_ok(results)
            }) ==> exchange::send_after(sending, results) is Ok
        },
{
    layout::roots_are_read(results);
    layout::handle_results_are_read(results, 8);
    match sending.stage {
        SendStageView::Mounting => {
            calls_are_asked(
                sending.client,
                8,
                procedure::create_args_bytes(layout::field_at(results, 4), sending.name),
            );
        },
        SendStageView::Writing(upload) => {
            uploads_end_where_all_is_committed(upload, results);
            calls_are_asked(sending.client, 3, xdr::string_bytes(sending.export));
        },
        _ => {},
    }
}

/// Where the results of one call after another leave a sending; `None` where
/// the last of them ended it.
pub open spec fn sent(sending: SendingView, replies: Seq<Seq<u8>>) -> Carried<Option<SendingView>>
    decreases replies.len(),
{
    if replies.len() == 0 {
        Ok(Some(sending))
    } else {
        match exchange::send_after(sending, replies[0]) {
            Ok(Some(next)) => sent(next, replies.skip(1)),
            Ok(None) => if replies.len() == 1 {
                Ok(None)
            } else {
                Err(error::runs_past())
            },
            Err(failure) => Err(failure),
        }
    }
}

/// How many writes carry this many bytes.
pub open spec fn writes_for(left: int) -> int {
    (left + 65535) / 65536
}

/// Whether a sending at its writes was told of every byte, and of the commit,
/// before the unmount.
spec fn told_of_all(left: int, replies: Seq<Seq<u8>>) -> bool {
    &&& replies.len() == writes_for(left) + 2
    &&& forall|i: int| 0 <= i < replies.len() - 1 ==> layout::is_ok(#[trigger] replies[i])
    &&& forall|i: int|
        0 <= i < writes_for(left) ==> written_in(#[trigger] replies[i]) == next_count(
            left - 65536 * i,
        )
}

/// A sending that is done was told of all from any point of its upload on.
proof fn writings_are_told_of_all(sending: SendingView, upload: UploadView, replies: Seq<Seq<u8>>)
    requires
        sending.stage == SendStageView::Writing(upload),
        upload.offset <= upload.bytes.len(),
        sent(sending, replies) == Ok::<Option<SendingView>, Failure>(None),
    ensures
        told_of_all(upload.bytes.len() - upload.offset, replies),
    decreases replies.len(),
{
    let left = upload.bytes.len() - upload.offset;
    let rest = replies.skip(1);
    assert(replies.len() > 0);
    uploads_end_where_all_is_committed(upload, replies[0]);
    assert(exchange::send_after(sending, replies[0]) is Ok);
    let next = exchange::send_after(sending, replies[0])->Ok_0->Some_0;
    assert(sent(next, rest) == Ok::<Option<SendingView>, Failure>(None));
    assert(rest.len() > 0);
    assert(forall|i: int| 0 <= i < rest.len() ==> #[trigger] rest[i] == replies[i + 1]);
    assert forall|i: int| 0 < i < replies.len() implies #[trigger] replies[i] == rest[i - 1] by {}
    if left > 0 {
        let more = UploadView {
            file: upload.file,
            bytes: upload.bytes,
            offset: (upload.offset + next_count(left)) as nat,
        };
        writings_are_told_of_all(next, more, rest);
        let less = left - next_count(left);
        assert(writes_for(left) == writes_for(less) + 1);
        assert forall|i: int| 0 <= i < writes_for(left) implies written_in(#[trigger] replies[i])
            == next_count(left - 65536 * i) by {
            if i > 0 {
                assert(left > 65536);
                assert(written_in(rest[i - 1]) == next_count(less - 65536 * (i - 1)));
            }
        }
        assert forall|i: int| 0 <= i < replies.len() - 1 implies layout::is_ok(
            #[trigger] replies[i],
        ) by {
            if i > 0 {
                assert(layout::is_ok(rest[i - 1]));
            }
        }
    } else {
        assert(exchange::send_after(next, rest[0]) == Ok::<Option<SendingView>, Failure>(None));
        assert(rest.len() == 1);
    }
}

/// A sending ends in success only where the server granted the mount and the
/// create, said of each write in turn that it wrote every byte of it, and
/// granted the commit: every reply but the last opens with a zero, and there
/// are as many as the bytes take.
pub proof fn sendings_succeed_only_where_all_is_committed(
    credentials: UnixView,
    export: Seq<char>,
    name: Seq<char>,
    bytes: Seq<u8>,
    replies: Seq<Seq<u8>>,
)
    requires
        sent(exchange::sending(credentials, export, name, bytes), replies) == Ok::<
            Option<SendingView>,
            Failure,
        >(None),
    ensures
        replies.len() == writes_for(bytes.len() as int) + 4,
        forall|i: int| 0 <= i < replies.len() - 1 ==> layout::is_ok(#[trigger] replies[i]),
        forall|i: int|
            0 <= i < writes_for(bytes.len() as int) ==> written_in(#[trigger] replies[2 + i])
                == next_count(bytes.len() - 65536 * i),
{
    let first = exchange::sending(credentials, export, name, bytes);
    layout::roots_are_read(replies[0]);
    assert(replies.len() > 0);
    assert(exchange::send_after(first, replies[0]) is Ok);
    let second = exchange::send_after(first, replies[0])->Ok_0->Some_0;
    let past = replies.skip(1);
    assert(sent(second, past) == Ok::<Option<SendingView>, Failure>(None));
    assert(past.len() > 0);
    layout::handle_results_are_read(past[0], 8);
    assert(exchange::send_after(second, past[0]) is Ok);
    let third = exchange::send_after(second, past[0])->Ok_0->Some_0;
    let rest = past.skip(1);
    assert(sent(third, rest) == Ok::<Option<SendingView>, Failure>(None));
    let upload = third.stage->Writing_0;
    writings_are_told_of_all(third, upload, rest);
    assert forall|i: int| 0 <= i < replies.len() - 1 implies layout::is_ok(
        #[trigger] replies[i],
    ) by {
        if i > 1 {
            assert(rest[i - 2] == replies[i]);
        } else if i == 1 {
            assert(past[0] == replies[1]);
        }
    }
    assert forall|i: int| 0 <= i < writes_for(bytes.len() as int) implies written_in(
        #[trigger] replies[2 + i],
    ) == next_count(bytes.len() - 65536 * i) by {
        assert(rest[i] == replies[2 + i]);
    }
}

/// Whether a receiving went on to a stage, with one more call made, and of
/// what it listed and took nothing changed.
pub open spec fn receives_on(
    before: ReceivingView,
    after: ReceivingView,
    stage: ReceiveStageView,
) -> bool {
    &&& after.client == client::moved_on(before.client)
    &&& after.errand == before.errand
    &&& after.names == before.names
    &&& after.arrived == before.arrived
    &&& after.stage == stage
}

/// Whether a receiving went on to the next name, or to the unmount past the
/// last: with one more call made, the look-up of the first name that no
/// Stream was taken for.
pub open spec fn turns_to_the_next(
    before: ReceivingView,
    after: ReceivingView,
    root: Seq<u8>,
) -> bool {
    let at = after.arrived.len() as int;
    &&& after.client == client::moved_on(before.client)
    &&& after.errand == before.errand
    &&& at < after.names.len() ==> {
        &&& after.stage == ReceiveStageView::Finding(root)
        &&& asks(
            before.client,
            after.pending,
            100003,
            3,
            procedure::dir_args_bytes(root, after.names[at]),
        )
    }
    &&& at >= after.names.len() ==> {
        &&& after.stage == ReceiveStageView::Unmounting
        &&& asks(
            before.client,
            after.pending,
            100005,
            3,
            xdr::string_bytes(before.errand.export),
        )
    }
}

/// Whether a receiving took one more Stream, the file of the name it was at,
/// and went on to the next.
pub open spec fn takes_one(
    before: ReceivingView,
    after: ReceivingView,
    root: Seq<u8>,
    bytes: Seq<u8>,
) -> bool {
    let at = before.arrived.len() as int;
    &&& after.names == before.names
    &&& after.arrived.len() == at + 1
    &&& forall|i: int| 0 <= i < at ==> #[trigger] after.arrived[i] == before.arrived[i]
    &&& after.arrived[at].bytes == bytes
    &&& after.arrived[at].origin_uri == arrived::origin_of(
        before.errand.server,
        before.errand.export,
        before.names[at],
    )
    &&& turns_to_the_next(before, after, root)
}

/// A receiving starts with the mount of its export.
pub proof fn receivings_mount_first(credentials: UnixView, errand: ErrandView)
    requires
        rpc::unix_bytes(credentials).len() <= u32::MAX,
    ensures
        ({
            let client = ClientView { credentials, next_xid: 1 };
            let receiving = exchange::receiving(credentials, errand);
            &&& asks(client, receiving.pending, 100005, 1, xdr::string_bytes(errand.export))
            &&& receiving.client == (ClientView { credentials, next_xid: 2 })
            &&& receiving.errand == errand
            &&& receiving.names.len() == 0
            &&& receiving.arrived.len() == 0
            &&& receiving.stage == ReceiveStageView::Mounting
        }),
{
    calls_are_asked(ClientView { credentials, next_xid: 1 }, 1, xdr::string_bytes(errand.export));
}

/// Where the server refuses the mount, the listing, a look-up, a read or a
/// remove, the receiving fails with what the server said; the answer to the
/// unmount alone is not looked at.
pub proof fn refused_receivings_fail(receiving: ReceivingView, results: Seq<u8>)
    requires
        !layout::is_ok(results),
    ensures
        exchange::receive_after(receiving, results) == (match receiving.stage {
            ReceiveStageView::Mounting => Err(layout::refusal(results, "mounting"@)),
            ReceiveStageView::Listing(_) => Err(layout::refusal(results, "listing"@)),
            ReceiveStageView::Finding(_) => Err(layout::refusal(results, "looking up"@)),
            ReceiveStageView::Reading(_, _) => Err(layout::refusal(results, "reading"@)),
            ReceiveStageView::Removing(_, _) => Err(layout::refusal(results, "removing"@)),
            ReceiveStageView::Unmounting => Ok(Taken::All(receiving.arrived)),
        }),
{
    layout::roots_are_read(results);
    layout::listings_are_read(results);
    layout::handle_results_are_read(results, 3);
    layout::read_results_are_read(results);
    layout::done_results_are_read(results, "removing"@);
}

/// A receiving is done where the unmount was answered, and nowhere else, and
/// then gives the Streams it took.
pub proof fn receivings_end_at_the_unmount(receiving: ReceivingView, results: Seq<u8>)
    ensures
        (exchange::receive_after(receiving, results) matches Ok(Taken::All(_)))
            <==> receiving.stage == ReceiveStageView::Unmounting,
        receiving.stage == ReceiveStageView::Unmounting ==> exchange::receive_after(
            receiving,
            results,
        ) == Ok::<Taken, Failure>(Taken::All(receiving.arrived)),
{
}

/// A mount that was granted is followed by one `READDIR` of the root for
/// 1048576 bytes, and the listing by the look-up of its first name.
pub proof fn listings_are_asked_for(receiving: ReceivingView, results: Seq<u8>)
    requires
        can_call(receiving.client),
    ensures
        receiving.stage == ReceiveStageView::Mounting && layout::is_ok(results)
            && layout::has_handle(results, 4) ==> {
            let root = layout::field_at(results, 4);
            &&& exchange::receive_after(receiving, results) matches Ok(Taken::Part(next))
            &&& receives_on(receiving, next, ReceiveStageView::Listing(root))
            &&& asks(
                receiving.client,
                next.pending,
                100003,
                16,
                procedure::readdir_args_bytes(root, 1_048_576),
            )
        },
        receiving.stage is Mounting && !layout::has_handle(results, 4)
            ==> exchange::receive_after(receiving, results) is Err,
        receiving.stage matches ReceiveStageView::Listing(root)
            ==> match procedure::parse_readdir(results) {
            Ok(names) => {
                &&& exchange::receive_after(receiving, results) matches Ok(Taken::Part(next))
                &&& next.names == names
                &&& next.arrived.len() == 0
                &&& turns_to_the_next(receiving, next, root)
            },
            Err(failure) => exchange::receive_after(receiving, results) == Err::<Taken, Failure>(
                failure,
            ),
        },
{
    layout::roots_are_read(results);
    calls_are_asked(
        receiving.client,
        16,
        procedure::readdir_args_bytes(layout::field_at(results, 4), 1_048_576),
    );
    if let ReceiveStageView::Listing(root) = receiving.stage {
        if let Ok(names) = procedure::parse_readdir(results) {
            let listed = ReceivingView { names, arrived: Seq::empty(), ..receiving };
            names_are_asked_for(listed, root);
        }
    }
}

/// A receiving that turns to the next name asks for it, or for the unmount.
proof fn names_are_asked_for(receiving: ReceivingView, root: Seq<u8>)
    requires
        can_call(receiving.client),
    ensures
        exchange::next_name(receiving, root).names == receiving.names,
        exchange::next_name(receiving, root).arrived == receiving.arrived,
        turns_to_the_next(receiving, exchange::next_name(receiving, root), root),
{
    let at = receiving.arrived.len() as int;
    calls_are_asked(
        receiving.client,
        3,
        procedure::dir_args_bytes(root, receiving.names[at]),
    );
    calls_are_asked(receiving.client, 3, xdr::string_bytes(receiving.errand.export));
}

/// One Stream more is the last of them.
proof fn streams_are_added(receiving: ReceivingView, root: Seq<u8>, bytes: Seq<u8>)
    requires
        can_call(receiving.client),
    ensures
        takes_one(receiving, exchange::one_arrived(receiving, root, bytes), root, bytes),
{
    let origin_uri = arrived::origin_of(
        receiving.errand.server,
        receiving.errand.export,
        receiving.names[receiving.arrived.len() as int],
    );
    let arrived = receiving.arrived.push(ArrivedView { origin_uri, bytes });
    names_are_asked_for(ReceivingView { arrived, ..receiving }, root);
}

/// A file that was found is read from its start, and no further than the
/// errand allows.
pub proof fn files_that_are_found_are_read(receiving: ReceivingView, results: Seq<u8>)
    ensures
        receiving.stage matches ReceiveStageView::Finding(root) ==> {
            let download = DownloadView {
                file: layout::field_at(results, 4),
                bytes: Seq::empty(),
                max_body: receiving.errand.max_body,
            };
            &&& exchange::receive_after(receiving, results) is Ok <==> layout::is_ok(results)
                && layout::has_handle(results, 4)
            &&& exchange::receive_after(receiving, results) is Ok ==> {
                &&& exchange::receive_after(receiving, results) matches Ok(Taken::Part(next))
                &&& receives_on(receiving, next, ReceiveStageView::Reading(root, download))
                &&& next.pending == client::download_asked(receiving.client, download)
            }
        },
{
    layout::handle_results_are_read(results, 3);
}

/// A read that brings bytes and does not say that the file ends there is
/// followed by the next; the last by the `REMOVE` of the name where files are
/// to be removed, and by the next name where they are to stay. A file whose
/// remove was granted is taken with the bytes that were read.
pub proof fn files_that_are_read_are_taken(receiving: ReceivingView, results: Seq<u8>)
    requires
        can_call(receiving.client),
    ensures
        receiving.stage matches ReceiveStageView::Reading(root, download)
            ==> match client::download_after(download, results) {
            Ok(Downloaded::Partly(more)) => {
                &&& exchange::receive_after(receiving, results) matches Ok(Taken::Part(next))
                &&& receives_on(receiving, next, ReceiveStageView::Reading(root, more))
                &&& next.pending == client::download_asked(receiving.client, more)
            },
            Ok(Downloaded::Whole(bytes)) => {
                &&& exchange::receive_after(receiving, results) matches Ok(Taken::Part(next))
                &&& !receiving.errand.removes ==> takes_one(receiving, next, root, bytes)
                &&& receiving.errand.removes ==> {
                    &&& receives_on(receiving, next, ReceiveStageView::Removing(root, bytes))
                    &&& asks(
                        receiving.client,
                        next.pending,
                        100003,
                        12,
                        procedure::dir_args_bytes(
                            root,
                            receiving.names[receiving.arrived.len() as int],
                        ),
                    )
                }
            },
            Err(failure) => exchange::receive_after(receiving, results) == Err::<Taken, Failure>(
                failure,
            ),
        },
        receiving.stage matches ReceiveStageView::Removing(root, bytes) ==> layout::is_ok(results)
            ==> {
            &&& exchange::receive_after(receiving, results) matches Ok(Taken::Part(next))
            &&& takes_one(receiving, next, root, bytes)
        },
{
    layout::done_results_are_read(results, "removing"@);
    match receiving.stage {
        ReceiveStageView::Reading(root, download) => {
            if let Ok(Downloaded::Whole(bytes)) = client::download_after(download, results) {
                streams_are_added(receiving, root, bytes);
                calls_are_asked(
                    receiving.client,
                    12,
                    procedure::dir_args_bytes(
                        root,
                        receiving.names[receiving.arrived.len() as int],
                    ),
                );
            }
        },
        ReceiveStageView::Removing(root, bytes) => {
            streams_are_added(receiving, root, bytes);
        },
        _ => {},
    }
}

} // verus!
