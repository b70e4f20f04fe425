//! What the two sides come to together: a [`Sending`] and a [`Receiving`]
//! run against a [`Session`], each message sent as a record and served, each
//! reply sent as a record and taken.
//!
//! [`Sending`]: crate::Sending
//! [`Receiving`]: crate::Receiving
//! [`Session`]: crate::Session

use vstd::prelude::*;
#[allow(unused_imports)]
use vstd::utf8;

#[allow(unused_imports)]
use crate::arrived::{self, ArrivedView};
#[allow(unused_imports)]
use crate::client::{self, ClientView, DownloadView, PendingView, UploadView, CHUNK};
#[allow(unused_imports)]
use crate::error::{self, Failure};
#[allow(unused_imports)]
use crate::exchange::{
    self, ErrandView, ReceiveStageView, ReceivingView, SendStageView, SendingView, Taken,
};
#[allow(unused_imports)]
use crate::files::{self, FilesView};
#[allow(unused_imports)]
use crate::mount;
#[allow(unused_imports)]
use crate::procedure::{self, Carried};
#[allow(unused_imports)]
use crate::rpc::{
    self, CallView, OutcomeView, Received, ReplyView, UnixView, Wanted, LAST_FRAGMENT,
};
#[allow(unused_imports)]
use crate::session::{self, Done, EventView, SessionView, VERIFIER};
#[allow(unused_imports)]
use crate::status;
#[allow(unused_imports)]
use crate::xdr;

verus! {

/// What comes of a message sent as a record to a side that takes files of
/// `max_body` bytes at most.
#[verifier::opaque]
pub open spec fn carried(message: Seq<u8>, max_body: nat) -> Carried<Seq<u8>> {
    if message.len() >= LAST_FRAGMENT {
        Err(error::permanent_failure("a record longer than a fragment can say"@))
    } else {
        match rpc::received(
            rpc::unread_record(client::limit_of(max_body)),
            rpc::record_bytes(message),
        ) {
            Received::Record(record, _) => Ok(record),
            Received::Refused(failure, _) => Err(failure),
            Received::Broken(wanted) => Err(rpc::cut_short(wanted)),
            Received::Closed => Err(rpc::cut_short(Wanted::Mark)),
        }
    }
}

/// Whether a message of so many bytes is sent at all, and read by a side that
/// takes files of `max_body` bytes at most.
pub open spec fn carriable(len: nat, max_body: nat) -> bool {
    len <= client::limit_of(max_body) && len < LAST_FRAGMENT
}

/// A message that is short enough to be sent and read crosses as it is, and
/// no other crosses.
pub proof fn short_messages_cross(message: Seq<u8>, max_body: nat)
    ensures
        carriable(message.len(), max_body) ==> rpc::received(
            rpc::unread_record(client::limit_of(max_body)),
            rpc::record_bytes(message),
        ) == Received::Record(message, Seq::empty()),
        carried(message, max_body) == (if carriable(message.len(), max_body) {
            Ok(message)
        } else if message.len() >= LAST_FRAGMENT {
            Err(error::permanent_failure("a record longer than a fragment can say"@))
        } else {
            Err(rpc::over_long(client::limit_of(max_body)))
        }),
{
    reveal(carried);
    let limit = client::limit_of(max_body);
    let wire = rpc::record_bytes(message);
    assert(wire + Seq::<u8>::empty() =~= wire);
    if carriable(message.len(), max_body) {
        rpc::record_reads_back(message, limit, Seq::empty());
    } else if message.len() < LAST_FRAGMENT {
        let one = seq![message];
        reveal_with_fuel(rpc::fragments_bytes, 2);
        reveal_with_fuel(rpc::joined, 2);
        assert(rpc::fragments_bytes(one) =~= wire);
        assert(rpc::joined(one) =~= message);
        rpc::long_records_are_refused(one, limit, Seq::empty());
    }
}

/// One message sent and served, its reply sent and taken, each as a record:
/// the results the client has of it, what the session says the client did,
/// and the session after it. The client takes files of `max_body` bytes at
/// most. The failure is that of a message that was not sent, not read, or no
/// call.
#[verifier::opaque]
pub open spec fn trip(session: SessionView, max_body: nat, pending: PendingView) -> Carried<
    (Carried<Seq<u8>>, Option<EventView>, SessionView),
> {
    match carried(pending.message, session.max_body) {
        Ok(record) => match session::replied(session, record) {
            Ok((reply, event, after)) => {
                let results = match carried(reply, max_body) {
                    Ok(record) => client::awaited(pending.xid, Some(record)),
                    Err(failure) => Err(failure),
                };
                Ok((results, event, after))
            },
            Err(failure) => Err(failure),
        },
        Err(failure) => Err(failure),
    }
}

/// `events` and one more, where there was one.
pub open spec fn noted(events: Seq<EventView>, event: Option<EventView>) -> Seq<EventView> {
    match event {
        Some(event) => events.push(event),
        None => events,
    }
}

/// How a client and a session end up.
pub enum Ended<T> {
    /// The client is done, with this in hand, having done this.
    Done(T, SessionView, Seq<EventView>),
    /// The client gave up, having done this.
    Failed(Failure, SessionView, Seq<EventView>),
    /// A message was not sent, or the session could not read it.
    Unserved(Failure),
    /// Neither is done.
    Running,
}

/// Where a sending, of a client that takes files of `max_body` bytes at most,
/// and a session get in so many messages.
#[verifier::opaque]
pub open spec fn run_sending(
    max_body: nat,
    sending: SendingView,
    session: SessionView,
    events: Seq<EventView>,
    messages: nat,
) -> Ended<()>
    decreases messages,
{
    if messages == 0 {
        Ended::Running
    } else {
        match trip(session, max_body, sending.pending) {
            Ok((results, event, session)) => {
                let events = noted(events, event);
                match results {
                    Ok(results) => match exchange::send_after(sending, results) {
                        Ok(Some(sending)) => run_sending(
                            max_body,
                            sending,
                            session,
                            events,
                            (messages - 1) as nat,
                        ),
                        Ok(None) => Ended::Done((), session, events),
                        Err(failure) => Ended::Failed(failure, session, events),
                    },
                    Err(failure) => Ended::Failed(failure, session, events),
                }
            },
            Err(failure) => Ended::Unserved(failure),
        }
    }
}

/// The length of a call with so many bytes of arguments.
pub open spec fn call_len(credentials: UnixView, arguments: nat) -> nat {
    36 + xdr::opaque_bytes(rpc::unix_bytes(credentials)).len() + arguments
}

/// The length of a reply with so many bytes of results.
pub open spec fn reply_len(results: nat) -> nat {
    24 + results
}

/// Whether a call with so many bytes of arguments is sent and read.
#[verifier::opaque]
pub open spec fn call_crosses(max_body: nat, credentials: UnixView, arguments: nat) -> bool {
    carriable(call_len(credentials, arguments), max_body)
}

/// Whether a reply with so many bytes of results is sent and read.
#[verifier::opaque]
pub open spec fn reply_crosses(max_body: nat, results: nat) -> bool {
    carriable(reply_len(results), max_body)
}

/// A call is as long as its credentials and its arguments make it.
proof fn calls_are_so_long(call: CallView, credentials: UnixView)
    ensures
        rpc::call_bytes(call, credentials).len() == call_len(credentials, call.arguments.len()),
{
}

/// A call that is sent is short enough for what it holds to be counted.
proof fn crossing_calls_are_short(max_body: nat, credentials: UnixView, arguments: nat)
    requires
        call_crosses(max_body, credentials, arguments),
    ensures
        arguments <= u32::MAX,
        rpc::unix_bytes(credentials).len() <= u32::MAX,
        carriable(call_len(credentials, arguments), max_body),
{
    reveal(call_crosses);
}

/// Where a call is sent and read, a shorter one is.
proof fn shorter_calls_cross(max_body: nat, credentials: UnixView, arguments: nat, longer: nat)
    requires
        call_crosses(max_body, credentials, longer),
        arguments <= longer,
    ensures
        call_crosses(max_body, credentials, arguments),
{
    reveal(call_crosses);
}

/// Every reply that is no longer than a chunk is sent and read.
pub proof fn short_replies_cross(max_body: nat, results: nat)
    requires
        reply_len(results) <= CHUNK,
    ensures
        reply_crosses(max_body, results),
{
    reveal(reply_crosses);
}

/// Every result but that of a read or a listing is short: it carries no more
/// than a handle.
pub proof fn results_are_short(handle: Seq<u8>, status: u32, procedure: u32, count: u32)
    requires
        handle.len() <= 64,
    ensures
        procedure::handle_ok_bytes(handle, procedure).len() <= 128,
        procedure::failure_bytes(status, procedure).len() <= 128,
        procedure::write_ok_bytes(count, VERIFIER@).len() <= 128,
        procedure::commit_ok_bytes(VERIFIER@).len() <= 128,
        procedure::remove_ok_bytes().len() <= 128,
        mount::ok_bytes(handle).len() <= 128,
{
}

/// The name in a directory is counted where its arguments are.
proof fn names_are_counted(dir: Seq<u8>, name: Seq<char>)
    ensures
        utf8::encode_utf8(name).len() <= procedure::dir_args_bytes(dir, name).len(),
{
}

/// A call that is short enough is sent and read as it is.
proof fn call_is_carried(
    client: ClientView,
    session: SessionView,
    program: u32,
    version: u32,
    procedure: u32,
    arguments: Seq<u8>,
)
    requires
        call_crosses(session.max_body, client.credentials, arguments.len()),
    ensures
        ({
            let call = client::call_made(client, program, version, procedure, arguments);
            let pending = client::asked(client, program, version, procedure, arguments);
            &&& pending.xid == call.xid
            &&& pending.message == rpc::call_bytes(call, client.credentials)
            &&& carried(pending.message, session.max_body) == Ok::<_, Failure>(pending.message)
        }),
{
    reveal(client::asked);
    let call = client::call_made(client, program, version, procedure, arguments);
    crossing_calls_are_short(session.max_body, client.credentials, arguments.len());
    calls_are_so_long(call, client.credentials);
    short_messages_cross(rpc::call_bytes(call, client.credentials), session.max_body);
}

/// A reply that is short enough is sent, read and taken.
proof fn reply_is_carried(max_body: nat, xid: u32, results: Seq<u8>)
    requires
        reply_crosses(max_body, results.len()),
    ensures
        ({
            let outcome = OutcomeView::Success(results);
            let reply = rpc::reply_bytes(ReplyView { xid, outcome });
            &&& carried(reply, max_body) == Ok::<_, Failure>(reply)
            &&& client::awaited(xid, Some(reply)) == Ok::<_, Failure>(results)
        }),
{
    reveal(reply_crosses);
    let outcome = OutcomeView::Success(results);
    let reply = rpc::reply_bytes(ReplyView { xid, outcome });
    assert(reply.len() == reply_len(results.len()));
    short_messages_cross(reply, max_body);
    client::replies_are_taken(xid, outcome);
}

/// What a call of a program that is run comes to.
proof fn call_trips(
    client: ClientView,
    session: SessionView,
    max_body: nat,
    program: u32,
    version: u32,
    procedure: u32,
    arguments: Seq<u8>,
    done: Done,
)
    requires
        call_crosses(session.max_body, client.credentials, arguments.len()),
        reply_crosses(max_body, done.results.len()),
        session::answered(
            session,
            client::call_made(client, program, version, procedure, arguments),
        ) == (OutcomeView::Success(done.results), done.event, done.files),
    ensures
        trip_is(
            session,
            max_body,
            client::asked(client, program, version, procedure, arguments),
            done.results,
            done.event,
            done.files,
        ),
{
    let call = client::call_made(client, program, version, procedure, arguments);
    let pending = client::asked(client, program, version, procedure, arguments);
    let outcome = OutcomeView::Success(done.results);
    let reply = rpc::reply_bytes(ReplyView { xid: call.xid, outcome });
    let after = SessionView { files: done.files, ..session };
    call_is_carried(client, session, program, version, procedure, arguments);
    assert(session::replied(session, pending.message) == Ok::<_, Failure>(
        (reply, done.event, after),
    )) by {
        crossing_calls_are_short(session.max_body, client.credentials, arguments.len());
        session::calls_are_replied_to(session, call, client.credentials);
    }
    reply_is_carried(max_body, call.xid, done.results);
    trip_in_three(session, max_body, pending, reply, done);
}

/// A reply that was sent, read and taken ends a trip.
proof fn trip_in_three(
    session: SessionView,
    max_body: nat,
    pending: PendingView,
    reply: Seq<u8>,
    done: Done,
)
    requires
        carried(pending.message, session.max_body) == Ok::<_, Failure>(pending.message),
        session::replied(session, pending.message) == Ok::<_, Failure>(
            (reply, done.event, SessionView { files: done.files, ..session }),
        ),
        carried(reply, max_body) == Ok::<_, Failure>(reply),
        client::awaited(pending.xid, Some(reply)) == Ok::<_, Failure>(done.results),
    ensures
        trip_is(session, max_body, pending, done.results, done.event, done.files),
{
    reveal(trip);
}

/// What a call of the NFS program that is run comes to.
proof fn nfs_trips(
    client: ClientView,
    session: SessionView,
    max_body: nat,
    procedure: u32,
    arguments: Seq<u8>,
    done: Done,
)
    requires
        call_crosses(session.max_body, client.credentials, arguments.len()),
        reply_crosses(max_body, done.results.len()),
        session::nfs_done(session, procedure, arguments) == Ok::<_, Failure>(Some(done)),
    ensures
        trip_is(
            session,
            max_body,
            client::nfs_asked(client, procedure, arguments),
            done.results,
            done.event,
            done.files,
        ),
{
    call_trips(
        client,
        session,
        max_body,
        rpc::NFS_PROGRAM,
        rpc::NFS_VERSION,
        procedure,
        arguments,
        done,
    );
}

/// What a call of the mount program that is run comes to.
proof fn mount_trips(
    client: ClientView,
    session: SessionView,
    max_body: nat,
    procedure: u32,
    arguments: Seq<u8>,
    done: Done,
)
    requires
        call_crosses(session.max_body, client.credentials, arguments.len()),
        reply_crosses(max_body, done.results.len()),
        session::mounted(session, procedure, arguments) == Ok::<_, Failure>(Some(done)),
    ensures
        trip_is(
            session,
            max_body,
            client::mount_asked(client, procedure, arguments),
            done.results,
            done.event,
            done.files,
        ),
{
    call_trips(
        client,
        session,
        max_body,
        rpc::MOUNT_PROGRAM,
        rpc::MOUNT_VERSION,
        procedure,
        arguments,
        done,
    );
}

/// That a trip to a session brought results, told this and left this.
pub open spec fn trip_is(
    session: SessionView,
    max_body: nat,
    pending: PendingView,
    results: Seq<u8>,
    event: Option<EventView>,
    files: FilesView,
) -> bool {
    trip(session, max_body, pending) == Ok::<_, Failure>(
        (Ok::<_, Failure>(results), event, SessionView { files, ..session }),
    )
}

/// The root handle is handed to whoever mounts the export by its path; any
/// other path is answered that access is denied, and nothing is done.
pub proof fn mounting(
    client: ClientView,
    session: SessionView,
    max_body: nat,
    export: Seq<char>,
) -> (results: Seq<u8>)
    requires
        call_crosses(session.max_body, client.credentials, xdr::string_bytes(export).len()),
    ensures
        trip_is(
            session,
            max_body,
            client::mount_asked(client, mount::MNT, xdr::string_bytes(export)),
            results,
            if export == session.export {
                Some(EventView::Mounted(export))
            } else {
                None
            },
            session.files,
        ),
        mount::parse_root(results) == (if export == session.export {
            Ok(session::root_handle())
        } else {
            Err(status::status_failure("mounting"@, status::ACCES))
        }),
{
    let arguments = xdr::string_bytes(export);
    crossing_calls_are_short(session.max_body, client.credentials, arguments.len());
    mount::args_read_back(export);
    let done = session::mounted(session, mount::MNT, arguments)->Ok_0->Some_0;
    assert(done.results.len() <= 128) by {
        results_are_short(session::root_handle(), 0, 0, 0);
    }
    short_replies_cross(max_body, done.results.len());
    mount_trips(client, session, max_body, mount::MNT, arguments, done);
    mount::ok_reads_back(session::root_handle());
    mount::failure_reads_back(status::ACCES);
    done.results
}

/// An unmount is answered whatever it names, and nothing is done.
pub proof fn unmounting(
    client: ClientView,
    session: SessionView,
    max_body: nat,
    export: Seq<char>,
)
    requires
        call_crosses(session.max_body, client.credentials, xdr::string_bytes(export).len()),
    ensures
        trip_is(
            session,
            max_body,
            client::mount_asked(client, mount::UMNT, xdr::string_bytes(export)),
            Seq::empty(),
            Some(EventView::Unmounted),
            session.files,
        ),
{
    let arguments = xdr::string_bytes(export);
    crossing_calls_are_short(session.max_body, client.credentials, arguments.len());
    mount::args_read_back(export);
    let done = session::mounted(session, mount::UMNT, arguments)->Ok_0->Some_0;
    short_replies_cross(max_body, done.results.len());
    mount_trips(client, session, max_body, mount::UMNT, arguments, done);
}

/// Whether a name can be a file's: one whose bytes fit a handle, and are not
/// the root's.
pub open spec fn nameable(name: Seq<char>) -> bool {
    &&& session::handle_of(name).len() <= 64
    &&& name != seq!['\0']
}

/// A lookup gives the handle of the file of that name, where there is one;
/// any other name is answered that there is no such file. Nothing is done.
pub proof fn finding(
    client: ClientView,
    session: SessionView,
    max_body: nat,
    dir: Seq<u8>,
    name: Seq<char>,
) -> (results: Seq<u8>)
    requires
        call_crosses(
            session.max_body,
            client.credentials,
            procedure::dir_args_bytes(dir, name).len(),
        ),
        dir.len() <= 64,
        session::handle_of(name).len() <= 64,
    ensures
        trip_is(
            session,
            max_body,
            client::nfs_asked(client, procedure::LOOKUP, procedure::dir_args_bytes(dir, name)),
            results,
            None,
            session.files,
        ),
        procedure::parse_handle(results, procedure::LOOKUP) == (if session.files.dom().contains(
            name,
        ) {
            Ok(session::handle_of(name))
        } else {
            Err(status::status_failure("looking up"@, status::NOENT))
        }),
{
    let arguments = procedure::dir_args_bytes(dir, name);
    procedure::dir_args_read_back(dir, name, Seq::empty());
    let done = session::looked_up(session, name);
    assert(done.results.len() <= 128) by {
        results_are_short(session::handle_of(name), status::NOENT, procedure::LOOKUP, 0);
    }
    short_replies_cross(max_body, done.results.len());
    nfs_trips(client, session, max_body, procedure::LOOKUP, arguments, done);
    procedure::handle_ok_reads_back(session::handle_of(name), procedure::LOOKUP);
    procedure::failures_read_back(status::NOENT, procedure::LOOKUP, ""@);
    done.results
}

/// A create gives the handle of the file of that name, and leaves that file
/// empty.
pub proof fn creating(
    client: ClientView,
    session: SessionView,
    max_body: nat,
    dir: Seq<u8>,
    name: Seq<char>,
) -> (results: Seq<u8>)
    requires
        call_crosses(
            session.max_body,
            client.credentials,
            procedure::create_args_bytes(dir, name).len(),
        ),
        dir.len() <= 64,
        session::handle_of(name).len() <= 64,
    ensures
        trip_is(
            session,
            max_body,
            client::nfs_asked(client, procedure::CREATE, procedure::create_args_bytes(dir, name)),
            results,
            Some(EventView::Created(name)),
            session.files.insert(name, Seq::empty()),
        ),
        procedure::parse_handle(results, procedure::CREATE) == Ok::<_, Failure>(
            session::handle_of(name),
        ),
{
    let arguments = procedure::create_args_bytes(dir, name);
    procedure::dir_args_read_back(dir, name, Seq::empty());
    let done = session::created(session, name);
    assert(done.results.len() <= 128) by {
        results_are_short(session::handle_of(name), 0, procedure::CREATE, 0);
    }
    short_replies_cross(max_body, done.results.len());
    nfs_trips(client, session, max_body, procedure::CREATE, arguments, done);
    procedure::handle_ok_reads_back(session::handle_of(name), procedure::CREATE);
    done.results
}

/// A write puts its bytes over the file at the offset and says it wrote them
/// all; where there is no such file it is answered that the handle is stale,
/// and where the file would grow past what is kept, that it is too big, and
/// nothing is done.
pub proof fn writing(
    client: ClientView,
    session: SessionView,
    max_body: nat,
    name: Seq<char>,
    offset: u64,
    data: Seq<u8>,
) -> (results: Seq<u8>)
    requires
        call_crosses(
            session.max_body,
            client.credentials,
            procedure::write_args_bytes(session::handle_of(name), offset, data).len(),
        ),
        nameable(name),
    ensures
        ({
            let pending = client::nfs_asked(
                client,
                procedure::WRITE,
                procedure::write_args_bytes(session::handle_of(name), offset, data),
            );
            if !session.files.dom().contains(name) {
                &&& trip_is(session, max_body, pending, results, None, session.files)
                &&& procedure::parse_write(results) == Err::<u32, _>(
                    status::status_failure("writing"@, status::STALE),
                )
            } else if offset + data.len() > session.max_body {
                &&& trip_is(session, max_body, pending, results, None, session.files)
                &&& procedure::parse_write(results) == Err::<u32, _>(
                    status::status_failure("writing"@, status::FBIG),
                )
            } else {
                &&& trip_is(
                    session,
                    max_body,
                    pending,
                    results,
                    Some(EventView::Written(name, offset, data.len())),
                    session.files.insert(
                        name,
                        session::overwritten(session.files[name], offset as nat, data),
                    ),
                )
                &&& procedure::parse_write(results) == Ok::<_, Failure>(data.len() as u32)
            }
        }),
{
    let file = session::handle_of(name);
    let arguments = procedure::write_args_bytes(file, offset, data);
    crossing_calls_are_short(session.max_body, client.credentials, arguments.len());
    assert(data.len() <= arguments.len());
    procedure::write_args_read_back(file, offset, data);
    session::handles_name_files(name);
    let done = session::written(session, file, offset, data);
    assert(done.results.len() <= 128) by {
        let count = xdr::count_of(data.len());
        results_are_short(file, status::STALE, procedure::WRITE, count);
        results_are_short(file, status::FBIG, procedure::WRITE, count);
    }
    short_replies_cross(max_body, done.results.len());
    nfs_trips(client, session, max_body, procedure::WRITE, arguments, done);
    procedure::write_ok_reads_back(data.len() as u32, VERIFIER@);
    procedure::failures_read_back(status::STALE, procedure::WRITE, ""@);
    procedure::failures_read_back(status::FBIG, procedure::WRITE, ""@);
    done.results
}

/// A commit hands the file up as a Stream, all of it, under the URI of the
/// client's address, the export and the name; where there is no such file it
/// is answered that the handle is stale. Nothing is done to the files.
pub proof fn committing(
    client: ClientView,
    session: SessionView,
    max_body: nat,
    name: Seq<char>,
) -> (results: Seq<u8>)
    requires
        call_crosses(
            session.max_body,
            client.credentials,
            procedure::commit_args_bytes(session::handle_of(name)).len(),
        ),
        nameable(name),
    ensures
        trip_is(
            session,
            max_body,
            client::nfs_asked(
                client,
                procedure::COMMIT,
                procedure::commit_args_bytes(session::handle_of(name)),
            ),
            results,
            if session.files.dom().contains(name) {
                Some(
                    EventView::Committed(
                        ArrivedView {
                            origin_uri: arrived::origin_of(session.peer, session.export, name),
                            bytes: session.files[name],
                        },
                    ),
                )
            } else {
                None
            },
            session.files,
        ),
        procedure::parse_done(results, "committing"@) == (if session.files.dom().contains(name) {
            Ok(())
        } else {
            Err(status::status_failure("committing"@, status::STALE))
        }),
{
    let file = session::handle_of(name);
    let arguments = procedure::commit_args_bytes(file);
    procedure::first_handle_reads_back(file, 0);
    session::handles_name_files(name);
    let done = session::committed(session, file);
    assert(done.results.len() <= 128) by {
        results_are_short(file, status::STALE, procedure::COMMIT, 0);
    }
    short_replies_cross(max_body, done.results.len());
    nfs_trips(client, session, max_body, procedure::COMMIT, arguments, done);
    procedure::done_reads_back(VERIFIER@, "committing"@);
    procedure::failures_read_back(status::STALE, procedure::COMMIT, "committing"@);
    done.results
}

/// A read gives the bytes asked for, as far as the file goes, and says
/// whether that is its end; where there is no such file it is answered that
/// the handle is stale. Nothing is done.
pub proof fn reading(
    client: ClientView,
    session: SessionView,
    max_body: nat,
    name: Seq<char>,
    offset: u64,
    count: u32,
) -> (results: Seq<u8>)
    requires
        call_crosses(
            session.max_body,
            client.credentials,
            procedure::read_args_bytes(session::handle_of(name), offset, count).len(),
        ),
        session.files.dom().contains(name) ==> reply_crosses(
            max_body,
            procedure::read_ok_bytes(
                session::slice_of(session.files[name], offset as nat, count as nat),
                offset + count >= session.files[name].len(),
            ).len(),
        ),
        nameable(name),
    ensures
        trip_is(
            session,
            max_body,
            client::nfs_asked(
                client,
                procedure::READ,
                procedure::read_args_bytes(session::handle_of(name), offset, count),
            ),
            results,
            if session.files.dom().contains(name) {
                Some(EventView::Read(name))
            } else {
                None
            },
            session.files,
        ),
        procedure::parse_read(results) == (if session.files.dom().contains(name) {
            Ok(
                (
                    session::slice_of(session.files[name], offset as nat, count as nat),
                    offset + count >= session.files[name].len(),
                ),
            )
        } else {
            Err(status::status_failure("reading"@, status::STALE))
        }),
{
    let file = session::handle_of(name);
    let arguments = procedure::read_args_bytes(file, offset, count);
    procedure::read_args_read_back(file, offset, count);
    session::handles_name_files(name);
    let done = session::read(session, file, offset, count);
    if !session.files.dom().contains(name) {
        results_are_short(file, status::STALE, procedure::READ, 0);
        short_replies_cross(max_body, done.results.len());
    }
    nfs_trips(client, session, max_body, procedure::READ, arguments, done);
    if session.files.dom().contains(name) {
        let bytes = session.files[name];
        procedure::read_ok_reads_back(
            session::slice_of(bytes, offset as nat, count as nat),
            offset + count >= bytes.len(),
        );
    } else {
        procedure::failures_read_back(status::STALE, procedure::READ, ""@);
    }
    done.results
}

/// A listing is longer than any name in it.
proof fn entries_are_longer(names: Seq<Seq<char>>, at: int)
    requires
        0 <= at < names.len(),
    ensures
        utf8::encode_utf8(names[at]).len() <= procedure::entries_bytes(names).len(),
    decreases names.len(),
{
    if at + 1 < names.len() {
        entries_are_longer(names.drop_last(), at);
    }
}

/// A listing names every file, in order, but one called `.` or `..`. Nothing
/// is done.
pub proof fn listing(
    client: ClientView,
    session: SessionView,
    max_body: nat,
    dir: Seq<u8>,
) -> (results: Seq<u8>)
    requires
        call_crosses(
            session.max_body,
            client.credentials,
            procedure::readdir_args_bytes(dir, client::LISTING).len(),
        ),
        reply_crosses(
            max_body,
            procedure::readdir_ok_bytes(files::listing(session.files)).len(),
        ),
        dir.len() <= 64,
    ensures
        trip_is(
            session,
            max_body,
            client::nfs_asked(
                client,
                procedure::READDIR,
                procedure::readdir_args_bytes(dir, client::LISTING),
            ),
            results,
            Some(EventView::Listed),
            session.files,
        ),
        procedure::parse_readdir(results) == Ok::<_, Failure>(
            procedure::without_dots(files::listing(session.files)),
        ),
{
    let arguments = procedure::readdir_args_bytes(dir, client::LISTING);
    procedure::first_handle_reads_back(dir, client::LISTING);
    let done = session::listed(session);
    nfs_trips(client, session, max_body, procedure::READDIR, arguments, done);
    reveal(reply_crosses);
    let names = files::listing(session.files);
    assert forall|i: int| 0 <= i < names.len() implies utf8::encode_utf8(
        #[trigger] names[i],
    ).len() <= u32::MAX by {
        entries_are_longer(names, i);
    }
    procedure::readdir_ok_reads_back(names);
    done.results
}

/// A remove takes the file of that name away, where there is one; any other
/// name is answered that there is no such file, and nothing is done.
pub proof fn removing(
    client: ClientView,
    session: SessionView,
    max_body: nat,
    dir: Seq<u8>,
    name: Seq<char>,
) -> (results: Seq<u8>)
    requires
        call_crosses(
            session.max_body,
            client.credentials,
            procedure::dir_args_bytes(dir, name).len(),
        ),
        dir.len() <= 64,
    ensures
        trip_is(
            session,
            max_body,
            client::nfs_asked(client, procedure::REMOVE, procedure::dir_args_bytes(dir, name)),
            results,
            if session.files.dom().contains(name) {
                Some(EventView::Removed(name))
            } else {
                None
            },
            session.files.remove(name),
        ),
        procedure::parse_done(results, "removing"@) == (if session.files.dom().contains(name) {
            Ok(())
        } else {
            Err(status::status_failure("removing"@, status::NOENT))
        }),
{
    let arguments = procedure::dir_args_bytes(dir, name);
    crossing_calls_are_short(session.max_body, client.credentials, arguments.len());
    names_are_counted(dir, name);
    procedure::dir_args_read_back(dir, name, Seq::empty());
    let done = session::removed(session, name);
    if !session.files.dom().contains(name) {
        assert(session.files.remove(name) =~= session.files);
    }
    assert(done.results.len() <= 128) by {
        results_are_short(Seq::empty(), status::NOENT, procedure::REMOVE, 0);
    }
    short_replies_cross(max_body, done.results.len());
    nfs_trips(client, session, max_body, procedure::REMOVE, arguments, done);
    procedure::done_reads_back(Seq::empty(), "removing"@);
    procedure::failures_read_back(status::NOENT, procedure::REMOVE, "removing"@);
    done.results
}

/// A listing that is longer than is read is refused, and nothing is done.
pub proof fn long_listings_are_refused(
    client: ClientView,
    session: SessionView,
    max_body: nat,
    dir: Seq<u8>,
)
    requires
        call_crosses(
            session.max_body,
            client.credentials,
            procedure::readdir_args_bytes(dir, client::LISTING).len(),
        ),
        dir.len() <= 64,
        client::limit_of(max_body) < reply_len(
            procedure::readdir_ok_bytes(files::listing(session.files)).len(),
        ) < LAST_FRAGMENT,
    ensures
        trip(
            session,
            max_body,
            client::nfs_asked(
                client,
                procedure::READDIR,
                procedure::readdir_args_bytes(dir, client::LISTING),
            ),
        ) == Ok::<_, Failure>(
            (
                Err::<Seq<u8>, _>(rpc::over_long(client::limit_of(max_body))),
                Some(EventView::Listed),
                session,
            ),
        ),
{
    let arguments = procedure::readdir_args_bytes(dir, client::LISTING);
    let pending = client::nfs_asked(client, procedure::READDIR, arguments);
    let done = session::listed(session);
    let outcome = OutcomeView::Success(done.results);
    let reply = rpc::reply_bytes(ReplyView { xid: pending.xid, outcome });
    assert(session::nfs_done(session, procedure::READDIR, arguments) == Ok::<_, Failure>(
        Some(done),
    )) by {
        procedure::first_handle_reads_back(dir, client::LISTING);
    }
    nfs_is_replied_to(client, session, procedure::READDIR, arguments, done);
    long_reply_is_refused(max_body, pending.xid, done.results);
    refused_in_three(session, max_body, pending, reply, done);
}

/// The reply to a call of the NFS program that is run.
proof fn nfs_is_replied_to(
    client: ClientView,
    session: SessionView,
    procedure: u32,
    arguments: Seq<u8>,
    done: Done,
)
    requires
        call_crosses(session.max_body, client.credentials, arguments.len()),
        session::nfs_done(session, procedure, arguments) == Ok::<_, Failure>(Some(done)),
    ensures
        ({
            let pending = client::nfs_asked(client, procedure, arguments);
            let outcome = OutcomeView::Success(done.results);
            &&& carried(pending.message, session.max_body) == Ok::<_, Failure>(pending.message)
            &&& session::replied(session, pending.message) == Ok::<_, Failure>(
                (
                    rpc::reply_bytes(ReplyView { xid: pending.xid, outcome }),
                    done.event,
                    SessionView { files: done.files, ..session },
                ),
            )
        }),
{
    let program = rpc::NFS_PROGRAM;
    let version = rpc::NFS_VERSION;
    let call = client::call_made(client, program, version, procedure, arguments);
    call_is_carried(client, session, program, version, procedure, arguments);
    crossing_calls_are_short(session.max_body, client.credentials, arguments.len());
    session::calls_are_replied_to(session, call, client.credentials);
}

/// A reply that is too long is not read.
proof fn long_reply_is_refused(max_body: nat, xid: u32, results: Seq<u8>)
    requires
        client::limit_of(max_body) < reply_len(results.len()) < LAST_FRAGMENT,
    ensures
        ({
            let outcome = OutcomeView::Success(results);
            carried(rpc::reply_bytes(ReplyView { xid, outcome }), max_body) == Err::<Seq<u8>, _>(
                rpc::over_long(client::limit_of(max_body)),
            )
        }),
{
    let outcome = OutcomeView::Success(results);
    let reply = rpc::reply_bytes(ReplyView { xid, outcome });
    assert(reply.len() == reply_len(results.len()));
    short_messages_cross(reply, max_body);
}

/// A reply that was too long to read ends a trip.
proof fn refused_in_three(
    session: SessionView,
    max_body: nat,
    pending: PendingView,
    reply: Seq<u8>,
    done: Done,
)
    requires
        carried(pending.message, session.max_body) == Ok::<_, Failure>(pending.message),
        session::replied(session, pending.message) == Ok::<_, Failure>(
            (reply, done.event, SessionView { files: done.files, ..session }),
        ),
        carried(reply, max_body) is Err,
    ensures
        trip(session, max_body, pending) == Ok::<_, Failure>(
            (
                Err::<Seq<u8>, Failure>(carried(reply, max_body)->Err_0),
                done.event,
                SessionView { files: done.files, ..session },
            ),
        ),
{
    reveal(trip);
}

/// The lesser of what is left and a chunk.
pub open spec fn chunk_len(left: nat) -> nat {
    if left < CHUNK {
        left
    } else {
        CHUNK as nat
    }
}

/// How many calls carry `left` bytes, a chunk each.
pub open spec fn chunks(left: nat) -> nat
    decreases left,
{
    if left == 0 {
        0
    } else {
        1 + chunks((left - chunk_len(left)) as nat)
    }
}

/// The writes of a file of `len` bytes from `offset` on, as a session tells
/// them.
pub open spec fn writes(name: Seq<char>, len: nat, offset: nat) -> Seq<EventView>
    decreases len - offset,
{
    if offset >= len {
        Seq::empty()
    } else {
        let count = chunk_len((len - offset) as nat);
        seq![EventView::Written(name, offset as u64, count)] + writes(name, len, offset + count)
    }
}

/// What a session tells of a Stream put on its export: the mount, the
/// create, each write, the commit with all of it, the unmount.
pub open spec fn put_events(session: SessionView, name: Seq<char>, bytes: Seq<u8>) -> Seq<
    EventView,
> {
    seq![EventView::Mounted(session.export), EventView::Created(name)] + writes(
        name,
        bytes.len(),
        0,
    ) + put_ending(session, name, bytes)
}

/// What a session tells at the end of a Stream put on its export: the commit
/// with all of it, and the unmount.
pub open spec fn put_ending(session: SessionView, name: Seq<char>, bytes: Seq<u8>) -> Seq<
    EventView,
> {
    let origin_uri = arrived::origin_of(session.peer, session.export, name);
    seq![EventView::Committed(ArrivedView { origin_uri, bytes }), EventView::Unmounted]
}

/// Whether every call of a sending is sent and read: the mount and the
/// unmount, the create, which is longer than the commit, and the first write,
/// which is as long as any.
pub open spec fn sendable(
    max_body: nat,
    credentials: UnixView,
    export: Seq<char>,
    name: Seq<char>,
    bytes: Seq<u8>,
) -> bool {
    let first = bytes.take(chunk_len(bytes.len()) as int);
    &&& call_crosses(max_body, credentials, xdr::string_bytes(export).len())
    &&& call_crosses(
        max_body,
        credentials,
        procedure::create_args_bytes(session::root_handle(), name).len(),
    )
    &&& bytes.len() > 0 ==> call_crosses(
        max_body,
        credentials,
        procedure::write_args_bytes(session::handle_of(name), 0, first).len(),
    )
}

/// Every call of a sending is sent and read where the credentials and the
/// path of the export are of a quarter of a chunk at most.
pub proof fn modest_sendings_cross(
    credentials: UnixView,
    session: SessionView,
    name: Seq<char>,
    bytes: Seq<u8>,
)
    requires
        rpc::unix_bytes(credentials).len() <= CHUNK / 4,
        utf8::encode_utf8(session.export).len() <= CHUNK / 4,
        nameable(name),
        bytes.len() <= session.max_body,
    ensures
        sendable(session.max_body, credentials, session.export, name, bytes),
{
    reveal(call_crosses);
    let first = bytes.take(chunk_len(bytes.len()) as int);
    let file = session::handle_of(name);
    assert(xdr::string_bytes(session.export).len() <= CHUNK / 4 + 8);
    assert(procedure::create_args_bytes(session::root_handle(), name).len() <= 128);
    assert(procedure::write_args_bytes(file, 0, first).len() <= 128 + first.len());
}

/// A commit is sent and read where a create is.
proof fn commits_are_shorter(max_body: nat, credentials: UnixView, name: Seq<char>)
    requires
        call_crosses(
            max_body,
            credentials,
            procedure::create_args_bytes(session::root_handle(), name).len(),
        ),
    ensures
        call_crosses(
            max_body,
            credentials,
            procedure::commit_args_bytes(session::handle_of(name)).len(),
        ),
{
    shorter_calls_cross(
        max_body,
        credentials,
        procedure::commit_args_bytes(session::handle_of(name)).len(),
        procedure::create_args_bytes(session::root_handle(), name).len(),
    );
}

/// A write is sent and read where one of as many bytes or more is.
proof fn first_write_is_longest(
    max_body: nat,
    credentials: UnixView,
    file: Seq<u8>,
    offset: u64,
    data: Seq<u8>,
    first: Seq<u8>,
)
    requires
        data.len() <= first.len(),
        call_crosses(
            max_body,
            credentials,
            procedure::write_args_bytes(file, 0, first).len(),
        ),
    ensures
        call_crosses(
            max_body,
            credentials,
            procedure::write_args_bytes(file, offset, data).len(),
        ),
{
    shorter_calls_cross(
        max_body,
        credentials,
        procedure::write_args_bytes(file, offset, data).len(),
        procedure::write_args_bytes(file, 0, first).len(),
    );
}

/// One message of a sending that goes on.
proof fn one_message(
    max_body: nat,
    sending: SendingView,
    session: SessionView,
    events: Seq<EventView>,
    messages: nat,
    results: Seq<u8>,
    event: Option<EventView>,
    files: FilesView,
    more: SendingView,
)
    requires
        messages > 0,
        trip_is(session, max_body, sending.pending, results, event, files),
        exchange::send_after(sending, results) == Ok::<_, Failure>(Some(more)),
    ensures
        run_sending(max_body, sending, session, events, messages) == run_sending(
            max_body,
            more,
            SessionView { files, ..session },
            noted(events, event),
            (messages - 1) as nat,
        ),
{
    reveal(run_sending);
}

/// A sending whose unmount is pending.
#[verifier::opaque]
spec fn at_unmount(sending: SendingView) -> SendingView {
    exchange::send_next(
        sending,
        client::mount_asked(sending.client, mount::UMNT, xdr::string_bytes(sending.export)),
        SendStageView::Unmounting,
    )
}

/// A sending whose next write or commit is pending.
#[verifier::opaque]
spec fn at_upload(sending: SendingView, upload: UploadView) -> SendingView {
    exchange::send_next(
        sending,
        client::upload_asked(sending.client, upload),
        SendStageView::Writing(upload),
    )
}

/// A sending whose create is pending.
#[verifier::opaque]
spec fn at_create(sending: SendingView) -> SendingView {
    exchange::send_next(
        sending,
        client::nfs_asked(
            sending.client,
            procedure::CREATE,
            procedure::create_args_bytes(session::root_handle(), sending.name),
        ),
        SendStageView::Creating,
    )
}

/// Whether a sending has the same to do, whatever it has pending.
spec fn as_charged(now: SendingView, sending: SendingView) -> bool {
    &&& now.client.credentials == sending.client.credentials
    &&& now.export == sending.export
    &&& now.name == sending.name
    &&& now.bytes == sending.bytes
}

/// A pending create, write or commit leaves a sending the same to do.
proof fn sendings_keep(sending: SendingView, upload: UploadView)
    ensures
        as_charged(at_create(sending), sending),
        as_charged(at_upload(sending, upload), sending),
{
    reveal(at_create);
    reveal(at_upload);
}

/// The last message of a sending.
proof fn unmount_runs(
    max_body: nat,
    sending: SendingView,
    session: SessionView,
    events: Seq<EventView>,
)
    requires
        call_crosses(
            session.max_body,
            sending.client.credentials,
            xdr::string_bytes(sending.export).len(),
        ),
    ensures
        run_sending(max_body, at_unmount(sending), session, events, 1) == Ended::Done(
            (),
            session,
            events.push(EventView::Unmounted),
        ),
{
    reveal(run_sending);
    reveal(at_unmount);
    unmounting(sending.client, session, max_body, sending.export);
    assert(exchange::send_after(at_unmount(sending), Seq::empty()) == Ok::<_, Failure>(
        None::<SendingView>,
    ));
}

/// The commit and the unmount that end a sending.
proof fn commit_runs(
    max_body: nat,
    sending: SendingView,
    upload: UploadView,
    session: SessionView,
    events: Seq<EventView>,
)
    requires
        sendable(
            session.max_body,
            sending.client.credentials,
            sending.export,
            sending.name,
            upload.bytes,
        ),
        nameable(sending.name),
        upload.file == session::handle_of(sending.name),
        upload.bytes.len() == upload.offset,
        session.files.dom().contains(sending.name),
    ensures
        run_sending(max_body, at_upload(sending, upload), session, events, 2) == Ended::Done(
            (),
            session,
            events + put_ending(session, sending.name, session.files[sending.name]),
        ),
{
    reveal(at_upload);
    reveal(at_unmount);
    let name = sending.name;
    let now = at_upload(sending, upload);
    commits_are_shorter(session.max_body, sending.client.credentials, name);
    let results = committing(sending.client, session, max_body, name);
    let ending = put_ending(session, name, session.files[name]);
    assert(exchange::send_after(now, results) == Ok::<_, Failure>(Some(at_unmount(now))));
    one_message(
        max_body,
        now,
        session,
        events,
        2,
        results,
        Some(ending[0]),
        session.files,
        at_unmount(now),
    );
    unmount_runs(max_body, now, session, events.push(ending[0]));
    assert(events.push(ending[0]).push(ending[1]) =~= events + ending);
}

/// One write of a sending.
proof fn write_runs(
    max_body: nat,
    sending: SendingView,
    upload: UploadView,
    session: SessionView,
    events: Seq<EventView>,
    messages: nat,
)
    requires
        messages > 0,
        sendable(
            session.max_body,
            sending.client.credentials,
            sending.export,
            sending.name,
            upload.bytes,
        ),
        nameable(sending.name),
        upload.file == session::handle_of(sending.name),
        upload.offset < upload.bytes.len() <= session.max_body,
        session.max_body <= usize::MAX,
        session.files.dom().contains(sending.name),
        session.files[sending.name] == upload.bytes.take(upload.offset as int),
    ensures
        ({
            let count = chunk_len((upload.bytes.len() - upload.offset) as nat);
            let end = upload.offset + count;
            let held = upload.bytes.take(end as int);
            let now = at_upload(sending, upload);
            run_sending(max_body, now, session, events, messages) == run_sending(
                max_body,
                at_upload(now, UploadView { offset: end, ..upload }),
                SessionView { files: session.files.insert(sending.name, held), ..session },
                events.push(EventView::Written(sending.name, upload.offset as u64, count)),
                (messages - 1) as nat,
            )
        }),
{
    reveal(at_upload);
    let name = sending.name;
    let offset = upload.offset;
    let count = chunk_len((upload.bytes.len() - offset) as nat);
    let end = offset + count;
    let held = upload.bytes.take(end as int);
    let data = client::chunk_of(upload);
    let now = at_upload(sending, upload);
    let next = UploadView { offset: end, ..upload };
    assert(data.len() == count);
    assert(session::overwritten(upload.bytes.take(offset as int), offset, data) =~= held);
    first_write_is_longest(
        session.max_body,
        sending.client.credentials,
        upload.file,
        offset as u64,
        data,
        upload.bytes.take(chunk_len(upload.bytes.len()) as int),
    );
    let results = writing(sending.client, session, max_body, name, offset as u64, data);
    assert(exchange::send_after(now, results) == Ok::<_, Failure>(Some(at_upload(now, next))));
    one_message(
        max_body,
        now,
        session,
        events,
        messages,
        results,
        Some(EventView::Written(name, offset as u64, count)),
        session.files.insert(name, held),
        at_upload(now, next),
    );
}

/// The writes that are left of a sending, and what ends it.
proof fn writes_run(
    max_body: nat,
    sending: SendingView,
    upload: UploadView,
    session: SessionView,
    events: Seq<EventView>,
)
    requires
        sendable(
            session.max_body,
            sending.client.credentials,
            sending.export,
            sending.name,
            upload.bytes,
        ),
        nameable(sending.name),
        upload.file == session::handle_of(sending.name),
        upload.offset <= upload.bytes.len() <= session.max_body,
        session.max_body <= usize::MAX,
        session.files.dom().contains(sending.name),
        session.files[sending.name] == upload.bytes.take(upload.offset as int),
    ensures
        run_sending(
            max_body,
            at_upload(sending, upload),
            session,
            events,
            chunks((upload.bytes.len() - upload.offset) as nat) + 2,
        ) == Ended::Done(
            (),
            SessionView { files: session.files.insert(sending.name, upload.bytes), ..session },
            events + writes(sending.name, upload.bytes.len(), upload.offset) + put_ending(
                session,
                sending.name,
                upload.bytes,
            ),
        ),
    decreases upload.bytes.len() - upload.offset,
{
    sendings_keep(sending, upload);
    let name = sending.name;
    let bytes = upload.bytes;
    let len = bytes.len();
    let offset = upload.offset;
    if offset == len {
        assert(bytes.take(len as int) =~= bytes);
        assert(session.files.insert(name, bytes) =~= session.files);
        commit_runs(max_body, sending, upload, session, events);
        assert(events + writes(name, len, offset) =~= events);
    } else {
        let count = chunk_len((len - offset) as nat);
        let held = bytes.take((offset + count) as int);
        let next = UploadView { offset: offset + count, ..upload };
        let after = SessionView { files: session.files.insert(name, held), ..session };
        let event = EventView::Written(name, offset as u64, count);
        write_runs(max_body, sending, upload, session, events, chunks((len - offset) as nat) + 2);
        writes_run(max_body, at_upload(sending, upload), next, after, events.push(event));
        assert(after.files.insert(name, bytes) =~= session.files.insert(name, bytes));
        let rest = writes(name, len, offset + count);
        assert(events.push(event) + rest =~= events + (seq![event] + rest));
    }
}

/// The create of a sending, and the writes and what ends it.
proof fn create_runs(
    max_body: nat,
    sending: SendingView,
    session: SessionView,
    events: Seq<EventView>,
)
    requires
        sendable(
            session.max_body,
            sending.client.credentials,
            sending.export,
            sending.name,
            sending.bytes,
        ),
        nameable(sending.name),
        sending.bytes.len() <= session.max_body <= usize::MAX,
    ensures
        run_sending(max_body, at_create(sending), session, events, chunks(sending.bytes.len()) + 3)
            == Ended::Done(
            (),
            SessionView {
                files: session.files.insert(sending.name, sending.bytes),
                ..session
            },
            events.push(EventView::Created(sending.name)) + writes(
                sending.name,
                sending.bytes.len(),
                0,
            ) + put_ending(session, sending.name, sending.bytes),
        ),
{
    let name = sending.name;
    let bytes = sending.bytes;
    let now = at_create(sending);
    let results = creating(sending.client, session, max_body, session::root_handle(), name);
    let upload = UploadView { file: session::handle_of(name), bytes, offset: 0 };
    let empty = session.files.insert(name, Seq::empty());
    let pending = client::nfs_asked(
        sending.client,
        procedure::CREATE,
        procedure::create_args_bytes(session::root_handle(), name),
    );
    assert({
        &&& now.pending == pending
        &&& exchange::send_after(now, results) == Ok::<_, Failure>(Some(at_upload(now, upload)))
    }) by {
        reveal(at_create);
        reveal(at_upload);
    }
    sendings_keep(sending, upload);
    one_message(
        max_body,
        now,
        session,
        events,
        chunks(bytes.len()) + 3,
        results,
        Some(EventView::Created(name)),
        empty,
        at_upload(now, upload),
    );
    assert(bytes.take(0) =~= Seq::empty());
    assert(empty.insert(name, bytes) =~= session.files.insert(name, bytes));
    writes_run(
        max_body,
        now,
        upload,
        SessionView { files: empty, ..session },
        events.push(EventView::Created(name)),
    );
}

/// A Stream sent is a Stream committed, whole, where its calls are short
/// enough to cross: the file of its name holds exactly its bytes, and the
/// session hands exactly them up.
pub proof fn sent_is_committed(
    credentials: UnixView,
    session: SessionView,
    max_body: nat,
    name: Seq<char>,
    bytes: Seq<u8>,
)
    requires
        sendable(session.max_body, credentials, session.export, name, bytes),
        nameable(name),
        bytes.len() <= session.max_body <= usize::MAX,
    ensures
        run_sending(
            max_body,
            exchange::sending(credentials, session.export, name, bytes),
            session,
            Seq::empty(),
            chunks(bytes.len()) + 4,
        ) == Ended::Done(
            (),
            SessionView { files: session.files.insert(name, bytes), ..session },
            put_events(session, name, bytes),
        ),
{
    let client = ClientView { credentials, next_xid: 1 };
    let sending = exchange::sending(credentials, session.export, name, bytes);
    let mounted = EventView::Mounted(session.export);
    let results = mounting(client, session, max_body, session.export);
    assert(exchange::send_after(sending, results) == Ok::<_, Failure>(Some(at_create(sending))))
        by {
        reveal(at_create);
    }
    one_message(
        max_body,
        sending,
        session,
        Seq::empty(),
        chunks(bytes.len()) + 4,
        results,
        Some(mounted),
        session.files,
        at_create(sending),
    );
    let events = Seq::<EventView>::empty().push(mounted);
    create_runs(max_body, sending, session, events);
    assert(events.push(EventView::Created(name)) =~= seq![mounted, EventView::Created(name)]);
}

/// A Stream sent to any other export is refused, access denied, and nothing
/// is done.
pub proof fn other_exports_are_refused(
    credentials: UnixView,
    session: SessionView,
    max_body: nat,
    export: Seq<char>,
    name: Seq<char>,
    bytes: Seq<u8>,
)
    requires
        call_crosses(session.max_body, credentials, xdr::string_bytes(export).len()),
        export != session.export,
    ensures
        run_sending(
            max_body,
            exchange::sending(credentials, export, name, bytes),
            session,
            Seq::empty(),
            1,
        ) == Ended::<()>::Failed(
            status::status_failure("mounting"@, status::ACCES),
            session,
            Seq::empty(),
        ),
{
    reveal(run_sending);
    let client = ClientView { credentials, next_xid: 1 };
    let sending = exchange::sending(credentials, export, name, bytes);
    let results = mounting(client, session, max_body, export);
    assert(exchange::send_after(sending, results) == Err::<Option<SendingView>, _>(
        status::status_failure("mounting"@, status::ACCES),
    ));
}

/// Where a receiving and a session get in so many messages.
#[verifier::opaque]
pub open spec fn run_receiving(
    receiving: ReceivingView,
    session: SessionView,
    events: Seq<EventView>,
    messages: nat,
) -> Ended<Seq<ArrivedView>>
    decreases messages,
{
    if messages == 0 {
        Ended::Running
    } else {
        match trip(session, receiving.errand.max_body, receiving.pending) {
            Ok((results, event, session)) => {
                let events = noted(events, event);
                match results {
                    Ok(results) => match exchange::receive_after(receiving, results) {
                        Ok(Taken::Part(receiving)) => run_receiving(
                            receiving,
                            session,
                            events,
                            (messages - 1) as nat,
                        ),
                        Ok(Taken::All(arrived)) => Ended::Done(arrived, session, events),
                        Err(failure) => Ended::Failed(failure, session, events),
                    },
                    Err(failure) => Ended::Failed(failure, session, events),
                }
            },
            Err(failure) => Ended::Unserved(failure),
        }
    }
}

/// Whether the reads of a file of this name are sent and read: no call about
/// the file is longer but the writes.
pub open spec fn reads_cross(max_body: nat, credentials: UnixView, name: Seq<char>) -> bool {
    call_crosses(
        max_body,
        credentials,
        procedure::read_args_bytes(session::handle_of(name), 0, CHUNK as u32).len(),
    )
}

/// Whether the listing is sent and read, the call and the reply.
pub open spec fn listing_crosses(
    session: SessionView,
    credentials: UnixView,
    max_body: nat,
) -> bool {
    let names = files::listing(session.files);
    &&& call_crosses(
        session.max_body,
        credentials,
        procedure::readdir_args_bytes(session::root_handle(), client::LISTING).len(),
    )
    &&& reply_crosses(max_body, procedure::readdir_ok_bytes(names).len())
}

/// Whether every call of a receiving and its listing are sent and read: the
/// mount and the unmount, the listing, and the reads of each file. Every other
/// reply is.
pub open spec fn fetchable(
    session: SessionView,
    credentials: UnixView,
    errand: ErrandView,
) -> bool {
    &&& call_crosses(session.max_body, credentials, xdr::string_bytes(errand.export).len())
    &&& listing_crosses(session, credentials, errand.max_body)
    &&& forall|name: Seq<char>| #[trigger]
        session.files.dom().contains(name) && !procedure::is_dots(name) ==> reads_cross(
            session.max_body,
            credentials,
            name,
        )
}

/// Every call of a receiving is sent and read where the credentials and the
/// path of the export are of a quarter of a chunk at most; the listing that
/// comes back has to be short enough by itself.
pub proof fn modest_receivings_cross(
    credentials: UnixView,
    errand: ErrandView,
    session: SessionView,
)
    requires
        rpc::unix_bytes(credentials).len() <= CHUNK / 4,
        utf8::encode_utf8(errand.export).len() <= CHUNK / 4,
        forall|name: Seq<char>| #[trigger]
            session.files.dom().contains(name) && !procedure::is_dots(name) ==> nameable(name),
        reply_crosses(
            errand.max_body,
            procedure::readdir_ok_bytes(files::listing(session.files)).len(),
        ),
    ensures
        fetchable(session, credentials, errand),
{
    let max_body = session.max_body;
    let root = session::root_handle();
    let path = xdr::string_bytes(errand.export).len();
    let list = procedure::readdir_args_bytes(root, client::LISTING).len();
    assert(path <= CHUNK / 4 + 8);
    assert(list <= 128);
    assert(call_crosses(max_body, credentials, path)) by {
        reveal(call_crosses);
    }
    assert(call_crosses(max_body, credentials, list)) by {
        reveal(call_crosses);
    }
    assert forall|name: Seq<char>| #[trigger]
        session.files.dom().contains(name) && !procedure::is_dots(name) implies reads_cross(
        max_body,
        credentials,
        name,
    ) by {
        modest_reads_cross(max_body, credentials, name);
    }
}

/// The reads of a file are sent and read where the credentials are of a
/// quarter of a chunk at most.
proof fn modest_reads_cross(max_body: nat, credentials: UnixView, name: Seq<char>)
    requires
        rpc::unix_bytes(credentials).len() <= CHUNK / 4,
        nameable(name),
    ensures
        reads_cross(max_body, credentials, name),
{
    reveal(call_crosses);
    let file = session::handle_of(name);
    assert(procedure::read_args_bytes(file, 0, CHUNK as u32).len() <= 128);
}

/// No call about a file that is received is longer than a read of it.
proof fn reads_are_longest(max_body: nat, credentials: UnixView, name: Seq<char>, offset: u64)
    requires
        reads_cross(max_body, credentials, name),
    ensures
        call_crosses(
            max_body,
            credentials,
            procedure::read_args_bytes(session::handle_of(name), offset, CHUNK as u32).len(),
        ),
        call_crosses(
            max_body,
            credentials,
            procedure::dir_args_bytes(session::root_handle(), name).len(),
        ),
{
    let file = session::handle_of(name);
    let longest = procedure::read_args_bytes(file, 0, CHUNK as u32).len();
    let other = procedure::read_args_bytes(file, offset, CHUNK as u32).len();
    let named = procedure::dir_args_bytes(session::root_handle(), name).len();
    shorter_calls_cross(max_body, credentials, other, longest);
    shorter_calls_cross(max_body, credentials, named, longest);
}

/// The reply to a read of a chunk of a file that is read here is sent and
/// read.
pub proof fn read_replies_cross(max_body: nat, data: Seq<u8>, eof: bool)
    requires
        data.len() <= CHUNK,
        data.len() <= max_body,
    ensures
        reply_crosses(max_body, procedure::read_ok_bytes(data, eof).len()),
{
    reveal(reply_crosses);
    assert(procedure::read_ok_bytes(data, eof).len() <= data.len() + 128);
}

/// One message of a receiving that goes on.
proof fn one_request(
    receiving: ReceivingView,
    session: SessionView,
    events: Seq<EventView>,
    messages: nat,
    results: Seq<u8>,
    event: Option<EventView>,
    files: FilesView,
    more: ReceivingView,
)
    requires
        messages > 0,
        trip_is(
            session,
            receiving.errand.max_body,
            receiving.pending,
            results,
            event,
            files,
        ),
        exchange::receive_after(receiving, results) == Ok::<_, Failure>(Taken::Part(more)),
    ensures
        run_receiving(receiving, session, events, messages) == run_receiving(
            more,
            SessionView { files, ..session },
            noted(events, event),
            (messages - 1) as nat,
        ),
{
    reveal(run_receiving);
}

/// How many calls read a file of `len` bytes from `offset` on: a chunk each,
/// and one where there is nothing to read.
pub open spec fn reads(len: nat, offset: nat) -> nat
    decreases len - offset,
{
    if offset + CHUNK >= len {
        1
    } else {
        1 + reads(len, offset + CHUNK as nat)
    }
}

/// What a session tells of so many reads of a file, and of its remove where
/// it is removed.
pub open spec fn take_events(name: Seq<char>, reads: nat, removes: bool) -> Seq<EventView> {
    Seq::new(reads, |i: int| EventView::Read(name)) + if removes {
        seq![EventView::Removed(name)]
    } else {
        Seq::empty()
    }
}

/// How many messages take the files of these names.
pub open spec fn all_messages(files: FilesView, names: Seq<Seq<char>>, removes: bool) -> nat
    decreases names.len(),
{
    if names.len() == 0 {
        0
    } else {
        1 + reads(files[names[0]].len(), 0) + (if removes {
            1nat
        } else {
            0
        }) + all_messages(files, names.drop_first(), removes)
    }
}

/// What a session tells of the files of these names, each taken.
pub open spec fn all_events(files: FilesView, names: Seq<Seq<char>>, removes: bool) -> Seq<
    EventView,
>
    decreases names.len(),
{
    if names.len() == 0 {
        Seq::empty()
    } else {
        take_events(names[0], reads(files[names[0]].len(), 0), removes) + all_events(
            files,
            names.drop_first(),
            removes,
        )
    }
}

/// The Streams that the files of these names are.
pub open spec fn streams_of(
    errand: ErrandView,
    files: FilesView,
    names: Seq<Seq<char>>,
) -> Seq<ArrivedView> {
    Seq::new(
        names.len(),
        |i: int|
            ArrivedView {
                origin_uri: arrived::origin_of(errand.server, errand.export, names[i]),
                bytes: files[names[i]],
            },
    )
}

/// What is left of `files` without these names.
pub open spec fn left_of(files: FilesView, names: Seq<Seq<char>>) -> FilesView {
    Map::new(
        |name: Seq<char>| files.dom().contains(name) && !names.contains(name),
        |name: Seq<char>| files[name],
    )
}

/// A receiving whose next read is pending.
#[verifier::opaque]
spec fn at_read(receiving: ReceivingView, root: Seq<u8>, download: DownloadView) -> ReceivingView {
    exchange::receive_next(
        receiving,
        client::download_asked(receiving.client, download),
        ReceiveStageView::Reading(root, download),
    )
}

/// A receiving that has read a file whole.
#[verifier::opaque]
spec fn at_whole(receiving: ReceivingView, root: Seq<u8>, bytes: Seq<u8>) -> ReceivingView {
    if receiving.errand.removes {
        exchange::receive_next(
            receiving,
            client::nfs_asked(
                receiving.client,
                procedure::REMOVE,
                procedure::dir_args_bytes(
                    root,
                    receiving.names[receiving.arrived.len() as int],
                ),
            ),
            ReceiveStageView::Removing(root, bytes),
        )
    } else {
        exchange::one_arrived(receiving, root, bytes)
    }
}

/// A receiving whose next lookup, or unmount, is pending.
#[verifier::opaque]
spec fn at_name(receiving: ReceivingView, root: Seq<u8>) -> ReceivingView {
    exchange::next_name(receiving, root)
}

/// A receiving with one more Stream.
#[verifier::opaque]
spec fn with_one(receiving: ReceivingView, bytes: Seq<u8>) -> ReceivingView {
    let origin_uri = arrived::origin_of(
        receiving.errand.server,
        receiving.errand.export,
        receiving.names[receiving.arrived.len() as int],
    );
    ReceivingView {
        arrived: receiving.arrived.push(ArrivedView { origin_uri, bytes }),
        ..receiving
    }
}

/// What is read of a file from a whole number of chunks on.
proof fn chunk_is_next(bytes: Seq<u8>, offset: nat)
    requires
        offset <= bytes.len(),
    ensures
        offset + CHUNK >= bytes.len() ==> bytes.take(offset as int) + session::slice_of(
            bytes,
            offset,
            CHUNK as nat,
        ) == bytes,
        offset + CHUNK < bytes.len() ==> bytes.take(offset as int) + session::slice_of(
            bytes,
            offset,
            CHUNK as nat,
        ) == bytes.take((offset + CHUNK) as int),
{
    let data = session::slice_of(bytes, offset, CHUNK as nat);
    if offset + CHUNK >= bytes.len() {
        assert(bytes.take(offset as int) + data =~= bytes);
    } else {
        assert(bytes.take(offset as int) + data =~= bytes.take((offset + CHUNK) as int));
    }
}

/// One read of a file that is being received.
proof fn read_runs(
    receiving: ReceivingView,
    root: Seq<u8>,
    download: DownloadView,
    session: SessionView,
    events: Seq<EventView>,
    messages: nat,
    name: Seq<char>,
)
    requires
        messages > 0,
        reads_cross(session.max_body, receiving.client.credentials, name),
        nameable(name),
        download.file == session::handle_of(name),
        session.files.dom().contains(name),
        download.bytes.len() <= session.files[name].len() <= download.max_body,
        download.max_body == receiving.errand.max_body,
        download.max_body <= usize::MAX,
        download.bytes == session.files[name].take(download.bytes.len() as int),
    ensures
        ({
            let whole = session.files[name];
            let now = at_read(receiving, root, download);
            let end = download.bytes.len() + CHUNK;
            let more = DownloadView { bytes: whole.take(end), ..download };
            run_receiving(now, session, events, messages) == run_receiving(
                if end >= whole.len() {
                    at_whole(now, root, whole)
                } else {
                    at_read(now, root, more)
                },
                session,
                events.push(EventView::Read(name)),
                (messages - 1) as nat,
            )
        }),
{
    reveal(at_read);
    reveal(at_whole);
    let whole = session.files[name];
    let now = at_read(receiving, root, download);
    let offset = download.bytes.len();
    let max_body = receiving.errand.max_body;
    let credentials = receiving.client.credentials;
    let data = session::slice_of(whole, offset, CHUNK as nat);
    read_replies_cross(max_body, data, offset + CHUNK >= whole.len());
    reads_are_longest(session.max_body, credentials, name, offset as u64);
    let results = reading(
        receiving.client,
        session,
        max_body,
        name,
        offset as u64,
        CHUNK as u32,
    );
    chunk_is_next(whole, offset);
    let more = if offset + CHUNK >= whole.len() {
        at_whole(now, root, whole)
    } else {
        at_read(now, root, DownloadView { bytes: whole.take(offset + CHUNK), ..download })
    };
    assert(exchange::receive_after(now, results) == Ok::<_, Failure>(Taken::Part(more)));
    one_request(
        now,
        session,
        events,
        messages,
        results,
        Some(EventView::Read(name)),
        session.files,
        more,
    );
}

/// Whether a receiving is as far with the same errand, whatever it has
/// pending.
spec fn as_far(now: ReceivingView, receiving: ReceivingView) -> bool {
    &&& now.client.credentials == receiving.client.credentials
    &&& now.errand == receiving.errand
    &&& now.names == receiving.names
    &&& now.arrived == receiving.arrived
}

/// A pending read leaves a receiving as far as it was.
proof fn receivings_keep(receiving: ReceivingView, root: Seq<u8>, download: DownloadView)
    ensures
        as_far(at_read(receiving, root, download), receiving),
{
    reveal(at_read);
}

/// The reads of a file that is being received, to its end.
proof fn reads_run(
    receiving: ReceivingView,
    root: Seq<u8>,
    download: DownloadView,
    session: SessionView,
    events: Seq<EventView>,
    rest: nat,
    name: Seq<char>,
) -> (last: ReceivingView)
    requires
        reads_cross(session.max_body, receiving.client.credentials, name),
        nameable(name),
        download.file == session::handle_of(name),
        session.files.dom().contains(name),
        download.bytes.len() <= session.files[name].len() <= download.max_body,
        download.max_body == receiving.errand.max_body,
        download.max_body <= usize::MAX,
        download.bytes == session.files[name].take(download.bytes.len() as int),
    ensures
        as_far(last, receiving),
        ({
            let whole = session.files[name];
            let count = reads(whole.len(), download.bytes.len());
            run_receiving(at_read(receiving, root, download), session, events, count + rest)
                == run_receiving(
                at_whole(last, root, whole),
                session,
                events + Seq::new(count, |i: int| EventView::Read(name)),
                rest,
            )
        }),
    decreases session.files[name].len() - download.bytes.len(),
{
    let whole = session.files[name];
    let offset = download.bytes.len();
    let count = reads(whole.len(), offset);
    let now = at_read(receiving, root, download);
    let read = EventView::Read(name);
    receivings_keep(receiving, root, download);
    read_runs(receiving, root, download, session, events, count + rest, name);
    if offset + CHUNK >= whole.len() {
        assert(events.push(read) =~= events + Seq::new(count, |i: int| EventView::Read(name)));
        now
    } else {
        let more = DownloadView { bytes: whole.take(offset + CHUNK), ..download };
        let last = reads_run(now, root, more, session, events.push(read), rest, name);
        assert(events.push(read) + Seq::new((count - 1) as nat, |i: int| EventView::Read(name))
            =~= events + Seq::new(count, |i: int| EventView::Read(name)));
        last
    }
}

/// The remove of a file read whole, where it is removed.
proof fn whole_runs(
    receiving: ReceivingView,
    root: Seq<u8>,
    session: SessionView,
    events: Seq<EventView>,
    rest: nat,
    name: Seq<char>,
) -> (last: ReceivingView)
    requires
        reads_cross(session.max_body, receiving.client.credentials, name),
        root == session::root_handle(),
        nameable(name),
        session.files.dom().contains(name),
        receiving.arrived.len() < receiving.names.len(),
        name == receiving.names[receiving.arrived.len() as int],
    ensures
        as_far(last, receiving),
        ({
            let whole = session.files[name];
            let removes = receiving.errand.removes;
            run_receiving(
                at_whole(receiving, root, whole),
                session,
                events,
                if removes {
                    rest + 1
                } else {
                    rest
                },
            ) == run_receiving(
                at_name(with_one(last, whole), root),
                SessionView {
                    files: if removes {
                        session.files.remove(name)
                    } else {
                        session.files
                    },
                    ..session
                },
                if removes {
                    events.push(EventView::Removed(name))
                } else {
                    events
                },
                rest,
            )
        }),
{
    reveal(at_whole);
    reveal(at_name);
    reveal(with_one);
    let whole = session.files[name];
    let now = at_whole(receiving, root, whole);
    if receiving.errand.removes {
        let max_body = receiving.errand.max_body;
        reads_are_longest(session.max_body, receiving.client.credentials, name, 0);
        let results = removing(receiving.client, session, max_body, root, name);
        let more = exchange::one_arrived(now, root, whole);
        assert(exchange::receive_after(now, results) == Ok::<_, Failure>(Taken::Part(more)));
        one_request(
            now,
            session,
            events,
            rest + 1,
            results,
            Some(EventView::Removed(name)),
            session.files.remove(name),
            more,
        );
        now
    } else {
        receiving
    }
}

/// The lookup of a file that is to be received.
proof fn lookup_runs(
    receiving: ReceivingView,
    root: Seq<u8>,
    session: SessionView,
    events: Seq<EventView>,
    messages: nat,
    name: Seq<char>,
    download: DownloadView,
) -> (now: ReceivingView)
    requires
        messages > 0,
        reads_cross(session.max_body, receiving.client.credentials, name),
        root == session::root_handle(),
        nameable(name),
        session.files.dom().contains(name),
        receiving.arrived.len() < receiving.names.len(),
        name == receiving.names[receiving.arrived.len() as int],
        download == (DownloadView {
            file: session::handle_of(name),
            bytes: Seq::empty(),
            max_body: receiving.errand.max_body,
        }),
    ensures
        as_far(now, receiving),
        run_receiving(at_name(receiving, root), session, events, messages) == run_receiving(
            at_read(now, root, download),
            session,
            events,
            (messages - 1) as nat,
        ),
{
    reveal(at_name);
    reveal(at_read);
    let now = at_name(receiving, root);
    reads_are_longest(session.max_body, receiving.client.credentials, name, 0);
    let results = finding(receiving.client, session, receiving.errand.max_body, root, name);
    assert(exchange::receive_after(now, results) == Ok::<_, Failure>(
        Taken::Part(at_read(now, root, download)),
    ));
    one_request(
        now,
        session,
        events,
        messages,
        results,
        None,
        session.files,
        at_read(now, root, download),
    );
    now
}

/// The reads and the remove are what a session tells of a file taken.
proof fn told_together(events: Seq<EventView>, name: Seq<char>, count: nat, removes: bool)
    ensures
        ({
            let told = events + Seq::new(count, |i: int| EventView::Read(name));
            events + take_events(name, count, removes) == (if removes {
                told.push(EventView::Removed(name))
            } else {
                told
            })
        }),
{
    let told = events + Seq::new(count, |i: int| EventView::Read(name));
    if removes {
        assert(told.push(EventView::Removed(name)) =~= events + take_events(name, count, true));
    } else {
        assert(told =~= events + take_events(name, count, false));
    }
}

/// One file received: found, read to its end, removed where it is removed.
proof fn file_runs(
    receiving: ReceivingView,
    root: Seq<u8>,
    session: SessionView,
    events: Seq<EventView>,
    rest: nat,
    name: Seq<char>,
) -> (last: ReceivingView)
    requires
        reads_cross(session.max_body, receiving.client.credentials, name),
        root == session::root_handle(),
        nameable(name),
        session.files.dom().contains(name),
        session.files[name].len() <= receiving.errand.max_body <= usize::MAX,
        receiving.arrived.len() < receiving.names.len(),
        name == receiving.names[receiving.arrived.len() as int],
    ensures
        as_far(last, receiving),
        ({
            let whole = session.files[name];
            let removes = receiving.errand.removes;
            let count = reads(whole.len(), 0);
            run_receiving(
                at_name(receiving, root),
                session,
                events,
                1 + count + (if removes {
                    1nat
                } else {
                    0
                }) + rest,
            ) == run_receiving(
                at_name(with_one(last, whole), root),
                SessionView {
                    files: if removes {
                        session.files.remove(name)
                    } else {
                        session.files
                    },
                    ..session
                },
                events + take_events(name, count, removes),
                rest,
            )
        }),
{
    let whole = session.files[name];
    let removes = receiving.errand.removes;
    let count = reads(whole.len(), 0);
    let after = rest + if removes {
        1nat
    } else {
        0
    };
    let download = DownloadView {
        file: session::handle_of(name),
        bytes: Seq::empty(),
        max_body: receiving.errand.max_body,
    };
    let now = lookup_runs(receiving, root, session, events, 1 + count + after, name, download);
    assert(whole.take(0) =~= Seq::empty());
    let read = reads_run(now, root, download, session, events, after, name);
    let told = events + Seq::new(count, |i: int| EventView::Read(name));
    let last = whole_runs(read, root, session, told, rest, name);
    told_together(events, name, count, removes);
    last
}

/// What taking the files of some names comes to does not depend on the file
/// of another.
proof fn others_do_not_matter(
    errand: ErrandView,
    files: FilesView,
    other: Seq<char>,
    names: Seq<Seq<char>>,
    removes: bool,
)
    requires
        !names.contains(other),
    ensures
        all_messages(files.remove(other), names, removes) == all_messages(files, names, removes),
        all_events(files.remove(other), names, removes) == all_events(files, names, removes),
        streams_of(errand, files.remove(other), names) == streams_of(errand, files, names),
    decreases names.len(),
{
    assert forall|i: int| 0 <= i < names.len() implies files.remove(other)[#[trigger] names[i]]
        == files[names[i]] by {
        assert(names.contains(names[i]));
    }
    assert(streams_of(errand, files.remove(other), names) =~= streams_of(errand, files, names));
    if names.len() > 0 {
        let tail = names.drop_first();
        if tail.contains(other) {
            let i = choose|i: int| 0 <= i < tail.len() && tail[i] == other;
            assert(names[i + 1] == other);
        }
        others_do_not_matter(errand, files, other, tail, removes);
    }
}

/// Whether each of these names is of a file that can be received.
spec fn receivable(
    session: SessionView,
    names: Seq<Seq<char>>,
    max_body: nat,
    credentials: UnixView,
) -> bool {
    forall|i: int|
        0 <= i < names.len() ==> {
            &&& session.files.dom().contains(#[trigger] names[i])
            &&& nameable(names[i])
            &&& session.files[names[i]].len() <= max_body
            &&& reads_cross(session.max_body, credentials, names[i])
        }
}

/// The last message of a receiving.
proof fn goodbye_runs(
    receiving: ReceivingView,
    root: Seq<u8>,
    session: SessionView,
    events: Seq<EventView>,
)
    requires
        call_crosses(
            session.max_body,
            receiving.client.credentials,
            xdr::string_bytes(receiving.errand.export).len(),
        ),
        receiving.arrived.len() >= receiving.names.len(),
    ensures
        run_receiving(at_name(receiving, root), session, events, 1) == Ended::Done(
            receiving.arrived,
            session,
            events.push(EventView::Unmounted),
        ),
{
    reveal(run_receiving);
    reveal(at_name);
    let now = at_name(receiving, root);
    let errand = receiving.errand;
    unmounting(receiving.client, session, errand.max_body, errand.export);
    assert(exchange::receive_after(now, Seq::empty()) == Ok::<_, Failure>(
        Taken::All(receiving.arrived),
    ));
}

/// With one more Stream, a receiving is one name further.
proof fn one_further(receiving: ReceivingView, bytes: Seq<u8>, left: Seq<Seq<char>>)
    requires
        receiving.arrived.len() < receiving.names.len(),
        left == receiving.names.skip(receiving.arrived.len() as int),
    ensures
        ({
            let now = with_one(receiving, bytes);
            &&& now.client == receiving.client
            &&& now.errand == receiving.errand
            &&& now.names == receiving.names
            &&& now.arrived == receiving.arrived.push(
                ArrivedView {
                    origin_uri: arrived::origin_of(
                        receiving.errand.server,
                        receiving.errand.export,
                        left[0],
                    ),
                    bytes,
                },
            )
            &&& left.drop_first() == now.names.skip(now.arrived.len() as int)
        }),
{
    reveal(with_one);
    let now = with_one(receiving, bytes);
    assert(left.drop_first() =~= now.names.skip(now.arrived.len() as int));
}

/// The files that are left to receive, and what ends a receiving.
proof fn files_run(
    receiving: ReceivingView,
    root: Seq<u8>,
    session: SessionView,
    events: Seq<EventView>,
    left: Seq<Seq<char>>,
)
    requires
        call_crosses(
            session.max_body,
            receiving.client.credentials,
            xdr::string_bytes(receiving.errand.export).len(),
        ),
        root == session::root_handle(),
        receiving.errand.max_body <= usize::MAX,
        receiving.arrived.len() <= receiving.names.len(),
        left == receiving.names.skip(receiving.arrived.len() as int),
        left.no_duplicates(),
        receivable(session, left, receiving.errand.max_body, receiving.client.credentials),
    ensures
        run_receiving(
            at_name(receiving, root),
            session,
            events,
            all_messages(session.files, left, receiving.errand.removes) + 1,
        ) == Ended::Done(
            receiving.arrived + streams_of(receiving.errand, session.files, left),
            SessionView {
                files: if receiving.errand.removes {
                    left_of(session.files, left)
                } else {
                    session.files
                },
                ..session
            },
            (events + all_events(session.files, left, receiving.errand.removes)).push(
                EventView::Unmounted,
            ),
        ),
    decreases left.len(),
{
    let errand = receiving.errand;
    let removes = errand.removes;
    let files = session.files;
    if left.len() == 0 {
        goodbye_runs(receiving, root, session, events);
        assert(left_of(files, left) =~= files);
        assert(events + all_events(files, left, removes) =~= events);
        assert(receiving.arrived + streams_of(errand, files, left) =~= receiving.arrived);
    } else {
        let name = left[0];
        let whole = files[name];
        let tail = left.drop_first();
        let after = SessionView {
            files: if removes {
                files.remove(name)
            } else {
                files
            },
            ..session
        };
        let told = events + take_events(name, reads(whole.len(), 0), removes);
        if tail.contains(name) {
            let i = choose|i: int| 0 <= i < tail.len() && tail[i] == name;
            assert(left[i + 1] == name);
        }
        others_do_not_matter(errand, files, name, tail, removes);
        let last = file_runs(
            receiving,
            root,
            session,
            events,
            all_messages(files, tail, removes) + 1,
            name,
        );
        let next = with_one(last, whole);
        one_further(last, whole, left);
        let credentials = receiving.client.credentials;
        assert(receivable(after, tail, errand.max_body, credentials)) by {
            assert forall|i: int| 0 <= i < tail.len() implies {
                &&& after.files.dom().contains(#[trigger] tail[i])
                &&& nameable(tail[i])
                &&& after.files[tail[i]].len() <= errand.max_body
                &&& reads_cross(session.max_body, credentials, tail[i])
            } by {
                assert(tail[i] == left[i + 1]);
                assert(left[i + 1] != left[0]);
            }
        }
        files_run(next, root, after, told, tail);
        ends_meet(receiving, next, session, events, left);
    }
}

/// What one file and the rest come to is what all come to.
proof fn ends_meet(
    receiving: ReceivingView,
    next: ReceivingView,
    session: SessionView,
    events: Seq<EventView>,
    left: Seq<Seq<char>>,
)
    requires
        left.len() > 0,
        next.arrived == receiving.arrived.push(
            ArrivedView {
                origin_uri: arrived::origin_of(
                    receiving.errand.server,
                    receiving.errand.export,
                    left[0],
                ),
                bytes: session.files[left[0]],
            },
        ),
    ensures
        ({
            let removes = receiving.errand.removes;
            let files = session.files;
            let tail = left.drop_first();
            let name = left[0];
            &&& next.arrived + streams_of(receiving.errand, files, tail) == receiving.arrived
                + streams_of(receiving.errand, files, left)
            &&& left_of(files.remove(name), tail) == left_of(files, left)
            &&& events + take_events(name, reads(files[name].len(), 0), removes) + all_events(
                files,
                tail,
                removes,
            ) == events + all_events(files, left, removes)
        }),
{
    let removes = receiving.errand.removes;
    let files = session.files;
    let tail = left.drop_first();
    let name = left[0];
    assert(next.arrived + streams_of(receiving.errand, files, tail) =~= receiving.arrived
        + streams_of(receiving.errand, files, left));
    assert forall|other: Seq<char>| #[trigger] left.contains(other) <==> other == name
        || tail.contains(other) by {
        if left.contains(other) && other != name {
            let i = choose|i: int| 0 <= i < left.len() && left[i] == other;
            assert(tail[i - 1] == other);
        }
        if tail.contains(other) {
            let i = choose|i: int| 0 <= i < tail.len() && tail[i] == other;
            assert(left[i + 1] == other);
        }
        assert(left.contains(left[0]));
    }
    assert(left_of(files.remove(name), tail) =~= left_of(files, left));
    let taken = take_events(name, reads(files[name].len(), 0), removes);
    let rest = all_events(files, tail, removes);
    assert(events + taken + rest =~= events + (taken + rest));
}

/// The names a listing gives: each of a file, none twice, none `.` or `..`.
proof fn names_are_of_files(files: FilesView, names: Seq<Seq<char>>)
    requires
        files::ascending(names),
        forall|i: int| 0 <= i < names.len() ==> files.dom().contains(#[trigger] names[i]),
    ensures
        procedure::without_dots(names).no_duplicates(),
        forall|i: int|
            0 <= i < procedure::without_dots(names).len() ==> {
                let name = #[trigger] procedure::without_dots(names)[i];
                files.dom().contains(name) && !procedure::is_dots(name) && names.contains(name)
            },
    decreases names.len(),
{
    reveal(Seq::filter);
    if names.len() > 0 {
        let before = names.drop_last();
        let kept = procedure::without_dots(before);
        names_are_of_files(files, before);
        assert forall|i: int| 0 <= i < kept.len() implies #[trigger] kept[i] != names.last()
            && names.contains(kept[i]) by {
            let at = choose|at: int| 0 <= at < before.len() && before[at] == kept[i];
            assert(names[at] == kept[i]);
            assert(files::sorts_before(names[at], names.last()));
            files::order_is_strict(names.last());
        }
        assert(names.contains(names.last()));
    }
}

/// What a session tells of every file of its export taken: the mount, the
/// listing, each file in order, the unmount.
pub open spec fn empty_events(session: SessionView, removes: bool) -> Seq<EventView> {
    let names = procedure::without_dots(files::listing(session.files));
    (seq![EventView::Mounted(session.export), EventView::Listed] + all_events(
        session.files,
        names,
        removes,
    )).push(EventView::Unmounted)
}

/// A receiving whose listing is pending.
#[verifier::opaque]
spec fn at_list(receiving: ReceivingView, root: Seq<u8>) -> ReceivingView {
    exchange::receive_next(
        receiving,
        client::nfs_asked(
            receiving.client,
            procedure::READDIR,
            procedure::readdir_args_bytes(root, client::LISTING),
        ),
        ReceiveStageView::Listing(root),
    )
}

/// The listing of a receiving.
proof fn list_runs(
    receiving: ReceivingView,
    root: Seq<u8>,
    session: SessionView,
    events: Seq<EventView>,
    messages: nat,
) -> (last: ReceivingView)
    requires
        messages > 0,
        listing_crosses(session, receiving.client.credentials, receiving.errand.max_body),
        root == session::root_handle(),
    ensures
        last.client.credentials == receiving.client.credentials,
        last.errand == receiving.errand,
        last.names == procedure::without_dots(files::listing(session.files)),
        last.arrived == Seq::<ArrivedView>::empty(),
        run_receiving(at_list(receiving, root), session, events, messages) == run_receiving(
            at_name(last, root),
            session,
            events.push(EventView::Listed),
            (messages - 1) as nat,
        ),
{
    reveal(at_list);
    reveal(at_name);
    let now = at_list(receiving, root);
    let results = listing(receiving.client, session, receiving.errand.max_body, root);
    let names = procedure::without_dots(files::listing(session.files));
    let last = ReceivingView { names, arrived: Seq::empty(), ..now };
    assert(exchange::receive_after(now, results) == Ok::<_, Failure>(
        Taken::Part(at_name(last, root)),
    ));
    one_request(
        now,
        session,
        events,
        messages,
        results,
        Some(EventView::Listed),
        session.files,
        at_name(last, root),
    );
    last
}

/// Every file of the export is received, whole and in order, where the calls
/// and the listing are short enough to cross, each under the URI of the
/// server, the export and its name; and each is then gone where files are
/// removed, and still there where they are left. A file called `.` or `..` is
/// neither received nor removed.
pub proof fn everything_is_received(
    credentials: UnixView,
    errand: ErrandView,
    session: SessionView,
)
    requires
        fetchable(session, credentials, errand),
        errand.export == session.export,
        errand.max_body <= usize::MAX,
        session.files.dom().finite(),
        forall|name: Seq<char>| #[trigger]
            session.files.dom().contains(name) && !procedure::is_dots(name) ==> nameable(name)
                && session.files[name].len() <= errand.max_body,
    ensures
        ({
            let names = procedure::without_dots(files::listing(session.files));
            run_receiving(
                exchange::receiving(credentials, errand),
                session,
                Seq::empty(),
                all_messages(session.files, names, errand.removes) + 3,
            ) == Ended::Done(
                streams_of(errand, session.files, names),
                SessionView {
                    files: if errand.removes {
                        left_of(session.files, names)
                    } else {
                        session.files
                    },
                    ..session
                },
                empty_events(session, errand.removes),
            )
        }),
{
    let client = ClientView { credentials, next_xid: 1 };
    let receiving = exchange::receiving(credentials, errand);
    let root = session::root_handle();
    let listed = files::listing(session.files);
    let names = procedure::without_dots(listed);
    let messages = all_messages(session.files, names, errand.removes);
    let mounted = EventView::Mounted(session.export);
    let results = mounting(client, session, errand.max_body, session.export);
    assert(exchange::receive_after(receiving, results) == Ok::<_, Failure>(
        Taken::Part(at_list(receiving, root)),
    )) by {
        reveal(at_list);
    }
    one_request(
        receiving,
        session,
        Seq::empty(),
        messages + 3,
        results,
        Some(mounted),
        session.files,
        at_list(receiving, root),
    );
    let events = Seq::<EventView>::empty().push(mounted);
    let last = list_runs(receiving, root, session, events, messages + 2);
    files::finite_files_are_listable(session.files);
    assert(files::lists(listed, session.files));
    assert forall|i: int| 0 <= i < listed.len() implies session.files.dom().contains(
        #[trigger] listed[i],
    ) by {
        assert(listed.contains(listed[i]));
    }
    names_are_of_files(session.files, listed);
    assert(last.names.skip(0) =~= names);
    files_run(last, root, session, events.push(EventView::Listed), names);
    assert(events.push(EventView::Listed) =~= seq![mounted, EventView::Listed]);
    assert(last.arrived + streams_of(errand, session.files, names) =~= streams_of(
        errand,
        session.files,
        names,
    ));
}

/// Every call and every reply of a receiving of one file is sent and read
/// where the mount and the create of that file are.
proof fn one_file_is_fetchable(
    credentials: UnixView,
    errand: ErrandView,
    session: SessionView,
    name: Seq<char>,
)
    requires
        nameable(name),
        session.files.dom() == set![name],
        files::listing(session.files) == seq![name],
        call_crosses(session.max_body, credentials, xdr::string_bytes(errand.export).len()),
        call_crosses(
            session.max_body,
            credentials,
            procedure::create_args_bytes(session::root_handle(), name).len(),
        ),
    ensures
        fetchable(session, credentials, errand),
{
    let names = seq![name];
    let results = procedure::readdir_ok_bytes(names).len();
    assert(results <= 256) by {
        reveal_with_fuel(procedure::entries_bytes, 2);
        assert(procedure::entry_bytes(name, 0).len() <= 128);
        assert(procedure::entries_bytes(names).len() <= 128);
    }
    short_replies_cross(errand.max_body, results);
    let root = session::root_handle();
    let longest = procedure::create_args_bytes(root, name).len();
    let list = procedure::readdir_args_bytes(root, client::LISTING).len();
    let read = procedure::read_args_bytes(session::handle_of(name), 0, CHUNK as u32).len();
    shorter_calls_cross(session.max_body, credentials, list, longest);
    shorter_calls_cross(session.max_body, credentials, read, longest);
}

/// A Stream sent is a Stream received: of an export that was empty before,
/// what is received after is that Stream and no other, with exactly its
/// bytes.
pub proof fn sent_is_received(
    credentials: UnixView,
    errand: ErrandView,
    session: SessionView,
    name: Seq<char>,
    bytes: Seq<u8>,
)
    requires
        sendable(session.max_body, credentials, session.export, name, bytes),
        nameable(name),
        !procedure::is_dots(name),
        bytes.len() <= session.max_body <= usize::MAX,
        bytes.len() <= errand.max_body <= usize::MAX,
        errand.export == session.export,
        session.files == Map::<Seq<char>, Seq<u8>>::empty(),
    ensures
        ({
            let sent = run_sending(
                errand.max_body,
                exchange::sending(credentials, session.export, name, bytes),
                session,
                Seq::empty(),
                chunks(bytes.len()) + 4,
            );
            let after = sent->Done_1;
            let received = run_receiving(
                exchange::receiving(credentials, errand),
                after,
                Seq::empty(),
                all_messages(after.files, seq![name], errand.removes) + 3,
            );
            let origin_uri = arrived::origin_of(errand.server, errand.export, name);
            &&& sent is Done
            &&& received is Done
            &&& received->Done_0 == seq![ArrivedView { origin_uri, bytes }]
            &&& received->Done_1.files == (if errand.removes {
                Map::<Seq<char>, Seq<u8>>::empty()
            } else {
                after.files
            })
        }),
{
    sent_is_committed(credentials, session, errand.max_body, name, bytes);
    let files = session.files.insert(name, bytes);
    let after = SessionView { files, ..session };
    let names = seq![name];
    assert(files::lists(names, files)) by {
        assert forall|other: Seq<char>| #[trigger] files.dom().contains(other) <==> names.contains(
            other,
        ) by {
            assert(names[0] == name);
        }
    }
    files::listing_is(names, files);
    assert(procedure::without_dots(names) =~= names) by {
        reveal(Seq::filter);
        assert(names.drop_last() =~= Seq::empty());
    }
    one_file_is_fetchable(credentials, errand, after, name);
    everything_is_received(credentials, errand, after);
    assert(streams_of(errand, files, names) =~= seq![
        ArrivedView {
            origin_uri: arrived::origin_of(errand.server, errand.export, name),
            bytes,
        },
    ]);
    assert(left_of(files, names) =~= Map::<Seq<char>, Seq<u8>>::empty()) by {
        assert(names[0] == name);
    }
}

} // verus!
