//! The server's side of one connection: what a test puts at the far end,
//! and what a Receive Location that accepts writes directly runs.
//!
//! Not an NFS server. One session serves one client over one export kept
//! in memory: the mount program and the NFS program on the one port, a
//! root handle and a handle per file, and the seven procedures a Stream
//! takes. A file is handed up as a Stream when the client commits it (the
//! one call that says the writer is done) and served back to reads and
//! listings until it is removed. Credentials are taken as they come.
//!
//! A session takes each record the client sends and gives the reply to
//! send back; whoever holds the connection reads the one and writes the
//! other.

use vstd::prelude::*;
use vstd::slice::{slice_subrange, slice_to_vec};
#[allow(unused_imports)]
use vstd::utf8;

#[allow(unused_imports)]
use crate::arrived::{self, ArrivedView};
use crate::arrived::Arrived;
#[allow(unused_imports)]
use crate::error::Failure;
use crate::error::Result;
#[allow(unused_imports)]
use crate::files::{self, FilesView};
use crate::files::Files;
use crate::mount;
#[allow(unused_imports)]
use crate::procedure::Carried;
use crate::procedure::{self, Handle};
#[allow(unused_imports)]
use crate::rpc::{CallView, OutcomeView, ReplyView, UnixView};
use crate::rpc::{self, Call, Outcome, Reply};
use crate::status;
use crate::text;
#[allow(unused_imports)]
use crate::writer;
use crate::xdr;

verus! {

/// What the client did, as [`Session::next_event`] reports it.
#[derive(Clone, Debug, PartialEq, Eq)]
pub enum Event {
    /// The client mounted this path.
    Mounted(String),
    /// The client created this name.
    Created(String),
    /// The client wrote this many bytes at this offset of this name.
    Written(String, u64, usize),
    /// The client committed a file; here is the Stream.
    Committed(Arrived),
    /// The client read this name.
    Read(String),
    /// The client listed the export.
    Listed,
    /// The client removed this name.
    Removed(String),
    /// The client unmounted.
    Unmounted,
}

/// [`Event`] as a mathematical value.
pub enum EventView {
    Mounted(Seq<char>),
    Created(Seq<char>),
    Written(Seq<char>, u64, nat),
    Committed(ArrivedView),
    Read(Seq<char>),
    Listed,
    Removed(Seq<char>),
    Unmounted,
}

impl View for Event {
    type V = EventView;

    open spec fn view(&self) -> EventView {
        match *self {
            Event::Mounted(path) => EventView::Mounted(path@),
            Event::Created(name) => EventView::Created(name@),
            Event::Written(name, offset, count) => EventView::Written(
                name@,
                offset,
                count as nat,
            ),
            Event::Committed(arrived) => EventView::Committed(arrived@),
            Event::Read(name) => EventView::Read(name@),
            Event::Listed => EventView::Listed,
            Event::Removed(name) => EventView::Removed(name@),
            Event::Unmounted => EventView::Unmounted,
        }
    }
}

/// What the client did, where it did anything worth a word.
pub open spec fn event_view(event: Option<Event>) -> Option<EventView> {
    match event {
        Some(event) => Some(event@),
        None => None,
    }
}

/// The root of the export: one byte, the handle of no file but one named by a
/// single null character.
pub open spec fn root_handle() -> Seq<u8> {
    seq![0u8]
}

/// What every write and commit here is verified with: one server, one
/// incarnation.
pub const VERIFIER: [u8; 8] = [120, 109, 105, 112, 45, 110, 102, 115];

/// A file's handle: its name.
pub open spec fn handle_of(name: Seq<char>) -> Seq<u8> {
    utf8::encode_utf8(name)
}

/// The name a handle is; the root's is empty.
pub open spec fn name_in(handle: Seq<u8>) -> Seq<char> {
    if handle == root_handle() {
        Seq::empty()
    } else {
        text::text_of(handle)
    }
}

/// The root of the export.
fn root() -> (root: Handle)
    ensures
        root@ == root_handle(),
{
    let root = Handle(vec![0]);
    assert(root@ =~= root_handle());
    root
}

/// A file's handle: its name.
fn handle(name: &str) -> (handle: Handle)
    ensures
        handle@ == handle_of(name@),
{
    Handle(slice_to_vec(name.as_bytes()))
}

/// The name a handle is; the root's is empty.
fn name_of(handle: &Handle) -> (name: String)
    ensures
        name@ == name_in(handle@),
{
    if text::same_bytes(handle.0.as_slice(), root().0.as_slice()) {
        let name = String::new();
        assert(name@ =~= Seq::empty());
        name
    } else {
        text::from_utf8_lossy(handle.0.as_slice())
    }
}

/// One client's worth of server over one export in memory.
pub struct Session {
    peer: String,
    export: String,
    files: Files,
    max_body: usize,
}

/// [`Session`] as a mathematical value.
#[verifier::ext_equal]
pub struct SessionView {
    /// The client's address.
    pub peer: Seq<char>,
    /// The path of the one export.
    pub export: Seq<char>,
    /// What the export holds.
    pub files: FilesView,
    /// The most bytes a file may have.
    pub max_body: nat,
}

impl View for Session {
    type V = SessionView;

    closed spec fn view(&self) -> SessionView {
        SessionView {
            peer: self.peer@,
            export: self.export@,
            files: self.files@,
            max_body: self.max_body as nat,
        }
    }
}

/// What running a procedure comes to: the results, what the client did, and
/// what the export then holds.
pub struct Done {
    pub results: Seq<u8>,
    pub event: Option<EventView>,
    pub files: FilesView,
}

/// `bytes` with `data` put over them at `start`, zeros between where `start`
/// is past their end.
pub open spec fn overwritten(bytes: Seq<u8>, start: nat, data: Seq<u8>) -> Seq<u8> {
    let end = start + data.len();
    Seq::new(
        if bytes.len() < end {
            end
        } else {
            bytes.len()
        },
        |i: int|
            if start <= i < end {
                data[i - start]
            } else if i < bytes.len() {
                bytes[i]
            } else {
                0
            },
    )
}

/// What is read of `bytes`: up to `count` of them from `offset` on.
pub open spec fn slice_of(bytes: Seq<u8>, offset: nat, count: nat) -> Seq<u8> {
    let start = if offset < bytes.len() {
        offset
    } else {
        bytes.len()
    };
    let end = if start + count < bytes.len() {
        start + count
    } else {
        bytes.len()
    };
    bytes.subrange(start as int, end as int)
}

/// Nothing was done, for the reason `status`.
pub open spec fn refused(session: SessionView, status: u32, procedure: u32) -> Done {
    Done {
        results: procedure::failure_bytes(status, procedure),
        event: None,
        files: session.files,
    }
}

/// The mount program: the export's path, or an errno.
pub open spec fn mounted(session: SessionView, procedure: u32, arguments: Seq<u8>) -> Carried<
    Option<Done>,
> {
    match mount::parse_args(arguments) {
        Ok(path) => Ok(
            if procedure == procedure::NULL {
                Some(Done { results: Seq::empty(), event: None, files: session.files })
            } else if procedure == mount::MNT && path == session.export {
                Some(
                    Done {
                        results: mount::ok_bytes(root_handle()),
                        event: Some(EventView::Mounted(path)),
                        files: session.files,
                    },
                )
            } else if procedure == mount::MNT {
                Some(
                    Done {
                        results: writer::u32_bytes(status::ACCES),
                        event: None,
                        files: session.files,
                    },
                )
            } else if procedure == mount::UMNT {
                Some(
                    Done {
                        results: Seq::empty(),
                        event: Some(EventView::Unmounted),
                        files: session.files,
                    },
                )
            } else {
                None
            },
        ),
        Err(failure) => Err(failure),
    }
}

/// A `LOOKUP`: the file's handle, where there is such a file.
pub open spec fn looked_up(session: SessionView, name: Seq<char>) -> Done {
    if session.files.dom().contains(name) {
        Done {
            results: procedure::handle_ok_bytes(handle_of(name), procedure::LOOKUP),
            event: None,
            files: session.files,
        }
    } else {
        refused(session, status::NOENT, procedure::LOOKUP)
    }
}

/// A `CREATE`: an empty file, in place of the one of its name where there
/// is one.
pub open spec fn created(session: SessionView, name: Seq<char>) -> Done {
    Done {
        results: procedure::handle_ok_bytes(handle_of(name), procedure::CREATE),
        event: Some(EventView::Created(name)),
        files: session.files.insert(name, Seq::empty()),
    }
}

/// A `WRITE`: the bytes put over the file at the offset, where the file is
/// still there and stays within what is kept here.
pub open spec fn written(
    session: SessionView,
    file: Seq<u8>,
    offset: u64,
    data: Seq<u8>,
) -> Done {
    let name = name_in(file);
    if !session.files.dom().contains(name) {
        refused(session, status::STALE, procedure::WRITE)
    } else if offset + data.len() > session.max_body {
        refused(session, status::FBIG, procedure::WRITE)
    } else {
        Done {
            results: procedure::write_ok_bytes(xdr::count_of(data.len()), VERIFIER@),
            event: Some(EventView::Written(name, offset, data.len())),
            files: session.files.insert(
                name,
                overwritten(session.files[name], offset as nat, data),
            ),
        }
    }
}

/// A `COMMIT`: the file handed up as a Stream, where it is still there.
pub open spec fn committed(session: SessionView, file: Seq<u8>) -> Done {
    let name = name_in(file);
    if !session.files.dom().contains(name) {
        refused(session, status::STALE, procedure::COMMIT)
    } else {
        Done {
            results: procedure::commit_ok_bytes(VERIFIER@),
            event: Some(
                EventView::Committed(
                    ArrivedView {
                        origin_uri: arrived::origin_of(session.peer, session.export, name),
                        bytes: session.files[name],
                    },
                ),
            ),
            files: session.files,
        }
    }
}

/// A `READ`: the bytes asked for, as far as the file goes, and whether that
/// is its end.
pub open spec fn read(session: SessionView, file: Seq<u8>, offset: u64, count: u32) -> Done {
    let name = name_in(file);
    if !session.files.dom().contains(name) {
        refused(session, status::STALE, procedure::READ)
    } else {
        let bytes = session.files[name];
        Done {
            results: procedure::read_ok_bytes(
                slice_of(bytes, offset as nat, count as nat),
                offset + count >= bytes.len(),
            ),
            event: Some(EventView::Read(name)),
            files: session.files,
        }
    }
}

/// A `READDIR`: every name, in order.
pub open spec fn listed(session: SessionView) -> Done {
    Done {
        results: procedure::readdir_ok_bytes(files::listing(session.files)),
        event: Some(EventView::Listed),
        files: session.files,
    }
}

/// A `REMOVE`: the file taken away, where there is one.
pub open spec fn removed(session: SessionView, name: Seq<char>) -> Done {
    if session.files.dom().contains(name) {
        Done {
            results: procedure::remove_ok_bytes(),
            event: Some(EventView::Removed(name)),
            files: session.files.remove(name),
        }
    } else {
        refused(session, status::NOENT, procedure::REMOVE)
    }
}

/// The NFS program: each procedure over the files in memory.
pub open spec fn nfs_done(session: SessionView, procedure: u32, arguments: Seq<u8>) -> Carried<
    Option<Done>,
> {
    if procedure == procedure::NULL {
        Ok(Some(Done { results: Seq::empty(), event: None, files: session.files }))
    } else if procedure == procedure::LOOKUP {
        match procedure::parse_dir_args(arguments) {
            Ok((_, name)) => Ok(Some(looked_up(session, name))),
            Err(failure) => Err(failure),
        }
    } else if procedure == procedure::CREATE {
        match procedure::parse_dir_args(arguments) {
            Ok((_, name)) => Ok(Some(created(session, name))),
            Err(failure) => Err(failure),
        }
    } else if procedure == procedure::WRITE {
        match procedure::parse_write_args(arguments) {
            Ok((file, offset, data)) => Ok(Some(written(session, file, offset, data))),
            Err(failure) => Err(failure),
        }
    } else if procedure == procedure::COMMIT {
        match procedure::parse_first_handle(arguments) {
            Ok(file) => Ok(Some(committed(session, file))),
            Err(failure) => Err(failure),
        }
    } else if procedure == procedure::READ {
        match procedure::parse_read_args(arguments) {
            Ok((file, offset, count)) => Ok(Some(read(session, file, offset, count))),
            Err(failure) => Err(failure),
        }
    } else if procedure == procedure::READDIR {
        match procedure::parse_first_handle(arguments) {
            Ok(_) => Ok(Some(listed(session))),
            Err(failure) => Err(failure),
        }
    } else if procedure == procedure::REMOVE {
        match procedure::parse_dir_args(arguments) {
            Ok((_, name)) => Ok(Some(removed(session, name))),
            Err(failure) => Err(failure),
        }
    } else {
        Ok(None)
    }
}

/// How a call is answered: the outcome, what the client did, and what the
/// export then holds.
pub open spec fn answered(session: SessionView, call: CallView) -> (
    OutcomeView,
    Option<EventView>,
    FilesView,
) {
    let mount = call.program == rpc::MOUNT_PROGRAM;
    let nfs = call.program == rpc::NFS_PROGRAM;
    if !mount && !nfs {
        (OutcomeView::ProgramUnavailable, None, session.files)
    } else if mount && call.version != rpc::MOUNT_VERSION || nfs && call.version
        != rpc::NFS_VERSION {
        (OutcomeView::ProgramMismatch { low: 3, high: 3 }, None, session.files)
    } else {
        let done = if mount {
            mounted(session, call.procedure, call.arguments)
        } else {
            nfs_done(session, call.procedure, call.arguments)
        };
        match done {
            Ok(Some(done)) => (OutcomeView::Success(done.results), done.event, done.files),
            Ok(None) => (OutcomeView::ProcedureUnavailable, None, session.files),
            Err(_) => (OutcomeView::GarbageArguments, None, session.files),
        }
    }
}

/// What a record from the client comes to: the reply, what the client did,
/// and the session after it.
pub open spec fn replied(session: SessionView, record: Seq<u8>) -> Carried<
    (Seq<u8>, Option<EventView>, SessionView),
> {
    match rpc::parse_call(record) {
        Ok(call) => {
            let (outcome, event, files) = answered(session, call);
            Ok(
                (
                    rpc::reply_bytes(ReplyView { xid: call.xid, outcome }),
                    event,
                    SessionView { files, ..session },
                ),
            )
        },
        Err(failure) => Err(failure),
    }
}

/// What serving one record comes to.
pub enum Step<T> {
    /// The client closed.
    Closed,
    /// Send this reply; `found` is what was waited for, where this was it.
    Answer { reply: Vec<u8>, found: Option<T> },
}

/// That `results` and `event` are what running a procedure on a session came
/// to, and `now` the session after it.
spec fn is_done(
    done: Done,
    served: (Vec<u8>, Option<Event>),
    before: SessionView,
    now: SessionView,
) -> bool {
    &&& served.0@ == done.results
    &&& event_view(served.1) == done.event
    &&& now == SessionView { files: done.files, ..before }
}

impl Session {
    /// Accept the client at `peer`, serving `export`, empty as yet, in files
    /// of at most `max_body` bytes.
    pub fn accept(peer: &str, export: &str, max_body: usize) -> (session: Self)
        ensures
            session@ == (SessionView {
                peer: peer@,
                export: export@,
                files: Map::empty(),
                max_body: max_body as nat,
            }),
    {
        Session { peer: peer.to_owned(), export: export.to_owned(), files: Files::new(), max_body }
    }

    /// Serve these files to lookups, reads and listings.
    #[must_use]
    pub fn with_files(self, files: Files) -> (session: Self)
        ensures
            session@ == (SessionView { files: files@, ..self@ }),
    {
        Session { peer: self.peer, export: self.export, files, max_body: self.max_body }
    }

    /// What the export holds now, commits included.
    #[must_use]
    pub fn files(&self) -> (files: &Files)
        ensures
            files@ == self@.files,
    {
        &self.files
    }

    fn write(&mut self, file: &Handle, offset: u64, data: &[u8]) -> (served: (
        Vec<u8>,
        Option<Event>,
    ))
        ensures
            is_done(written(old(self)@, file@, offset, data@), served, old(self)@, final(self)@),
    {
        let name = name_of(file);
        let Some(bytes) = self.files.remove(name.as_str()) else {
            assert(self@.files =~= old(self)@.files);
            return (procedure::put_failure(status::STALE, procedure::WRITE), None);
        };
        if offset > self.max_body as u64 || data.len() > self.max_body - offset as usize {
            self.files.insert(name, bytes);
            assert(self@.files =~= old(self)@.files);
            return (procedure::put_failure(status::FBIG, procedure::WRITE), None);
        }
        let ghost before = bytes@;
        let bytes = overwrite(bytes, offset as usize, data);
        self.files.insert(name.clone(), bytes);
        assert(self@.files =~= old(self)@.files.insert(
            name@,
            overwritten(before, offset as nat, data@),
        ));
        (
            procedure::write_ok(xdr::count(data.len()), VERIFIER),
            Some(Event::Written(name, offset, data.len())),
        )
    }

    fn commit(&self, file: &Handle) -> (served: (Vec<u8>, Option<Event>))
        ensures
            is_done(committed(self@, file@), served, self@, self@),
    {
        let name = name_of(file);
        match self.files.get(name.as_str()) {
            Some(bytes) => {
                let origin = arrived::origin(
                    self.peer.as_str(),
                    self.export.as_str(),
                    name.as_str(),
                );
                let whole = slice_to_vec(bytes.as_slice());
                (
                    procedure::commit_ok(VERIFIER),
                    Some(Event::Committed(Arrived::new(origin, whole))),
                )
            },
            None => (procedure::put_failure(status::STALE, procedure::COMMIT), None),
        }
    }

    fn read(&self, file: &Handle, offset: u64, count: u32) -> (served: (Vec<u8>, Option<Event>))
        ensures
            is_done(read(self@, file@, offset, count), served, self@, self@),
    {
        let name = name_of(file);
        let Some(bytes) = self.files.get(name.as_str()) else {
            return (procedure::put_failure(status::STALE, procedure::READ), None);
        };
        let start = if offset < bytes.len() as u64 {
            offset as usize
        } else {
            bytes.len()
        };
        let end = if (count as usize) < bytes.len() - start {
            start + count as usize
        } else {
            bytes.len()
        };
        let eof = end == bytes.len();
        (
            procedure::read_ok(slice_subrange(bytes.as_slice(), start, end), eof),
            Some(Event::Read(name)),
        )
    }

    /// The mount program: the export's path, or an errno.
    fn mount(&self, call: &Call) -> (served: Result<Option<(Vec<u8>, Option<Event>)>>)
        ensures
            match mounted(self@, call.procedure, call.arguments@) {
                Ok(Some(done)) => served is Ok && served->Ok_0 is Some && is_done(
                    done,
                    served->Ok_0->Some_0,
                    self@,
                    self@,
                ),
                Ok(None) => served is Ok && served->Ok_0 is None,
                Err(failure) => served is Err && served->Err_0@ == failure,
            },
    {
        let path = mount::take_args(call.arguments.as_slice())?;
        Ok(
            match call.procedure {
                procedure::NULL => Some((Vec::new(), None)),
                mount::MNT => if text::same_text(path.as_str(), self.export.as_str()) {
                    Some((mount::ok(&root()), Some(Event::Mounted(path))))
                } else {
                    Some((mount::failure(status::ACCES), None))
                },
                mount::UMNT => Some((Vec::new(), Some(Event::Unmounted))),
                _ => None,
            },
        )
    }

    /// The NFS program: each procedure over the files in memory.
    fn nfs(&mut self, call: &Call) -> (served: Result<Option<(Vec<u8>, Option<Event>)>>)
        ensures
            match nfs_done(old(self)@, call.procedure, call.arguments@) {
                Ok(Some(done)) => served is Ok && served->Ok_0 is Some && is_done(
                    done,
                    served->Ok_0->Some_0,
                    old(self)@,
                    final(self)@,
                ),
                Ok(None) => served is Ok && served->Ok_0 is None && final(self)@ == old(self)@,
                Err(failure) => served is Err && served->Err_0@ == failure && final(self)@ == old(
                    self,
                )@,
            },
            final(self)@ == (SessionView { files: final(self)@.files, ..old(self)@ }),
            !alters(call.procedure) || served is Err || served->Ok_0 is None ==> final(self)@.files
                == old(self)@.files,
            forall|name: Seq<char>|
                named_by(call.procedure, call.arguments@) != Some(name) ==> #[trigger] same_file(
                    old(self)@.files,
                    final(self)@.files,
                    name,
                ),
    {
        proof {
            assert forall|name: Seq<char>|
                named_by(call.procedure, call.arguments@) != Some(
                    name,
                ) implies #[trigger] same_file(
                old(self)@.files,
                files_after(old(self)@, call.procedure, call.arguments@),
                name,
            ) by {
                procedures_change_what_they_name(
                    old(self)@,
                    call.procedure,
                    call.arguments@,
                    name,
                );
            }
        }
        let arguments = call.arguments.as_slice();
        let served = match call.procedure {
            procedure::NULL => (Vec::new(), None),
            procedure::LOOKUP => {
                let (_, name) = procedure::take_dir_args(arguments)?;
                if self.files.contains(name.as_str()) {
                    (procedure::handle_ok(&handle(name.as_str()), procedure::LOOKUP), None)
                } else {
                    (procedure::put_failure(status::NOENT, procedure::LOOKUP), None)
                }
            },
            procedure::CREATE => {
                let (_, name) = procedure::take_dir_args(arguments)?;
                let nothing: Vec<u8> = Vec::new();
                assert(nothing@ =~= Seq::empty());
                self.files.insert(name.clone(), nothing);
                let results = procedure::handle_ok(&handle(name.as_str()), procedure::CREATE);
                (results, Some(Event::Created(name)))
            },
            procedure::WRITE => {
                let (file, offset, data) = procedure::take_write_args(arguments)?;
                self.write(&file, offset, data.as_slice())
            },
            procedure::COMMIT => {
                let file = procedure::take_commit_args(arguments)?;
                self.commit(&file)
            },
            procedure::READ => {
                let (file, offset, count) = procedure::take_read_args(arguments)?;
                self.read(&file, offset, count)
            },
            procedure::READDIR => {
                procedure::take_readdir_args(arguments)?;
                let names = self.files.names();
                (procedure::readdir_ok(names.as_slice()), Some(Event::Listed))
            },
            procedure::REMOVE => {
                let (_, name) = procedure::take_dir_args(arguments)?;
                if self.files.remove(name.as_str()).is_some() {
                    (procedure::remove_ok(), Some(Event::Removed(name)))
                } else {
                    assert(self@.files =~= old(self)@.files);
                    (procedure::put_failure(status::NOENT, procedure::REMOVE), None)
                }
            },
            _ => {
                return Ok(None);
            },
        };
        Ok(Some(served))
    }

    /// How a call is answered, and what the client did by it.
    pub fn answer(&mut self, call: &Call) -> (reply: (Outcome, Option<Event>))
        ensures
            answered(old(self)@, call@) == (
                reply.0@,
                event_view(reply.1),
                final(self)@.files,
            ),
            final(self)@ == (SessionView { files: final(self)@.files, ..old(self)@ }),
    {
        let served = match (call.program, call.version) {
            (rpc::MOUNT_PROGRAM, rpc::MOUNT_VERSION) => self.mount(call),
            (rpc::NFS_PROGRAM, rpc::NFS_VERSION) => self.nfs(call),
            (rpc::MOUNT_PROGRAM, _) | (rpc::NFS_PROGRAM, _) => {
                return (Outcome::ProgramMismatch { low: 3, high: 3 }, None);
            },
            _ => {
                return (Outcome::ProgramUnavailable, None);
            },
        };
        match served {
            Ok(Some((results, event))) => (Outcome::Success(results), event),
            Ok(None) => (Outcome::ProcedureUnavailable, None),
            Err(_) => (Outcome::GarbageArguments, None),
        }
    }

    /// Serve the next record, or `None` where the client closed: the reply
    /// to send, and what the client did with the export by it. A lookup is
    /// answered and no event.
    ///
    /// # Errors
    /// Where the record is not a call.
    pub fn next_event(&mut self, record: Option<&[u8]>) -> (step: Result<Step<Event>>)
        ensures
            record is None ==> step is Ok && step->Ok_0 is Closed && final(self)@ == old(self)@,
            record is Some ==> match replied(old(self)@, record->Some_0@) {
                Ok((message, event, session)) => step is Ok && final(self)@ == session
                    && step->Ok_0 is Answer && step->Ok_0->reply@ == message && event_view(
                    step->Ok_0->found,
                ) == event,
                Err(failure) => step is Err && step->Err_0@ == failure && final(self)@ == old(
                    self,
                )@,
            },
    {
        let Some(record) = record else {
            return Ok(Step::Closed);
        };
        let call = Call::from_bytes(record)?;
        let (outcome, found) = self.answer(&call);
        let reply = Reply { xid: call.xid, outcome };
        Ok(Step::Answer { reply: reply.to_bytes(), found })
    }

    /// Serve the next record, or `None` where the client closed: the reply
    /// to send, and the file the client committed by it, if it did.
    ///
    /// # Errors
    /// Where the record is not a call.
    pub fn next_store(&mut self, record: Option<&[u8]>) -> (step: Result<Step<Arrived>>)
        ensures
            record is None ==> step is Ok && step->Ok_0 is Closed && final(self)@ == old(self)@,
            record is Some ==> match replied(old(self)@, record->Some_0@) {
                Ok((message, event, session)) => step is Ok && final(self)@ == session
                    && step->Ok_0 is Answer && step->Ok_0->reply@ == message && match event {
                    Some(EventView::Committed(arrived)) => step->Ok_0->found is Some
                        && step->Ok_0->found->Some_0@ == arrived,
                    _ => step->Ok_0->found is None,
                },
                Err(failure) => step is Err && step->Err_0@ == failure && final(self)@ == old(
                    self,
                )@,
            },
    {
        match self.next_event(record)? {
            Step::Closed => Ok(Step::Closed),
            Step::Answer { reply, found: Some(Event::Committed(arrived)) } => Ok(
                Step::Answer { reply, found: Some(arrived) },
            ),
            Step::Answer { reply, found: _ } => Ok(Step::Answer { reply, found: None }),
        }
    }
}

/// `bytes` with `data` put over them at `start`.
fn overwrite(bytes: Vec<u8>, start: usize, data: &[u8]) -> (over: Vec<u8>)
    requires
        start + data@.len() <= usize::MAX,
    ensures
        over@ == overwritten(bytes@, start as nat, data@),
{
    let mut over = bytes;
    let end = start + data.len();
    if over.len() < end {
        over.resize(end, 0);
    }
    let ghost grown = over@;
    let mut put: usize = 0;
    while put < data.len()
        invariant
            put <= data@.len(),
            end == start + data@.len(),
            grown.len() >= end,
            over@.len() == grown.len(),
            forall|i: int|
                0 <= i < grown.len() ==> #[trigger] over@[i] == (if start <= i < start + put {
                    data@[i - start]
                } else {
                    grown[i]
                }),
        decreases data@.len() - put,
    {
        over.set(start + put, data[put]);
        put += 1;
    }
    assert(over@ =~= overwritten(bytes@, start as nat, data@));
    over
}

/// Credentials are taken as they come, and so is the transaction id: how a
/// call is answered depends on neither.
pub proof fn credentials_are_taken_as_they_come(
    session: SessionView,
    call: CallView,
    xid: u32,
    credentials: Option<UnixView>,
)
    ensures
        answered(session, CallView { xid, credentials, ..call }) == answered(session, call),
{
}

/// Every call is replied to, under its own transaction id, with how it was
/// answered.
pub proof fn calls_are_replied_to(session: SessionView, call: CallView, credentials: UnixView)
    requires
        rpc::unix_bytes(credentials).len() <= u32::MAX,
    ensures
        ({
            let (outcome, event, files) = answered(session, call);
            replied(session, rpc::call_bytes(call, credentials)) == Ok::<_, Failure>(
                (
                    rpc::reply_bytes(ReplyView { xid: call.xid, outcome }),
                    event,
                    SessionView { files, ..session },
                ),
            )
        }),
{
    let message = rpc::call_bytes(call, credentials);
    let read = CallView { credentials: Some(credentials), ..call };
    assert(rpc::parse_call(message) == Ok::<_, Failure>(read)) by {
        rpc::call_reads_back(call, credentials);
    }
    assert(answered(session, read) == answered(session, call)) by {
        credentials_are_taken_as_they_come(session, call, call.xid, Some(credentials));
    }
}

/// The handle of a file is the root's only where the file is named by a
/// single null character.
pub proof fn only_null_is_the_root(name: Seq<char>)
    ensures
        handle_of(name) == root_handle() <==> name == seq!['\0'],
{
    let null = seq!['\0'];
    utf8::is_ascii_chars_encode_utf8(null);
    assert(null[0] as u8 == handle_of(null)[0]);
    assert(handle_of(null) =~= root_handle());
    if handle_of(name) == root_handle() {
        text::encodings_differ(name, null);
    }
}

/// The name of a file's handle is the file's.
pub proof fn handles_name_files(name: Seq<char>)
    requires
        name != seq!['\0'],
    ensures
        name_in(handle_of(name)) == name,
{
    only_null_is_the_root(name);
    text::text_reads_back(name);
}

/// What is not run is not told, and changes nothing.
pub proof fn unserved_calls_change_nothing(session: SessionView, call: CallView)
    ensures
        !(answered(session, call).0 is Success) ==> answered(session, call).1 is None && answered(
            session,
            call,
        ).2 == session.files,
{
}

/// The name of the file that what was told changed, where it changed one.
pub open spec fn changed(event: Option<EventView>) -> Option<Seq<char>> {
    match event {
        Some(EventView::Created(name)) => Some(name),
        Some(EventView::Written(name, _, _)) => Some(name),
        Some(EventView::Removed(name)) => Some(name),
        _ => None,
    }
}

/// What a call changes is told: every file but the one that was told created,
/// written or removed is there if it was, and holds what it held.
pub proof fn changes_are_told(session: SessionView, call: CallView, name: Seq<char>)
    requires
        changed(answered(session, call).1) != Some(name),
    ensures
        ({
            let after = answered(session, call).2;
            &&& after.dom().contains(name) <==> session.files.dom().contains(name)
            &&& session.files.dom().contains(name) ==> after[name] == session.files[name]
        }),
{
}

/// A call that nothing is told of changes nothing, and so does a mount, an
/// unmount, a read, a listing and a commit.
pub proof fn asking_changes_nothing(session: SessionView, call: CallView)
    requires
        changed(answered(session, call).1) is None,
    ensures
        answered(session, call).2 == session.files,
{
}

/// Whether a procedure of the NFS program may change a file.
pub open spec fn alters(procedure: u32) -> bool {
    procedure == procedure::WRITE || procedure == procedure::CREATE || procedure
        == procedure::REMOVE
}

/// The file that a procedure which may change one names, where its arguments
/// can be read.
pub open spec fn named_by(procedure: u32, arguments: Seq<u8>) -> Option<Seq<char>> {
    if procedure == procedure::WRITE {
        match procedure::parse_write_args(arguments) {
            Ok((file, _, _)) => Some(name_in(file)),
            Err(_) => None,
        }
    } else if procedure == procedure::CREATE || procedure == procedure::REMOVE {
        match procedure::parse_dir_args(arguments) {
            Ok((_, name)) => Some(name),
            Err(_) => None,
        }
    } else {
        None
    }
}

/// What the export holds after a procedure of the NFS program.
pub open spec fn files_after(
    session: SessionView,
    procedure: u32,
    arguments: Seq<u8>,
) -> FilesView {
    match nfs_done(session, procedure, arguments) {
        Ok(Some(done)) => done.files,
        _ => session.files,
    }
}

/// Whether the file of this name is in both or in neither, and holds the same
/// in both.
pub open spec fn same_file(one: FilesView, other: FilesView, name: Seq<char>) -> bool {
    &&& one.dom().contains(name) <==> other.dom().contains(name)
    &&& one.dom().contains(name) ==> one[name] == other[name]
}

/// A procedure of the NFS program changes no file but the one it names, and
/// none at all where it is no write, create or remove, where there is no such
/// procedure, or where its arguments cannot be read.
pub proof fn procedures_change_what_they_name(
    session: SessionView,
    procedure: u32,
    arguments: Seq<u8>,
    name: Seq<char>,
)
    ensures
        !alters(procedure) || nfs_done(session, procedure, arguments) is Err || nfs_done(
            session,
            procedure,
            arguments,
        )->Ok_0 is None ==> files_after(session, procedure, arguments) == session.files,
        named_by(procedure, arguments) != Some(name) ==> same_file(
            session.files,
            files_after(session, procedure, arguments),
            name,
        ),
{
}

/// A file is handed up by a commit and by no other call, as it is.
pub proof fn only_commits_hand_up(session: SessionView, call: CallView, arrived: ArrivedView)
    requires
        answered(session, call).1 == Some(EventView::Committed(arrived)),
    ensures
        call.program == rpc::NFS_PROGRAM,
        call.procedure == procedure::COMMIT,
        exists|name: Seq<char>| #[trigger]
            session.files.dom().contains(name) && arrived == (ArrivedView {
                origin_uri: arrived::origin_of(session.peer, session.export, name),
                bytes: session.files[name],
            }),
{
    let name = name_in(procedure::parse_first_handle(call.arguments)->Ok_0);
    assert(session.files.dom().contains(name));
}

/// Whether no file is longer than is kept.
pub open spec fn within_bounds(files: FilesView, max_body: nat) -> bool {
    forall|name: Seq<char>| #[trigger] files.dom().contains(name) ==> files[name].len() <= max_body
}

/// No call makes a file longer than is kept.
pub proof fn files_stay_within_bounds(session: SessionView, call: CallView)
    requires
        within_bounds(session.files, session.max_body),
    ensures
        within_bounds(answered(session, call).2, session.max_body),
{
    let after = answered(session, call).2;
    assert forall|name: Seq<char>| #[trigger] after.dom().contains(name) implies after[name].len()
        <= session.max_body by {
        assert(session.files.dom().contains(name) ==> session.files[name].len()
            <= session.max_body);
    }
}

/// What is written is what is then read there, and what stood elsewhere in
/// the file stays.
pub proof fn writes_are_read(bytes: Seq<u8>, start: nat, data: Seq<u8>)
    ensures
        slice_of(overwritten(bytes, start, data), start, data.len()) == data,
        forall|i: int|
            0 <= i < bytes.len() && !(start <= i < start + data.len())
                ==> #[trigger] overwritten(bytes, start, data)[i] == bytes[i],
        forall|i: int|
            bytes.len() <= i < start ==> #[trigger] overwritten(bytes, start, data)[i] == 0,
{
    assert(slice_of(overwritten(bytes, start, data), start, data.len()) =~= data);
}

} // verus!
