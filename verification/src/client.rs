//! Xmip's side of one connection to an NFS server: mount an export, look
//! up, create, write, commit, read, list and remove, each one RPC call and
//! its reply, on one TCP connection that carries the mount program and the
//! NFS program alike.
//!
//! A [`Client`] makes each call as a message to send, and what is
//! [`Pending`] then takes the record that comes back; whoever holds the
//! connection sends the one and reads the other. Writing and reading a whole
//! file are several calls: an [`Upload`] and a [`Download`] say which is
//! next.
//!
//! A server that keeps its mount daemon on another port answers the `MNT`
//! with a program-unavailable, and this client says so; the portmapper that
//! would find it is not spoken here.

use vstd::prelude::*;
use vstd::slice::slice_subrange;

#[allow(unused_imports)]
use crate::error::{self, Failure};
use crate::error::{protocol_error, Result, TransportError};
use crate::mount;
#[allow(unused_imports)]
use crate::procedure::Carried;
use crate::procedure::{self, Handle};
#[allow(unused_imports)]
use crate::rpc::{CallView, OutcomeView, ReplyView, UnixView};
use crate::rpc::{self, Call, Reply, Unix};
use crate::text;
#[allow(unused_imports)]
use crate::xdr;

verus! {

/// The largest read or write in one call: what every server since
/// version 3 accepts without being asked through `FSINFO`.
pub const CHUNK: usize = 65_536;

/// The bytes a listing asks for at once, the whole of any drop directory.
pub const LISTING: u32 = 1_048_576;

/// The most bytes of a record that is read where files are of `max_body`
/// bytes at most: those, and one call's worth beside them.
pub open spec fn limit_of(max_body: nat) -> nat {
    if max_body + CHUNK <= usize::MAX {
        max_body + CHUNK as nat
    } else {
        usize::MAX as nat
    }
}

/// The most bytes of a record that is read where files are of `max_body`
/// bytes at most: those, and one call's worth beside them.
pub fn record_limit(max_body: usize) -> (limit: usize)
    ensures
        limit == limit_of(max_body as nat),
{
    if max_body <= usize::MAX - CHUNK {
        max_body + CHUNK
    } else {
        usize::MAX
    }
}

/// What makes calls: who they are from, and the id of the next.
pub struct Client {
    credentials: Unix,
    next_xid: u32,
}

/// [`Client`] as a mathematical value.
pub struct ClientView {
    pub credentials: UnixView,
    pub next_xid: u32,
}

impl View for Client {
    type V = ClientView;

    closed spec fn view(&self) -> ClientView {
        ClientView { credentials: self.credentials@, next_xid: self.next_xid }
    }
}

/// A call that was made and not yet answered.
pub struct Pending {
    xid: u32,
    message: Vec<u8>,
}

/// [`Pending`] as a mathematical value.
pub struct PendingView {
    /// The id the reply has to have.
    pub xid: u32,
    /// The call message.
    pub message: Seq<u8>,
}

impl View for Pending {
    type V = PendingView;

    closed spec fn view(&self) -> PendingView {
        PendingView { xid: self.xid, message: self.message@ }
    }
}

/// The id after `xid`, round to zero past the last.
pub open spec fn xid_after(xid: u32) -> u32 {
    if xid == u32::MAX {
        0
    } else {
        (xid + 1) as u32
    }
}

/// The client after making a call.
pub open spec fn moved_on(client: ClientView) -> ClientView {
    ClientView { next_xid: xid_after(client.next_xid), ..client }
}

/// The call a client makes of a procedure.
pub open spec fn call_made(
    client: ClientView,
    program: u32,
    version: u32,
    procedure: u32,
    arguments: Seq<u8>,
) -> CallView {
    CallView { xid: client.next_xid, program, version, procedure, credentials: None, arguments }
}

/// A call a client makes, pending.
#[verifier::opaque]
pub open spec fn asked(
    client: ClientView,
    program: u32,
    version: u32,
    procedure: u32,
    arguments: Seq<u8>,
) -> PendingView {
    PendingView {
        xid: client.next_xid,
        message: rpc::call_bytes(
            call_made(client, program, version, procedure, arguments),
            client.credentials,
        ),
    }
}

/// A call of the mount program, pending.
pub open spec fn mount_asked(
    client: ClientView,
    procedure: u32,
    arguments: Seq<u8>,
) -> PendingView {
    asked(client, rpc::MOUNT_PROGRAM, rpc::MOUNT_VERSION, procedure, arguments)
}

/// A call of the NFS program, pending.
pub open spec fn nfs_asked(client: ClientView, procedure: u32, arguments: Seq<u8>) -> PendingView {
    asked(client, rpc::NFS_PROGRAM, rpc::NFS_VERSION, procedure, arguments)
}

/// The results a record brings the call of id `xid`, where it is a reply to
/// that call and the call was run; `None` is a server that closed.
pub open spec fn awaited(xid: u32, record: Option<Seq<u8>>) -> Carried<Seq<u8>> {
    match record {
        None => Err(error::permanent_failure("the server closed before replying"@)),
        Some(record) => match rpc::parse_reply(record) {
            Ok(reply) => if reply.xid != xid {
                Err(
                    error::permanent_failure(
                        "a reply to call "@ + text::decimal(reply.xid as nat) + " where "@
                            + text::decimal(xid as nat) + " was awaited"@,
                    ),
                )
            } else {
                rpc::results_of(reply.outcome)
            },
            Err(failure) => Err(failure),
        },
    }
}

/// What a record says, where there is one.
pub open spec fn record_view(record: Option<&[u8]>) -> Option<Seq<u8>> {
    match record {
        Some(bytes) => Some(bytes@),
        None => None,
    }
}

impl Pending {
    /// The call message, to send as one record.
    pub fn message(&self) -> (message: &[u8])
        ensures
            message@ == self@.message,
    {
        self.message.as_slice()
    }

    /// The results that the next record off the connection brings, or
    /// `None` where the server closed: a reply, matched by transaction id.
    ///
    /// # Errors
    /// Where the server closed, the record is not the reply to this call, or
    /// the call was not run.
    pub fn results(&self, record: Option<&[u8]>) -> (results: Result<Vec<u8>>)
        ensures
            match awaited(self@.xid, record_view(record)) {
                Ok(bytes) => results is Ok && results->Ok_0@ == bytes,
                Err(failure) => results is Err && results->Err_0@ == failure,
            },
    {
        let Some(record) = record else {
            return Err(protocol_error("the server closed before replying"));
        };
        let reply = Reply::from_bytes(record)?;
        if reply.xid != self.xid {
            let mut message = "a reply to call ".to_owned();
            message.append(text::number(reply.xid as u64).as_str());
            message.append(" where ");
            message.append(text::number(self.xid as u64).as_str());
            message.append(" was awaited");
            return Err(TransportError::permanent(message));
        }
        reply.results()
    }

    /// The root handle that the reply to a [`Client::mount`] hands out.
    ///
    /// # Errors
    /// Where the server refused the mount or does not serve it here.
    pub fn mounted(&self, record: Option<&[u8]>) -> (root: Result<Handle>)
        ensures
            match awaited(self@.xid, record_view(record)) {
                Ok(results) => match mount::parse_root(results) {
                    Ok(handle) => root is Ok && root->Ok_0@ == handle,
                    Err(failure) => root is Err && root->Err_0@ == failure,
                },
                Err(failure) => root is Err && root->Err_0@ == failure,
            },
    {
        mount::take(self.results(record)?.as_slice())
    }

    /// That the reply to a [`Client::unmount`] came.
    ///
    /// # Errors
    /// Where the connection broke.
    pub fn unmounted(&self, record: Option<&[u8]>) -> (done: Result<()>)
        ensures
            match awaited(self@.xid, record_view(record)) {
                Ok(_) => done is Ok,
                Err(failure) => done is Err && done->Err_0@ == failure,
            },
    {
        self.results(record)?;
        Ok(())
    }

    /// The handle that the reply to a [`Client::lookup`] gives.
    ///
    /// # Errors
    /// Where there is no such name.
    pub fn found(&self, record: Option<&[u8]>) -> (file: Result<Handle>)
        ensures
            match awaited(self@.xid, record_view(record)) {
                Ok(results) => match procedure::parse_handle(results, procedure::LOOKUP) {
                    Ok(handle) => file is Ok && file->Ok_0@ == handle,
                    Err(failure) => file is Err && file->Err_0@ == failure,
                },
                Err(failure) => file is Err && file->Err_0@ == failure,
            },
    {
        procedure::take_handle(self.results(record)?.as_slice(), procedure::LOOKUP)
    }

    /// The handle that the reply to a [`Client::create`] gives.
    ///
    /// # Errors
    /// Where the server refused.
    pub fn created(&self, record: Option<&[u8]>) -> (file: Result<Handle>)
        ensures
            match awaited(self@.xid, record_view(record)) {
                Ok(results) => match procedure::parse_handle(results, procedure::CREATE) {
                    Ok(handle) => file is Ok && file->Ok_0@ == handle,
                    Err(failure) => file is Err && file->Err_0@ == failure,
                },
                Err(failure) => file is Err && file->Err_0@ == failure,
            },
    {
        procedure::take_handle(self.results(record)?.as_slice(), procedure::CREATE)
    }

    /// The names that the reply to a [`Client::list`] gives, in the server's
    /// order.
    ///
    /// # Errors
    /// Where the server refused.
    pub fn listed(&self, record: Option<&[u8]>) -> (names: Result<Vec<String>>)
        ensures
            match awaited(self@.xid, record_view(record)) {
                Ok(results) => match procedure::parse_readdir(results) {
                    Ok(list) => names is Ok && procedure::texts(names->Ok_0@) == list,
                    Err(failure) => names is Err && names->Err_0@ == failure,
                },
                Err(failure) => names is Err && names->Err_0@ == failure,
            },
    {
        procedure::take_readdir(self.results(record)?.as_slice())
    }

    /// That the reply to a [`Client::remove`] says it was done.
    ///
    /// # Errors
    /// Where there is no such name or the server refused.
    pub fn removed(&self, record: Option<&[u8]>) -> (done: Result<()>)
        ensures
            match awaited(self@.xid, record_view(record)) {
                Ok(results) => match procedure::parse_done(results, "removing"@) {
                    Ok(_) => done is Ok,
                    Err(failure) => done is Err && done->Err_0@ == failure,
                },
                Err(failure) => done is Err && done->Err_0@ == failure,
            },
    {
        procedure::take_done(self.results(record)?.as_slice(), "removing")
    }
}

/// A file being written from the start, a chunk per call, and then
/// committed.
pub struct Upload<'a> {
    file: Handle,
    bytes: &'a [u8],
    offset: usize,
}

/// [`Upload`] as a mathematical value.
pub struct UploadView {
    /// The file's handle.
    pub file: Seq<u8>,
    /// What the file is to hold.
    pub bytes: Seq<u8>,
    /// How much of it the server has said it wrote.
    pub offset: nat,
}

impl<'a> View for Upload<'a> {
    type V = UploadView;

    closed spec fn view(&self) -> UploadView {
        UploadView { file: self.file@, bytes: self.bytes@, offset: self.offset as nat }
    }
}

/// The bytes the next write of an upload carries: a chunk, or what is left.
pub open spec fn chunk_of(upload: UploadView) -> Seq<u8> {
    let end = if upload.offset + CHUNK < upload.bytes.len() {
        upload.offset + CHUNK
    } else {
        upload.bytes.len() as int
    };
    upload.bytes.subrange(upload.offset as int, end)
}

/// The next call of an upload: a write while any bytes are left, then the
/// commit.
pub open spec fn upload_asked(client: ClientView, upload: UploadView) -> PendingView {
    if upload.offset < upload.bytes.len() {
        nfs_asked(
            client,
            procedure::WRITE,
            procedure::write_args_bytes(upload.file, upload.offset as u64, chunk_of(upload)),
        )
    } else {
        nfs_asked(client, procedure::COMMIT, procedure::commit_args_bytes(upload.file))
    }
}

/// Where the results of its pending call leave an upload; `None` where the
/// file is committed.
pub open spec fn upload_after(upload: UploadView, results: Seq<u8>) -> Carried<
    Option<UploadView>,
> {
    if upload.offset < upload.bytes.len() {
        let sent = chunk_of(upload).len();
        match procedure::parse_write(results) {
            Ok(written) => if written == sent {
                Ok(Some(UploadView { offset: upload.offset + sent, ..upload }))
            } else {
                Err(
                    error::permanent_failure(
                        "the server wrote "@ + text::decimal(written as nat) + " of "@
                            + text::decimal(sent) + " bytes"@,
                    ),
                )
            },
            Err(failure) => Err(failure),
        }
    } else {
        match procedure::parse_done(results, "committing"@) {
            Ok(_) => Ok(None),
            Err(failure) => Err(failure),
        }
    }
}

impl<'a> Upload<'a> {
    #[verifier::type_invariant]
    spec fn well_formed(self) -> bool {
        self.offset <= self.bytes@.len()
    }

    /// How many bytes the next write carries.
    fn chunk(&self) -> (count: usize)
        ensures
            count == chunk_of(self@).len(),
            count <= CHUNK,
            self.offset + count <= self.bytes@.len(),
    {
        proof {
            use_type_invariant(self);
        }
        let left = self.bytes.len() - self.offset;
        if left > CHUNK {
            CHUNK
        } else {
            left
        }
    }

    fn ask(&self, client: &mut Client) -> (pending: Pending)
        ensures
            pending@ == upload_asked(old(client)@, self@),
            final(client)@ == moved_on(old(client)@),
    {
        proof {
            use_type_invariant(self);
        }
        if self.offset < self.bytes.len() {
            let chunk = slice_subrange(self.bytes, self.offset, self.offset + self.chunk());
            client.nfs_call(
                procedure::WRITE,
                procedure::write_args(&self.file, self.offset as u64, chunk),
            )
        } else {
            client.nfs_call(procedure::COMMIT, procedure::commit_args(&self.file))
        }
    }

    /// Take the results of the pending call: the next, or `None` where the
    /// file is committed.
    ///
    /// # Errors
    /// Where the server refused or wrote short.
    pub fn advance(&mut self, client: &mut Client, results: &[u8]) -> (next: Result<
        Option<Pending>,
    >)
        ensures
            match upload_after(old(self)@, results@) {
                Ok(Some(upload)) => next is Ok && next->Ok_0 is Some && final(self)@ == upload
                    && next->Ok_0->Some_0@ == upload_asked(old(client)@, upload) && final(client)@
                    == moved_on(old(client)@),
                Ok(None) => next is Ok && next->Ok_0 is None && final(self)@ == old(self)@
                    && final(client)@ == old(client)@,
                Err(failure) => next is Err && next->Err_0@ == failure && final(self)@ == old(
                    self,
                )@ && final(client)@ == old(client)@,
            },
    {
        proof {
            use_type_invariant(&*self);
        }
        if self.offset < self.bytes.len() {
            let sent = self.chunk();
            let written = procedure::take_write(results)? as usize;
            if written != sent {
                let mut message = "the server wrote ".to_owned();
                message.append(text::number(written as u64).as_str());
                message.append(" of ");
                message.append(text::number(sent as u64).as_str());
                message.append(" bytes");
                return Err(TransportError::permanent(message));
            }
            self.offset = self.offset + sent;
            Ok(Some(self.ask(client)))
        } else {
            procedure::take_done(results, "committing")?;
            Ok(None)
        }
    }
}

/// A file being read from the start to its end, a chunk per call.
pub struct Download {
    file: Handle,
    bytes: Vec<u8>,
    max_body: usize,
}

/// [`Download`] as a mathematical value.
pub struct DownloadView {
    /// The file's handle.
    pub file: Seq<u8>,
    /// What has been read of it.
    pub bytes: Seq<u8>,
    /// The most bytes of a file that are read here.
    pub max_body: nat,
}

impl View for Download {
    type V = DownloadView;

    closed spec fn view(&self) -> DownloadView {
        DownloadView {
            file: self.file@,
            bytes: self.bytes@,
            max_body: self.max_body as nat,
        }
    }
}

/// Where a download is.
pub enum Downloaded {
    /// At the end of the file: its bytes.
    Whole(Seq<u8>),
    /// Before it.
    Partly(DownloadView),
}

/// The next call of a download: a chunk from where it is.
pub open spec fn download_asked(client: ClientView, download: DownloadView) -> PendingView {
    nfs_asked(
        client,
        procedure::READ,
        procedure::read_args_bytes(download.file, download.bytes.len() as u64, CHUNK as u32),
    )
}

/// Where the results of its pending call leave a download.
pub open spec fn download_after(download: DownloadView, results: Seq<u8>) -> Carried<Downloaded> {
    match procedure::parse_read(results) {
        Ok((data, eof)) => {
            let bytes = download.bytes + data;
            if bytes.len() > download.max_body {
                Err(error::permanent_failure("a file longer than one Stream Xmip reads"@))
            } else if eof || data.len() == 0 {
                Ok(Downloaded::Whole(bytes))
            } else {
                Ok(Downloaded::Partly(DownloadView { bytes, ..download }))
            }
        },
        Err(failure) => Err(failure),
    }
}

/// What is next of a download.
pub enum Next {
    /// Nothing: here are the file's bytes.
    Whole(Vec<u8>),
    /// This call.
    Call(Pending),
}

impl Download {
    fn ask(&self, client: &mut Client) -> (pending: Pending)
        ensures
            pending@ == download_asked(old(client)@, self@),
            final(client)@ == moved_on(old(client)@),
    {
        client.nfs_call(
            procedure::READ,
            procedure::read_args(&self.file, self.bytes.len() as u64, CHUNK as u32),
        )
    }

    /// Take the results of the pending call: the next, or the bytes, given
    /// away, where that was the end of the file.
    ///
    /// # Errors
    /// Where the server refused, or grew the file past what is read here.
    pub fn advance(&mut self, client: &mut Client, results: &[u8]) -> (next: Result<Next>)
        ensures
            match download_after(old(self)@, results@) {
                Ok(Downloaded::Whole(bytes)) => next is Ok && next->Ok_0 is Whole
                    && next->Ok_0->Whole_0@ == bytes && final(self)@ == (DownloadView {
                    bytes: Seq::empty(),
                    ..old(self)@
                }) && final(client)@ == old(client)@,
                Ok(Downloaded::Partly(download)) => next is Ok && next->Ok_0 is Call && final(self)@
                    == download && next->Ok_0->Call_0@ == download_asked(old(client)@, download)
                    && final(client)@ == moved_on(old(client)@),
                Err(failure) => next is Err && next->Err_0@ == failure && final(self)@ == old(
                    self,
                )@ && final(client)@ == old(client)@,
            },
    {
        let (data, eof) = procedure::take_read(results)?;
        let read = self.bytes.len();
        if read > self.max_body || data.len() > self.max_body - read {
            return Err(protocol_error("a file longer than one Stream Xmip reads"));
        }
        if eof || data.is_empty() {
            let mut bytes: Vec<u8> = Vec::new();
            core::mem::swap(&mut bytes, &mut self.bytes);
            assert(self.bytes@ =~= Seq::empty());
            bytes.extend_from_slice(data.as_slice());
            assert(bytes@ =~= old(self)@.bytes + data@);
            return Ok(Next::Whole(bytes));
        }
        self.bytes.extend_from_slice(data.as_slice());
        assert(self.bytes@ =~= old(self)@.bytes + data@);
        Ok(Next::Call(self.ask(client)))
    }
}

impl Client {
    /// The client of a new connection, presenting `credentials` on every
    /// call.
    pub fn connect(credentials: Unix) -> (client: Self)
        ensures
            client@ == (ClientView { credentials: credentials@, next_xid: 1 }),
    {
        Client { credentials, next_xid: 1 }
    }

    /// Mount `export`; the reply is for [`Pending::mounted`].
    pub fn mount(&mut self, export: &str) -> (pending: Pending)
        ensures
            pending@ == mount_asked(old(self)@, mount::MNT, xdr::string_bytes(export@)),
            final(self)@ == moved_on(old(self)@),
    {
        self.mount_call(mount::MNT, mount::args(export))
    }

    /// Say the export is no longer in use; the reply is for
    /// [`Pending::unmounted`].
    pub fn unmount(&mut self, export: &str) -> (pending: Pending)
        ensures
            pending@ == mount_asked(old(self)@, mount::UMNT, xdr::string_bytes(export@)),
            final(self)@ == moved_on(old(self)@),
    {
        self.mount_call(mount::UMNT, mount::args(export))
    }

    /// Look up `name` in `dir`; the reply is for [`Pending::found`].
    pub fn lookup(&mut self, dir: &Handle, name: &str) -> (pending: Pending)
        ensures
            pending@ == nfs_asked(
                old(self)@,
                procedure::LOOKUP,
                procedure::dir_args_bytes(dir@, name@),
            ),
            final(self)@ == moved_on(old(self)@),
    {
        self.nfs_call(procedure::LOOKUP, procedure::dir_args(dir, name))
    }

    /// Create `name` in `dir`, empty; the reply is for [`Pending::created`].
    pub fn create(&mut self, dir: &Handle, name: &str) -> (pending: Pending)
        ensures
            pending@ == nfs_asked(
                old(self)@,
                procedure::CREATE,
                procedure::create_args_bytes(dir@, name@),
            ),
            final(self)@ == moved_on(old(self)@),
    {
        self.nfs_call(procedure::CREATE, procedure::create_args(dir, name))
    }

    /// List `dir`; the reply is for [`Pending::listed`].
    pub fn list(&mut self, dir: &Handle) -> (pending: Pending)
        ensures
            pending@ == nfs_asked(
                old(self)@,
                procedure::READDIR,
                procedure::readdir_args_bytes(dir@, LISTING),
            ),
            final(self)@ == moved_on(old(self)@),
    {
        self.nfs_call(procedure::READDIR, procedure::readdir_args(dir, LISTING))
    }

    /// Remove `name` from `dir`; the reply is for [`Pending::removed`].
    pub fn remove(&mut self, dir: &Handle, name: &str) -> (pending: Pending)
        ensures
            pending@ == nfs_asked(
                old(self)@,
                procedure::REMOVE,
                procedure::dir_args_bytes(dir@, name@),
            ),
            final(self)@ == moved_on(old(self)@),
    {
        self.nfs_call(procedure::REMOVE, procedure::dir_args(dir, name))
    }

    /// Write `bytes` to `file` from the start, a chunk per call, and commit.
    pub fn write_all<'a>(&mut self, file: &Handle, bytes: &'a [u8]) -> (begun: (
        Upload<'a>,
        Pending,
    ))
        ensures
            begun.0@ == (UploadView { file: file@, bytes: bytes@, offset: 0 }),
            begun.1@ == upload_asked(old(self)@, begun.0@),
            final(self)@ == moved_on(old(self)@),
    {
        let upload = Upload { file: file.clone(), bytes, offset: 0 };
        let pending = upload.ask(self);
        (upload, pending)
    }

    /// Read `file` from the start to its end, a chunk per call, where it is
    /// of at most `max_body` bytes.
    pub fn read_all(&mut self, file: &Handle, max_body: usize) -> (begun: (Download, Pending))
        ensures
            begun.0@ == (DownloadView {
                file: file@,
                bytes: Seq::empty(),
                max_body: max_body as nat,
            }),
            begun.1@ == download_asked(old(self)@, begun.0@),
            final(self)@ == moved_on(old(self)@),
    {
        let download = Download { file: file.clone(), bytes: Vec::new(), max_body };
        assert(download.bytes@ =~= Seq::empty());
        let pending = download.ask(self);
        (download, pending)
    }

    fn nfs_call(&mut self, procedure: u32, arguments: Vec<u8>) -> (pending: Pending)
        ensures
            pending@ == nfs_asked(old(self)@, procedure, arguments@),
            final(self)@ == moved_on(old(self)@),
    {
        self.call(rpc::NFS_PROGRAM, rpc::NFS_VERSION, procedure, arguments)
    }

    fn mount_call(&mut self, procedure: u32, arguments: Vec<u8>) -> (pending: Pending)
        ensures
            pending@ == mount_asked(old(self)@, procedure, arguments@),
            final(self)@ == moved_on(old(self)@),
    {
        self.call(rpc::MOUNT_PROGRAM, rpc::MOUNT_VERSION, procedure, arguments)
    }

    /// One call, under the next transaction id.
    fn call(
        &mut self,
        program: u32,
        version: u32,
        procedure: u32,
        arguments: Vec<u8>,
    ) -> (pending: Pending)
        ensures
            pending@ == asked(old(self)@, program, version, procedure, arguments@),
            final(self)@ == moved_on(old(self)@),
    {
        proof {
            reveal(asked);
        }
        let xid = self.next_xid;
        self.next_xid = xid.wrapping_add(1);
        let call = Call { xid, program, version, procedure, credentials: None, arguments };
        Pending { xid, message: call.to_bytes(&self.credentials) }
    }
}

/// The reply to a call brings what its outcome says.
pub proof fn replies_are_taken(xid: u32, outcome: OutcomeView)
    ensures
        awaited(xid, Some(rpc::reply_bytes(ReplyView { xid, outcome }))) == rpc::results_of(
            outcome,
        ),
{
    rpc::reply_reads_back(ReplyView { xid, outcome });
}

/// A reply to any other call brings a failure that trying again will not
/// mend, whatever its outcome.
pub proof fn stray_replies_are_refused(xid: u32, reply: ReplyView)
    requires
        reply.xid != xid,
    ensures
        awaited(xid, Some(rpc::reply_bytes(reply))) == Err::<Seq<u8>, _>(
            error::permanent_failure(
                "a reply to call "@ + text::decimal(reply.xid as nat) + " where "@ + text::decimal(
                    xid as nat,
                ) + " was awaited"@,
            ),
        ),
{
    rpc::reply_reads_back(reply);
}

/// A connection that closes, a record that is no reply, a reply to another
/// call and a call that was not run are all failures that trying again will
/// not mend.
pub proof fn broken_replies_are_permanent(xid: u32, record: Option<Seq<u8>>)
    ensures
        awaited(xid, record) is Err ==> !awaited(xid, record)->Err_0.retryable,
{
}

/// The client after so many calls.
pub open spec fn after_calls(client: ClientView, calls: nat) -> ClientView
    decreases calls,
{
    if calls == 0 {
        client
    } else {
        moved_on(after_calls(client, (calls - 1) as nat))
    }
}

/// The id of a call is that of the first and how many were made since, round
/// past the last id there is.
proof fn xids_count(client: ClientView, calls: nat)
    ensures
        after_calls(client, calls).next_xid == (client.next_xid + calls) % 0x1_0000_0000,
    decreases calls,
{
    if calls > 0 {
        xids_count(client, (calls - 1) as nat);
    }
}

/// No two calls have the same id but such as are as many apart as there are
/// ids.
pub proof fn calls_are_told_apart(client: ClientView, one: nat, other: nat)
    requires
        one < other < one + 0x1_0000_0000,
    ensures
        after_calls(client, one).next_xid != after_calls(client, other).next_xid,
{
    xids_count(client, one);
    xids_count(client, other);
}

/// Every reply takes an upload further, and never past the end: it ends.
pub proof fn uploads_go_on(upload: UploadView, results: Seq<u8>)
    requires
        upload.offset <= upload.bytes.len(),
        upload_after(upload, results) is Ok,
    ensures
        match upload_after(upload, results)->Ok_0 {
            Some(more) => upload.offset < more.offset <= upload.bytes.len() && more.bytes
                == upload.bytes && more.file == upload.file,
            None => upload.offset == upload.bytes.len(),
        },
{
}

/// Every reply takes a download further, and never past what is read here:
/// it ends, whatever the server says. What has been read stays.
pub proof fn downloads_go_on(download: DownloadView, results: Seq<u8>)
    requires
        download_after(download, results) is Ok,
    ensures
        match download_after(download, results)->Ok_0 {
            Downloaded::Partly(more) => download.bytes.len() < more.bytes.len()
                <= download.max_body && download.bytes.is_prefix_of(more.bytes),
            Downloaded::Whole(bytes) => bytes.len() <= download.max_body
                && download.bytes.is_prefix_of(bytes),
        },
{
    if let Ok((data, _)) = procedure::parse_read(results) {
        assert(download.bytes.is_prefix_of(download.bytes + data));
    }
}

/// A file that grew past what is read here is refused, at its end or before
/// it, and trying again will not mend that.
pub proof fn long_files_are_refused(download: DownloadView, data: Seq<u8>, eof: bool)
    requires
        data.len() <= u32::MAX,
        download.bytes.len() + data.len() > download.max_body,
    ensures
        download_after(download, procedure::read_ok_bytes(data, eof)) == Err::<Downloaded, _>(
            error::permanent_failure("a file longer than one Stream Xmip reads"@),
        ),
{
    procedure::read_ok_reads_back(data, eof);
}

/// A record is read to 65536 bytes past the longest file, or to as many as
/// can be counted.
pub proof fn records_have_room_for_a_file(max_body: nat)
    ensures
        max_body + 65536 <= usize::MAX ==> limit_of(max_body) == max_body + 65536,
        max_body + 65536 > usize::MAX ==> limit_of(max_body) == usize::MAX,
{
}

} // verus!
