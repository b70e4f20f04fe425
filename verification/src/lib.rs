//! Streams that arrive as files on an NFS export. One file is one Stream,
//! its name kept beside it.
//!
//! NFS is the drop directory that is already mounted on every Unix box in
//! the building: an export on a server, a path a producer writes into and
//! an integrator reads out of. What is spoken here is NFS version 3 over
//! ONC RPC on TCP (RFC 1813, RFC 5531): the mount program for the root
//! handle, then `CREATE`, `WRITE` and `COMMIT` to put a Stream on the
//! export, `READDIR`, `LOOKUP`, `READ` and `REMOVE` to take what is there,
//! with `AUTH_UNIX` credentials and no attributes asked for. A Receive
//! Location mounts, lists and reads each file, removing it once it is
//! safely a Stream; a Send Location mounts, creates, writes and commits.
//! Either may instead accept clients directly through [`Session`], one
//! client's worth of server over one export in memory. The mount program
//! is spoken on the NFS port itself, which is where a server that answers
//! both on one port has it and where this crate's own far end has it; the
//! portmapper that would find a mount daemon elsewhere is not spoken.
//!
//! The origin URI carries what the server knew: `nfs://server/export/name`.
//! A send target is `nfs://host:2049/export/name`, or a name alone on the
//! configured server and export.
//!
//! Nothing here opens a connection. Each side of an exchange is a value that
//! has a message to send and takes the record that came back, and what it
//! does with any record at all is stated and proved.

pub mod answers;
pub mod arrived;
pub mod client;
pub mod codec;
pub mod conversation;
pub mod cursor;
pub mod error;
pub mod exchange;
pub mod files;
pub mod layout;
pub mod mount;
pub mod procedure;
pub mod progress;
pub mod promises;
pub mod rpc;
pub mod session;
pub mod status;
pub mod target;
pub mod text;
pub mod writer;
pub mod xdr;

use core::time::Duration;

use vstd::prelude::*;

pub use arrived::Arrived;
pub use client::Client;
#[allow(unused_imports)]
use client::ClientView;
#[allow(unused_imports)]
use error::Failure;
pub use error::TransportError;
use error::{protocol_error, Result};
pub use exchange::{Errand, Receiving, Sending};
#[allow(unused_imports)]
use exchange::ErrandView;
pub use files::Files;
pub use procedure::Handle;
pub use rpc::Unix;
#[allow(unused_imports)]
use rpc::UnixView;
pub use session::{Event, Session};
#[allow(unused_imports)]
use session::SessionView;

verus! {

/// An export on a server, and how to speak to it.
pub struct NfsTransport {
    server: String,
    export: String,
    credentials: Unix,
    delete_after_retrieve: bool,
    timeout: Option<Duration>,
}

/// [`NfsTransport`] as a mathematical value.
pub struct TransportView {
    pub server: Seq<char>,
    pub export: Seq<char>,
    pub credentials: UnixView,
    /// Whether each file is removed once read.
    pub delete_after_retrieve: bool,
    /// How long to wait for a server that stops mid-reply.
    pub timeout: Option<Duration>,
}

impl View for NfsTransport {
    type V = TransportView;

    closed spec fn view(&self) -> TransportView {
        TransportView {
            server: self.server@,
            export: self.export@,
            credentials: self.credentials@,
            delete_after_retrieve: self.delete_after_retrieve,
            timeout: self.timeout,
        }
    }
}

impl Clone for NfsTransport {
    fn clone(&self) -> (copy: Self)
        ensures
            copy@ == self@,
    {
        NfsTransport {
            server: self.server.clone(),
            export: self.export.clone(),
            credentials: self.credentials.clone(),
            delete_after_retrieve: self.delete_after_retrieve,
            timeout: self.timeout,
        }
    }
}

/// Speaking to `server` about `export`, with nothing else said.
pub open spec fn plain_transport(server: Seq<char>, export: Seq<char>) -> TransportView {
    TransportView {
        server,
        export,
        credentials: UnixView { machine: "xmip"@, uid: 0, gid: 0 },
        delete_after_retrieve: true,
        timeout: None,
    }
}

impl NfsTransport {
    /// Speak to the server at `server` (`host:2049`) about `export`, as root
    /// on a machine called `xmip` until [`Self::presenting`].
    #[must_use]
    pub fn new(server: &str, export: &str) -> (transport: Self)
        ensures
            transport@ == plain_transport(server@, export@),
    {
        NfsTransport {
            server: server.to_owned(),
            export: export.to_owned(),
            credentials: Unix::default(),
            delete_after_retrieve: true,
            timeout: None,
        }
    }

    /// Present these `AUTH_UNIX` credentials.
    #[must_use]
    pub fn presenting(self, credentials: Unix) -> (transport: Self)
        ensures
            transport@ == (TransportView { credentials: credentials@, ..self@ }),
    {
        NfsTransport { credentials, ..self }
    }

    /// Leave read files in place rather than removing them.
    #[must_use]
    pub fn leaving_files(self) -> (transport: Self)
        ensures
            transport@ == (TransportView { delete_after_retrieve: false, ..self@ }),
    {
        NfsTransport { delete_after_retrieve: false, ..self }
    }

    /// Give up on a server that stops mid-reply.
    #[must_use]
    pub fn timing_out_after(self, timeout: Duration) -> (transport: Self)
        ensures
            transport@ == (TransportView { timeout: Some(timeout), ..self@ }),
    {
        NfsTransport { timeout: Some(timeout), ..self }
    }

    /// Both ends on this machine: an ephemeral local port, one export, the
    /// loopback timeout on every read.
    #[must_use]
    pub fn loopback(timeout: Duration) -> (transport: Self)
        ensures
            transport@ == (TransportView {
                timeout: Some(timeout),
                ..plain_transport("127.0.0.1:0"@, "/probe"@)
            }),
    {
        NfsTransport::new("127.0.0.1:0", "/probe").timing_out_after(timeout)
    }

    /// What this transport is called.
    #[must_use]
    pub fn name(&self) -> (name: &'static str)
        ensures
            name@ == "nfs"@,
    {
        "nfs"
    }

    /// The server spoken to.
    #[must_use]
    pub fn server(&self) -> (server: &str)
        ensures
            server@ == self@.server,
    {
        self.server.as_str()
    }

    /// How long to wait for a server that stops mid-reply.
    #[must_use]
    pub fn timeout(&self) -> (timeout: Option<Duration>)
        ensures
            timeout == self@.timeout,
    {
        self.timeout
    }

    /// A client for a connection to the server.
    #[must_use]
    pub fn connect(&self) -> (client: Client)
        ensures
            client@ == (ClientView { credentials: self@.credentials, next_xid: 1 }),
    {
        Client::connect(self.credentials.clone())
    }

    /// A session for a client at `peer`, serving this transport's export in
    /// files of at most `max_body` bytes.
    #[must_use]
    pub fn accept_one(&self, peer: &str, max_body: usize) -> (session: Session)
        ensures
            session@ == (SessionView {
                peer: peer@,
                export: self@.export,
                files: Map::empty(),
                max_body: max_body as nat,
            }),
    {
        Session::accept(peer, self.export.as_str(), max_body)
    }

    /// Where a target names the server, export and file itself,
    /// `nfs://host:2049/export/name`, or is a name alone on this transport's
    /// export.
    ///
    /// # Errors
    /// Where it is neither.
    pub fn resolve<'a>(&'a self, target: &'a str) -> (named: Result<(&'a str, String, &'a str)>)
        ensures
            match target::resolved(self@.server, self@.export, target@) {
                Ok((server, export, name)) => named is Ok && named->Ok_0.0@ == server
                    && named->Ok_0.1@ == export && named->Ok_0.2@ == name,
                Err(failure) => named is Err && named->Err_0@ == failure,
            },
    {
        target::resolve(self.server.as_str(), self.export.as_str(), target)
    }

    /// Every file on the export, each removed once read unless the transport
    /// was told to leave them, in files of at most `max_body` bytes.
    #[must_use]
    pub fn receive(&self, max_body: usize) -> (receiving: Receiving)
        ensures
            receiving@ == exchange::receiving(
                self@.credentials,
                ErrandView {
                    server: self@.server,
                    export: self@.export,
                    removes: self@.delete_after_retrieve,
                    max_body: max_body as nat,
                },
            ),
    {
        Receiving::new(
            self.credentials.clone(),
            Errand {
                server: self.server.clone(),
                export: self.export.clone(),
                removes: self.delete_after_retrieve,
                max_body,
            },
        )
    }

    /// Put `bytes` where `target` says: the server to connect to, and the
    /// sending to run on that connection.
    ///
    /// # Errors
    /// Where the target is no file on any server.
    pub fn send<'a>(&'a self, target: &'a str, bytes: &'a [u8]) -> (begun: Result<
        (&'a str, Sending<'a>),
    >)
        ensures
            match target::resolved(self@.server, self@.export, target@) {
                Ok((server, export, name)) => begun is Ok && begun->Ok_0.0@ == server
                    && begun->Ok_0.1@ == exchange::sending(
                    self@.credentials,
                    export,
                    name,
                    bytes@,
                ),
                Err(failure) => begun is Err && begun->Err_0@ == failure,
            },
    {
        let (server, export, name) = self.resolve(target)?;
        Ok((server, Sending::new(self.credentials.clone(), export.as_str(), name, bytes)))
    }

    /// What puts a payload on the loopback's far end, at `address`: the
    /// transport to send it by, and the one file agreed on to send it to.
    #[must_use]
    pub fn send_to(&self, address: &str, timeout: Duration) -> (near: (Self, &'static str))
        ensures
            near.0@ == (TransportView {
                timeout: Some(timeout),
                ..plain_transport(address@, self@.export)
            }),
            near.1@ == "probe.bin"@,
    {
        (
            NfsTransport::new(address, self.export.as_str()).timing_out_after(timeout),
            "probe.bin",
        )
    }

    /// The Stream that a session served to its first commit, or to the
    /// client's close, came to.
    ///
    /// # Errors
    /// Where the client closed first.
    pub fn take_one(found: Option<Arrived>) -> (taken: Result<Arrived>)
        ensures
            match found {
                Some(arrived) => taken is Ok && taken->Ok_0 == arrived,
                None => taken is Err && taken->Err_0@ == error::permanent_failure(
                    "the client closed without committing"@,
                ),
            },
    {
        match found {
            Some(arrived) => Ok(arrived),
            None => Err(protocol_error("the client closed without committing")),
        }
    }
}

} // verus!
