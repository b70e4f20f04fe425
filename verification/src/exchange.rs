//! The two things a Location does with an export, call by call: put one
//! Stream on it, and take every Stream there is.
//!
//! A [`Sending`] and a [`Receiving`] each have one message to send at a
//! time, and take the record that comes back; whoever holds the connection
//! sends the one and reads the other until there is no more to do.

use vstd::prelude::*;

#[allow(unused_imports)]
use crate::arrived::{self, ArrivedView};
use crate::arrived::Arrived;
#[allow(unused_imports)]
use crate::client::{self, ClientView, Downloaded, DownloadView, PendingView, UploadView};
use crate::client::{Client, Download, Next, Pending, Upload};
#[allow(unused_imports)]
use crate::error::Failure;
use crate::error::Result;
use crate::mount;
#[allow(unused_imports)]
use crate::procedure::Carried;
use crate::procedure::{self, Handle};
#[allow(unused_imports)]
use crate::rpc::UnixView;
use crate::rpc::Unix;
#[allow(unused_imports)]
use crate::xdr;

verus! {

/// Which call of a sending is pending.
enum SendStage<'a> {
    /// The mount.
    Mounting,
    /// The create, in the root.
    Creating,
    /// A write or the commit.
    Writing(Upload<'a>),
    /// The unmount.
    Unmounting,
}

/// Which call of a sending is pending.
pub enum SendStageView {
    Mounting,
    Creating,
    Writing(UploadView),
    Unmounting,
}

impl<'a> View for SendStage<'a> {
    type V = SendStageView;

    closed spec fn view(&self) -> SendStageView {
        match *self {
            SendStage::Mounting => SendStageView::Mounting,
            SendStage::Creating => SendStageView::Creating,
            SendStage::Writing(upload) => SendStageView::Writing(upload@),
            SendStage::Unmounting => SendStageView::Unmounting,
        }
    }
}

/// One Stream being put on an export: mount, create, write, commit, unmount.
pub struct Sending<'a> {
    client: Client,
    export: String,
    name: String,
    bytes: &'a [u8],
    pending: Pending,
    stage: SendStage<'a>,
}

/// [`Sending`] as a mathematical value.
pub struct SendingView {
    pub client: ClientView,
    pub export: Seq<char>,
    pub name: Seq<char>,
    pub bytes: Seq<u8>,
    pub pending: PendingView,
    pub stage: SendStageView,
}

impl<'a> View for Sending<'a> {
    type V = SendingView;

    closed spec fn view(&self) -> SendingView {
        SendingView {
            client: self.client@,
            export: self.export@,
            name: self.name@,
            bytes: self.bytes@,
            pending: self.pending@,
            stage: self.stage@,
        }
    }
}

/// A sending at its first call, the mount.
pub open spec fn sending(
    credentials: UnixView,
    export: Seq<char>,
    name: Seq<char>,
    bytes: Seq<u8>,
) -> SendingView {
    let client = ClientView { credentials, next_xid: 1 };
    SendingView {
        client: client::moved_on(client),
        export,
        name,
        bytes,
        pending: client::mount_asked(client, mount::MNT, xdr::string_bytes(export)),
        stage: SendStageView::Mounting,
    }
}

/// A sending that goes on to `stage` with this call pending.
pub open spec fn send_next(
    sending: SendingView,
    pending: PendingView,
    stage: SendStageView,
) -> SendingView {
    SendingView { client: client::moved_on(sending.client), pending, stage, ..sending }
}

/// Where the results of its pending call leave a sending; `None` where it is
/// done.
pub open spec fn send_after(sending: SendingView, results: Seq<u8>) -> Carried<
    Option<SendingView>,
> {
    match sending.stage {
        SendStageView::Mounting => match mount::parse_root(results) {
            Ok(root) => Ok(
                Some(
                    send_next(
                        sending,
                        client::nfs_asked(
                            sending.client,
                            procedure::CREATE,
                            procedure::create_args_bytes(root, sending.name),
                        ),
                        SendStageView::Creating,
                    ),
                ),
            ),
            Err(failure) => Err(failure),
        },
        SendStageView::Creating => match procedure::parse_handle(results, procedure::CREATE) {
            Ok(file) => {
                let upload = UploadView { file, bytes: sending.bytes, offset: 0 };
                Ok(
                    Some(
                        send_next(
                            sending,
                            client::upload_asked(sending.client, upload),
                            SendStageView::Writing(upload),
                        ),
                    ),
                )
            },
            Err(failure) => Err(failure),
        },
        SendStageView::Writing(upload) => match client::upload_after(upload, results) {
            Ok(Some(upload)) => Ok(
                Some(
                    send_next(
                        sending,
                        client::upload_asked(sending.client, upload),
                        SendStageView::Writing(upload),
                    ),
                ),
            ),
            Ok(None) => Ok(
                Some(
                    send_next(
                        sending,
                        client::mount_asked(
                            sending.client,
                            mount::UMNT,
                            xdr::string_bytes(sending.export),
                        ),
                        SendStageView::Unmounting,
                    ),
                ),
            ),
            Err(failure) => Err(failure),
        },
        SendStageView::Unmounting => Ok(None),
    }
}

impl<'a> Sending<'a> {
    /// Put `bytes` on `export` as `name`, presenting `credentials`.
    pub fn new(credentials: Unix, export: &str, name: &str, bytes: &'a [u8]) -> (begun: Self)
        ensures
            begun@ == sending(credentials@, export@, name@, bytes@),
    {
        let mut client = Client::connect(credentials);
        let pending = client.mount(export);
        Sending {
            client,
            export: export.to_owned(),
            name: name.to_owned(),
            bytes,
            pending,
            stage: SendStage::Mounting,
        }
    }

    /// The message to send.
    pub fn message(&self) -> (message: &[u8])
        ensures
            message@ == self@.pending.message,
    {
        self.pending.message()
    }

    /// Take the record that came back, or `None` where the server closed:
    /// the sending with its next message, or `None` where it is done.
    ///
    /// # Errors
    /// Where the server refused, wrote short, or closed.
    pub fn advance(self, record: Option<&[u8]>) -> (next: Result<Option<Self>>)
        ensures
            match client::awaited(self@.pending.xid, client::record_view(record)) {
                Ok(results) => match send_after(self@, results) {
                    Ok(Some(more)) => next is Ok && next->Ok_0 is Some && next->Ok_0->Some_0@
                        == more,
                    Ok(None) => next is Ok && next->Ok_0 is None,
                    Err(failure) => next is Err && next->Err_0@ == failure,
                },
                Err(failure) => next is Err && next->Err_0@ == failure,
            },
    {
        let results = self.pending.results(record)?;
        let Sending { mut client, export, name, bytes, pending: _, stage } = self;
        let (pending, stage) = match stage {
            SendStage::Mounting => {
                let root = mount::take(results.as_slice())?;
                (client.create(&root, name.as_str()), SendStage::Creating)
            },
            SendStage::Creating => {
                let file = procedure::take_handle(results.as_slice(), procedure::CREATE)?;
                let (upload, pending) = client.write_all(&file, bytes);
                (pending, SendStage::Writing(upload))
            },
            SendStage::Writing(mut upload) => match upload.advance(
                &mut client,
                results.as_slice(),
            )? {
                Some(pending) => (pending, SendStage::Writing(upload)),
                None => (client.unmount(export.as_str()), SendStage::Unmounting),
            },
            SendStage::Unmounting => {
                return Ok(None);
            },
        };
        Ok(Some(Sending { client, export, name, bytes, pending, stage }))
    }
}

/// Which call of a receiving is pending.
enum ReceiveStage {
    /// The mount.
    Mounting,
    /// The listing of the root.
    Listing(Handle),
    /// The lookup of the next name in the root.
    Finding(Handle),
    /// A read of its file.
    Reading(Handle, Download),
    /// The remove of its file, read whole.
    Removing(Handle, Vec<u8>),
    /// The unmount.
    Unmounting,
}

/// Which call of a receiving is pending.
pub enum ReceiveStageView {
    Mounting,
    Listing(Seq<u8>),
    Finding(Seq<u8>),
    Reading(Seq<u8>, DownloadView),
    Removing(Seq<u8>, Seq<u8>),
    Unmounting,
}

impl View for ReceiveStage {
    type V = ReceiveStageView;

    closed spec fn view(&self) -> ReceiveStageView {
        match *self {
            ReceiveStage::Mounting => ReceiveStageView::Mounting,
            ReceiveStage::Listing(root) => ReceiveStageView::Listing(root@),
            ReceiveStage::Finding(root) => ReceiveStageView::Finding(root@),
            ReceiveStage::Reading(root, download) => ReceiveStageView::Reading(
                root@,
                download@,
            ),
            ReceiveStage::Removing(root, bytes) => ReceiveStageView::Removing(root@, bytes@),
            ReceiveStage::Unmounting => ReceiveStageView::Unmounting,
        }
    }
}

/// What a receiving is to do.
pub struct Errand {
    /// The server, as an origin names it.
    pub server: String,
    /// The export to empty.
    pub export: String,
    /// Whether each file is removed once read.
    pub removes: bool,
    /// The most bytes of a file that are read.
    pub max_body: usize,
}

/// [`Errand`] as a mathematical value.
pub struct ErrandView {
    pub server: Seq<char>,
    pub export: Seq<char>,
    pub removes: bool,
    pub max_body: nat,
}

impl View for Errand {
    type V = ErrandView;

    open spec fn view(&self) -> ErrandView {
        ErrandView {
            server: self.server@,
            export: self.export@,
            removes: self.removes,
            max_body: self.max_body as nat,
        }
    }
}

/// Every Stream of an export being taken: mount, list, look each up, read it
/// and remove it unless it is to stay, unmount.
pub struct Receiving {
    client: Client,
    errand: Errand,
    names: Vec<String>,
    arrived: Vec<Arrived>,
    pending: Pending,
    stage: ReceiveStage,
}

/// [`Receiving`] as a mathematical value.
#[verifier::ext_equal]
pub struct ReceivingView {
    pub client: ClientView,
    pub errand: ErrandView,
    /// The names listed.
    pub names: Seq<Seq<char>>,
    /// The Streams taken, one for each of the first names.
    pub arrived: Seq<ArrivedView>,
    pub pending: PendingView,
    pub stage: ReceiveStageView,
}

/// What each Stream is.
pub open spec fn streams(arrived: Seq<Arrived>) -> Seq<ArrivedView> {
    Seq::new(arrived.len(), |i: int| arrived[i]@)
}

impl View for Receiving {
    type V = ReceivingView;

    closed spec fn view(&self) -> ReceivingView {
        ReceivingView {
            client: self.client@,
            errand: self.errand@,
            names: procedure::texts(self.names@),
            arrived: streams(self.arrived@),
            pending: self.pending@,
            stage: self.stage@,
        }
    }
}

/// A receiving at its first call, the mount.
pub open spec fn receiving(credentials: UnixView, errand: ErrandView) -> ReceivingView {
    let client = ClientView { credentials, next_xid: 1 };
    ReceivingView {
        client: client::moved_on(client),
        errand,
        names: Seq::empty(),
        arrived: Seq::empty(),
        pending: client::mount_asked(client, mount::MNT, xdr::string_bytes(errand.export)),
        stage: ReceiveStageView::Mounting,
    }
}

/// A receiving that goes on to `stage` with this call pending.
pub open spec fn receive_next(
    receiving: ReceivingView,
    pending: PendingView,
    stage: ReceiveStageView,
) -> ReceivingView {
    ReceivingView { client: client::moved_on(receiving.client), pending, stage, ..receiving }
}

/// A receiving that goes on to the next name, or to the unmount where there
/// are no more.
pub open spec fn next_name(receiving: ReceivingView, root: Seq<u8>) -> ReceivingView {
    let at = receiving.arrived.len() as int;
    if at < receiving.names.len() {
        receive_next(
            receiving,
            client::nfs_asked(
                receiving.client,
                procedure::LOOKUP,
                procedure::dir_args_bytes(root, receiving.names[at]),
            ),
            ReceiveStageView::Finding(root),
        )
    } else {
        receive_next(
            receiving,
            client::mount_asked(
                receiving.client,
                mount::UMNT,
                xdr::string_bytes(receiving.errand.export),
            ),
            ReceiveStageView::Unmounting,
        )
    }
}

/// A receiving with one more Stream, the file of the next name.
pub open spec fn one_arrived(
    receiving: ReceivingView,
    root: Seq<u8>,
    bytes: Seq<u8>,
) -> ReceivingView {
    let origin_uri = arrived::origin_of(
        receiving.errand.server,
        receiving.errand.export,
        receiving.names[receiving.arrived.len() as int],
    );
    let arrived = receiving.arrived.push(ArrivedView { origin_uri, bytes });
    next_name(ReceivingView { arrived, ..receiving }, root)
}

/// Where a receiving is.
pub enum Taken {
    /// Done: the Streams.
    All(Seq<ArrivedView>),
    /// Before that.
    Part(ReceivingView),
}

/// Where the results of its pending call leave a receiving.
pub open spec fn receive_after(receiving: ReceivingView, results: Seq<u8>) -> Carried<Taken> {
    match receiving.stage {
        ReceiveStageView::Mounting => match mount::parse_root(results) {
            Ok(root) => Ok(
                Taken::Part(
                    receive_next(
                        receiving,
                        client::nfs_asked(
                            receiving.client,
                            procedure::READDIR,
                            procedure::readdir_args_bytes(root, client::LISTING),
                        ),
                        ReceiveStageView::Listing(root),
                    ),
                ),
            ),
            Err(failure) => Err(failure),
        },
        ReceiveStageView::Listing(root) => match procedure::parse_readdir(results) {
            Ok(names) => Ok(
                Taken::Part(
                    next_name(ReceivingView { names, arrived: Seq::empty(), ..receiving }, root),
                ),
            ),
            Err(failure) => Err(failure),
        },
        ReceiveStageView::Finding(root) => match procedure::parse_handle(
            results,
            procedure::LOOKUP,
        ) {
            Ok(file) => {
                let download = DownloadView {
                    file,
                    bytes: Seq::empty(),
                    max_body: receiving.errand.max_body,
                };
                Ok(
                    Taken::Part(
                        receive_next(
                            receiving,
                            client::download_asked(receiving.client, download),
                            ReceiveStageView::Reading(root, download),
                        ),
                    ),
                )
            },
            Err(failure) => Err(failure),
        },
        ReceiveStageView::Reading(root, download) => match client::download_after(
            download,
            results,
        ) {
            Ok(Downloaded::Partly(download)) => Ok(
                Taken::Part(
                    receive_next(
                        receiving,
                        client::download_asked(receiving.client, download),
                        ReceiveStageView::Reading(root, download),
                    ),
                ),
            ),
            Ok(Downloaded::Whole(bytes)) => Ok(
                Taken::Part(
                    if receiving.errand.removes {
                        receive_next(
                            receiving,
                            client::nfs_asked(
                                receiving.client,
                                procedure::REMOVE,
                                procedure::dir_args_bytes(
                                    root,
                                    receiving.names[receiving.arrived.len() as int],
                                ),
                            ),
                            ReceiveStageView::Removing(root, bytes),
                        )
                    } else {
                        one_arrived(receiving, root, bytes)
                    },
                ),
            ),
            Err(failure) => Err(failure),
        },
        ReceiveStageView::Removing(root, bytes) => match procedure::parse_done(
            results,
            "removing"@,
        ) {
            Ok(_) => Ok(Taken::Part(one_arrived(receiving, root, bytes))),
            Err(failure) => Err(failure),
        },
        ReceiveStageView::Unmounting => Ok(Taken::All(receiving.arrived)),
    }
}

/// What is next of a receiving.
pub enum Turn {
    /// Nothing: here are the Streams.
    Done(Vec<Arrived>),
    /// More of it.
    More(Receiving),
}

impl Receiving {
    #[verifier::type_invariant]
    spec fn well_formed(self) -> bool {
        match self.stage {
            ReceiveStage::Finding(_) | ReceiveStage::Reading(_, _) | ReceiveStage::Removing(
                _,
                _,
            ) => self.arrived@.len() < self.names@.len(),
            _ => true,
        }
    }

    /// Take what `errand` says is to be taken, presenting `credentials`.
    pub fn new(credentials: Unix, errand: Errand) -> (begun: Self)
        ensures
            begun@ == receiving(credentials@, errand@),
    {
        let mut client = Client::connect(credentials);
        let pending = client.mount(errand.export.as_str());
        let begun = Receiving {
            client,
            errand,
            names: Vec::new(),
            arrived: Vec::new(),
            pending,
            stage: ReceiveStage::Mounting,
        };
        assert(begun@ =~= receiving(credentials@, errand@));
        begun
    }

    /// The message to send.
    pub fn message(&self) -> (message: &[u8])
        ensures
            message@ == self@.pending.message,
    {
        self.pending.message()
    }

    /// The call for the next name, or the unmount where there are no more.
    fn ask_next(
        client: Client,
        errand: Errand,
        names: Vec<String>,
        arrived: Vec<Arrived>,
        root: Handle,
        Ghost(now): Ghost<ReceivingView>,
    ) -> (more: Self)
        requires
            now.client == client@,
            now.errand == errand@,
            now.names == procedure::texts(names@),
            now.arrived == streams(arrived@),
        ensures
            more@ == next_name(now, root@),
    {
        let mut client = client;
        if arrived.len() < names.len() {
            let pending = client.lookup(&root, names[arrived.len()].as_str());
            let stage = ReceiveStage::Finding(root);
            Receiving { client, errand, names, arrived, pending, stage }
        } else {
            let pending = client.unmount(errand.export.as_str());
            let stage = ReceiveStage::Unmounting;
            Receiving { client, errand, names, arrived, pending, stage }
        }
    }

    /// One more Stream, the file of the next name.
    fn one_more(
        client: Client,
        errand: Errand,
        names: Vec<String>,
        arrived: Vec<Arrived>,
        root: Handle,
        bytes: Vec<u8>,
        Ghost(now): Ghost<ReceivingView>,
    ) -> (more: Self)
        requires
            arrived@.len() < names@.len(),
            now.client == client@,
            now.errand == errand@,
            now.names == procedure::texts(names@),
            now.arrived == streams(arrived@),
        ensures
            more@ == one_arrived(now, root@, bytes@),
    {
        let mut arrived = arrived;
        let origin = arrived::origin(
            errand.server.as_str(),
            errand.export.as_str(),
            names[arrived.len()].as_str(),
        );
        let one = Arrived::new(origin, bytes);
        let ghost then = ReceivingView { arrived: now.arrived.push(one@), ..now };
        arrived.push(one);
        assert(then.arrived =~= streams(arrived@));
        Receiving::ask_next(client, errand, names, arrived, root, Ghost(then))
    }

    /// Take the results of the pending call.
    #[verifier::rlimit(40)]
    fn take(self, results: &[u8]) -> (next: Result<Turn>)
        ensures
            match receive_after(self@, results@) {
                Ok(Taken::Part(more)) => next is Ok && next->Ok_0 is More && next->Ok_0->More_0@
                    == more,
                Ok(Taken::All(arrived)) => next is Ok && next->Ok_0 is Done && streams(
                    next->Ok_0->Done_0@,
                ) == arrived,
                Err(failure) => next is Err && next->Err_0@ == failure,
            },
    {
        proof {
            use_type_invariant(&self);
        }
        let ghost now = self@;
        let Receiving { mut client, errand, names, arrived, pending: _, stage } = self;
        let (pending, stage) = match stage {
            ReceiveStage::Mounting => {
                let root = mount::take(results)?;
                (client.list(&root), ReceiveStage::Listing(root))
            },
            ReceiveStage::Listing(root) => {
                let names = procedure::take_readdir(results)?;
                let arrived: Vec<Arrived> = Vec::new();
                assert(streams(arrived@) =~= Seq::empty());
                let ghost listed = ReceivingView {
                    names: procedure::texts(names@),
                    arrived: Seq::empty(),
                    ..now
                };
                return Ok(
                    Turn::More(
                        Receiving::ask_next(client, errand, names, arrived, root, Ghost(listed)),
                    ),
                );
            },
            ReceiveStage::Finding(root) => {
                let file = procedure::take_handle(results, procedure::LOOKUP)?;
                let (download, pending) = client.read_all(&file, errand.max_body);
                (pending, ReceiveStage::Reading(root, download))
            },
            ReceiveStage::Reading(root, mut download) => match download.advance(
                &mut client,
                results,
            )? {
                Next::Call(pending) => (pending, ReceiveStage::Reading(root, download)),
                Next::Whole(bytes) => {
                    if errand.removes {
                        let pending = client.remove(&root, names[arrived.len()].as_str());
                        (pending, ReceiveStage::Removing(root, bytes))
                    } else {
                        return Ok(
                            Turn::More(
                                Receiving::one_more(
                                    client,
                                    errand,
                                    names,
                                    arrived,
                                    root,
                                    bytes,
                                    Ghost(now),
                                ),
                            ),
                        );
                    }
                },
            },
            ReceiveStage::Removing(root, bytes) => {
                procedure::take_done(results, "removing")?;
                return Ok(
                    Turn::More(
                        Receiving::one_more(
                            client,
                            errand,
                            names,
                            arrived,
                            root,
                            bytes,
                            Ghost(now),
                        ),
                    ),
                );
            },
            ReceiveStage::Unmounting => {
                return Ok(Turn::Done(arrived));
            },
        };
        Ok(Turn::More(Receiving { client, errand, names, arrived, pending, stage }))
    }

    /// Take the record that came back, or `None` where the server closed:
    /// the receiving with its next message, or the Streams where it is done.
    ///
    /// # Errors
    /// Where the server refused, grew a file past what is read, or closed.
    pub fn advance(self, record: Option<&[u8]>) -> (next: Result<Turn>)
        ensures
            match client::awaited(self@.pending.xid, client::record_view(record)) {
                Ok(results) => match receive_after(self@, results) {
                    Ok(Taken::Part(more)) => next is Ok && next->Ok_0 is More
                        && next->Ok_0->More_0@ == more,
                    Ok(Taken::All(arrived)) => next is Ok && next->Ok_0 is Done && streams(
                        next->Ok_0->Done_0@,
                    ) == arrived,
                    Err(failure) => next is Err && next->Err_0@ == failure,
                },
                Err(failure) => next is Err && next->Err_0@ == failure,
            },
    {
        let results = self.pending.results(record)?;
        self.take(results.as_slice())
    }
}

/// A file is removed only where files are, and only once all of it is read.
pub proof fn files_are_removed_once_read(
    receiving: ReceivingView,
    results: Seq<u8>,
    more: ReceivingView,
)
    requires
        receive_after(receiving, results) == Ok::<_, Failure>(Taken::Part(more)),
        more.stage is Removing,
    ensures
        receiving.errand.removes,
        receiving.stage is Reading,
        client::download_after(receiving.stage->Reading_1, results) == Ok::<_, Failure>(
            Downloaded::Whole(more.stage->Removing_1),
        ),
{
}

/// The Stream that arrives is the last of those that have.
proof fn one_arrived_is_last(receiving: ReceivingView, root: Seq<u8>, bytes: Seq<u8>)
    ensures
        ({
            let arrived = one_arrived(receiving, root, bytes).arrived;
            &&& arrived.last().bytes == bytes
            &&& arrived.drop_last() == receiving.arrived
        }),
{
    let arrived = one_arrived(receiving, root, bytes).arrived;
    assert(arrived.drop_last() =~= receiving.arrived);
}

/// A Stream has arrived only once its file is read whole, and where files
/// are removed only once the server has said that this one is.
pub proof fn streams_arrive_whole(
    receiving: ReceivingView,
    results: Seq<u8>,
    more: ReceivingView,
)
    requires
        receive_after(receiving, results) == Ok::<_, Failure>(Taken::Part(more)),
        more.arrived.len() > receiving.arrived.len(),
    ensures
        more.arrived.drop_last() == receiving.arrived,
        match receiving.stage {
            ReceiveStageView::Removing(_, bytes) => procedure::parse_done(
                results,
                "removing"@,
            ) is Ok && more.arrived.last().bytes == bytes,
            ReceiveStageView::Reading(_, download) => !receiving.errand.removes
                && client::download_after(download, results) == Ok::<_, Failure>(
                Downloaded::Whole(more.arrived.last().bytes),
            ),
            _ => false,
        },
{
    match receiving.stage {
        ReceiveStageView::Reading(root, download) => {
            let whole = client::download_after(download, results)->Ok_0;
            one_arrived_is_last(receiving, root, whole->Whole_0);
        },
        ReceiveStageView::Removing(root, bytes) => {
            one_arrived_is_last(receiving, root, bytes);
        },
        _ => {},
    }
    assert(more.arrived.drop_last() =~= receiving.arrived);
}

} // verus!
