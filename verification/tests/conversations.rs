//! The two sides against each other, over a wire in memory.

use std::time::Duration;

use nfs::client::{record_limit, Client, Next, Pending, CHUNK};
use nfs::cursor::Cursor;
use nfs::error::TransportError;
use nfs::exchange::{Receiving, Sending, Turn};
use nfs::rpc::{self, read_record, write_record};
use nfs::session::Step;
use nfs::{procedure, Arrived, Event, Files, Handle, NfsTransport, Session, Unix};

const MAX_BODY: usize = 1 << 24;

fn secs(n: u64) -> Duration {
    Duration::from_secs(n)
}

/// One message to the session and its reply, each as a record on a wire.
fn serve(session: &mut Session, events: &mut Vec<Event>, message: &[u8]) -> Vec<u8> {
    let mut wire = Vec::new();
    write_record(&mut wire, message).expect("call");
    let record = read_record(&mut Cursor::new(&wire), record_limit(MAX_BODY)).expect("record");
    let reply = match session.next_event(record.as_deref()).expect("event") {
        Step::Answer { reply, found } => {
            events.extend(found);
            reply
        }
        Step::Closed => panic!("a record was sent"),
    };
    let mut wire = Vec::new();
    write_record(&mut wire, &reply).expect("reply");
    read_record(&mut Cursor::new(&wire), record_limit(MAX_BODY))
        .expect("record")
        .expect("one")
}

fn send(
    session: &mut Session,
    events: &mut Vec<Event>,
    sending: Sending<'_>,
) -> Result<(), TransportError> {
    let mut sending = sending;
    loop {
        let record = serve(session, events, sending.message());
        match sending.advance(Some(&record))? {
            Some(more) => sending = more,
            None => return Ok(()),
        }
    }
}

fn receive(
    session: &mut Session,
    events: &mut Vec<Event>,
    receiving: Receiving,
) -> Result<Vec<Arrived>, TransportError> {
    let mut receiving = receiving;
    loop {
        let record = serve(session, events, receiving.message());
        match receiving.advance(Some(&record))? {
            Turn::More(more) => receiving = more,
            Turn::Done(arrived) => return Ok(arrived),
        }
    }
}

/// A payload sent from the near end of the loopback to its far end.
fn round(pair: &NfsTransport, payload: &[u8]) -> Result<Arrived, TransportError> {
    let address = "127.0.0.1:40000";
    let mut session = pair.accept_one(address, MAX_BODY);
    let (near, file) = pair.send_to(address, secs(2));
    let (server, sending) = near.send(file, payload)?;
    assert_eq!(server, address);
    let mut events = Vec::new();
    send(&mut session, &mut events, sending)?;
    let found = events.into_iter().find_map(|event| match event {
        Event::Committed(arrived) => Some(arrived),
        _ => None,
    });
    NfsTransport::take_one(found)
}

fn two_files() -> Files {
    let mut files = Files::new();
    files.insert("1.edi".to_string(), b"UNA:+.? '".to_vec());
    files.insert("2.bin".to_string(), vec![0xff, 0x00]);
    files
}

#[test]
fn the_loopback_commits_one_file_and_takes_it() {
    let pair = NfsTransport::loopback(secs(2));
    let arrived = round(&pair, b"UNA:+.? '").expect("round");
    assert_eq!(arrived.bytes, b"UNA:+.? '");
    assert!(arrived.origin_uri.starts_with("nfs://127.0.0.1:"));
    assert!(arrived.origin_uri.ends_with("/probe/probe.bin"));
    let long: Vec<u8> = (0..200_000u32).map(|n| (n % 251) as u8).collect();
    assert_eq!(round(&pair, &long).expect("chunks").bytes, long);
    assert_eq!(pair.name(), "nfs");
}

#[test]
fn payloads_of_every_length_about_a_chunk_come_back_whole() {
    let pair = NfsTransport::loopback(secs(2));
    for len in [
        0,
        1,
        3,
        4,
        CHUNK - 1,
        CHUNK,
        CHUNK + 1,
        2 * CHUNK,
        2 * CHUNK + 7,
    ] {
        let payload: Vec<u8> = (0..len).map(|n| (n % 253) as u8).collect();
        assert_eq!(round(&pair, &payload).expect("round").bytes, payload);
    }
}

#[test]
fn a_receive_mounts_lists_reads_and_removes_each_file() {
    let far_end = NfsTransport::new("127.0.0.1:0", "/orders").timing_out_after(secs(2));
    let address = "127.0.0.1:40000";
    let near = NfsTransport::new(address, "/orders").timing_out_after(secs(2));
    let files = two_files();
    let mut session = far_end
        .accept_one("127.0.0.1:50000", MAX_BODY)
        .with_files(files.clone());
    let mut events = Vec::new();
    let first = receive(&mut session, &mut events, near.receive(MAX_BODY)).expect("receiving");
    assert_eq!(events[0], Event::Mounted("/orders".to_string()));
    assert_eq!(events[1], Event::Listed);
    assert_eq!(events[2], Event::Read("1.edi".to_string()));
    assert_eq!(events[3], Event::Removed("1.edi".to_string()));
    assert_eq!(events.last(), Some(&Event::Unmounted));
    assert!(session.files().is_empty(), "removed after read");
    let mut session = far_end
        .accept_one("127.0.0.1:50000", MAX_BODY)
        .with_files(files);
    let again = NfsTransport::new(address, "/orders")
        .leaving_files()
        .timing_out_after(secs(2));
    let again = receive(&mut session, &mut Vec::new(), again.receive(MAX_BODY));
    let again = again.expect("receiving");
    assert_eq!(session.files().len(), 2, "left in place");
    assert_eq!(first.len(), 2);
    assert_eq!(first[0].bytes, b"UNA:+.? '");
    assert!(first[0].origin_uri.ends_with("/orders/1.edi"));
    assert_eq!(first[1].bytes, [0xff, 0x00]);
    assert_eq!(again.len(), 2);
    assert_eq!(again, first);
}

#[test]
fn what_was_sent_is_what_is_received() {
    let near = NfsTransport::new("host:2049", "/orders");
    let mut session = near.accept_one("peer:1", MAX_BODY);
    let long: Vec<u8> = (0..150_000u32).map(|n| (n % 241) as u8).collect();
    let mut events = Vec::new();
    let (_, sending) = near.send("b.edi", &long).expect("target");
    send(&mut session, &mut events, sending).expect("sent");
    assert_eq!(events[0], Event::Mounted("/orders".to_string()));
    assert_eq!(events[1], Event::Created("b.edi".to_string()));
    assert_eq!(events[2], Event::Written("b.edi".to_string(), 0, CHUNK));
    assert_eq!(
        events[4],
        Event::Written("b.edi".to_string(), 131_072, 150_000 - 131_072)
    );
    assert_eq!(
        events[5],
        Event::Committed(Arrived::new(
            "nfs://peer:1/orders/b.edi".to_string(),
            long.clone()
        ))
    );
    assert_eq!(events[6], Event::Unmounted);
    assert_eq!(events.len(), 7);
    let arrived = receive(&mut session, &mut Vec::new(), near.receive(MAX_BODY));
    assert_eq!(
        arrived.expect("received"),
        [Arrived::new("nfs://host:2049/orders/b.edi".to_string(), long)]
    );
    assert!(session.files().is_empty());
    let nothing = receive(&mut session, &mut Vec::new(), near.receive(MAX_BODY));
    assert_eq!(nothing.expect("received"), []);
}

#[test]
fn the_wrong_export_a_missing_file_and_a_bad_target_are_refused() {
    let far_end = NfsTransport::new("127.0.0.1:0", "/orders").timing_out_after(secs(2));
    let address = "127.0.0.1:40000";
    let near = NfsTransport::new(address, "/orders").timing_out_after(secs(2));
    let elsewhere = format!("nfs://{address}/elsewhere/x");
    let mut session = far_end.accept_one("127.0.0.1:50000", MAX_BODY);
    let mut events = Vec::new();
    let (_, sending) = near.send(&elsewhere, b"x").expect("target");
    let wrong = send(&mut session, &mut events, sending);
    let mut session = far_end.accept_one("127.0.0.1:50000", MAX_BODY);
    let mut client = near.connect();
    let pending = client.mount("/orders");
    let record = serve(&mut session, &mut events, pending.message());
    let root = pending.mounted(Some(&record)).expect("mounted");
    let pending = client.lookup(&root, "nothing");
    let record = serve(&mut session, &mut events, pending.message());
    let missing = pending.found(Some(&record));
    let pending = client.remove(&root, "nothing");
    let record = serve(&mut session, &mut events, pending.message());
    let gone = pending.removed(Some(&record));
    let bad = near.send("a/b", b"x");
    let pending = client.unmount("/orders");
    let record = serve(&mut session, &mut events, pending.message());
    pending.unmounted(Some(&record)).expect("unmounted");
    assert!(matches!(session.next_event(None), Ok(Step::Closed)));

    let wrong = wrong.expect_err("not exported");
    assert!(wrong.message.contains("access denied"), "{}", wrong.message);
    assert!(missing
        .expect_err("no such file")
        .message
        .contains("no such file"));
    assert!(!gone.expect_err("no such file").retryable);
    assert!(!bad.err().expect("not a name").retryable);
    assert_eq!(
        far_end
            .resolve("nfs://h:2049/srv/orders/1.edi")
            .expect("full"),
        ("h:2049", "/srv/orders".to_string(), "1.edi")
    );
    assert_eq!(
        far_end.resolve("1.edi").expect("name"),
        ("127.0.0.1:0", "/orders".to_string(), "1.edi")
    );
    assert!(far_end.resolve("nfs://h:2049/only").is_err());
    assert_eq!(
        events,
        [Event::Mounted("/orders".to_string()), Event::Unmounted]
    );
}

#[test]
fn another_program_or_version_is_answered_as_the_rpc_says() {
    let far_end = NfsTransport::new("127.0.0.1:0", "/orders").timing_out_after(secs(2));
    let mut session = far_end.accept_one("127.0.0.1:50000", MAX_BODY);
    let mut events = Vec::new();
    let mut answers = Vec::new();
    for (program, version, procedure) in [
        (100_000, 2, 0),
        (rpc::NFS_PROGRAM, 4, 0),
        (rpc::NFS_PROGRAM, 3, 99),
        (rpc::NFS_PROGRAM, 3, procedure::NULL),
    ] {
        let call = rpc::Call {
            xid: procedure + 1,
            program,
            version,
            procedure,
            credentials: None,
            arguments: Vec::new(),
        };
        let record = serve(&mut session, &mut events, &call.to_bytes(&Unix::default()));
        let reply = rpc::Reply::from_bytes(&record).expect("reply");
        assert_eq!(reply.xid, procedure + 1);
        answers.push(reply.outcome);
    }
    assert_eq!(
        answers,
        [
            rpc::Outcome::ProgramUnavailable,
            rpc::Outcome::ProgramMismatch { low: 3, high: 3 },
            rpc::Outcome::ProcedureUnavailable,
            rpc::Outcome::Success(Vec::new()),
        ]
    );
    assert!(events.is_empty());
}

#[test]
fn targets_resolve_as_origins_read() {
    let near = NfsTransport::new("host:2049", "/orders");
    let words = |target: &str| near.resolve(target).expect_err("no file").message;
    assert_eq!(words("a/b"), "\"a/b\" is not a name on /orders");
    assert_eq!(words(""), "\"\" is not a name on /orders");
    assert_eq!(words("a/\"\n"), "\"a/\\\"\\n\" is not a name on /orders");
    assert_eq!(
        words("nfs://h:2049/only"),
        "\"nfs://h:2049/only\" is not nfs://host/export/name"
    );
    assert!(near.resolve("nfs://h/export/").is_err());
    assert!(near.resolve("nfs://h//name").is_err());
    assert!(near.resolve("nfs://h").is_err());
    assert_eq!(
        near.resolve("nfs://h/a//b").expect("full"),
        ("h", "/a/".to_string(), "b")
    );
    assert_eq!(
        near.resolve("größe.edi").expect("name"),
        ("host:2049", "/orders".to_string(), "größe.edi")
    );
    let origin = nfs::arrived::origin("h:1", "/srv/é", "ü.edi");
    assert_eq!(origin, "nfs://h:1/srv/é/ü.edi");
    assert_eq!(
        near.resolve(&origin).expect("full"),
        ("h:1", "/srv/é".to_string(), "ü.edi")
    );
}

#[test]
fn a_transport_says_what_it_was_told() {
    let near = NfsTransport::new("host:2049", "/orders");
    assert_eq!(near.server(), "host:2049");
    assert_eq!(near.timeout(), None);
    let near = near.clone().timing_out_after(secs(3));
    assert_eq!(near.timeout(), Some(secs(3)));
    let unix = Unix {
        machine: "box".to_string(),
        uid: 1,
        gid: 2,
    };
    let near = near.presenting(unix.clone());
    let pending = near.connect().mount("/orders");
    let call = rpc::Call::from_bytes(pending.message()).expect("call");
    assert_eq!(call.credentials, Some(unix));
    assert_eq!(call.xid, 1);
    let error = NfsTransport::take_one(None).expect_err("nothing");
    assert_eq!(error.message, "the client closed without committing");
    let loopback = NfsTransport::loopback(secs(5));
    assert_eq!(loopback.server(), "127.0.0.1:0");
    assert_eq!(loopback.timeout(), Some(secs(5)));
}

fn results(session: &mut Session, pending: &Pending) -> Result<Vec<u8>, TransportError> {
    let record = serve(session, &mut Vec::new(), pending.message());
    pending.results(Some(&record))
}

#[test]
fn replies_are_matched_by_transaction_id() {
    let mut client = Client::connect(Unix::default());
    let pending = client.unmount("/orders");
    let later = client.unmount("/orders");
    let reply = rpc::Reply {
        xid: 2,
        outcome: rpc::Outcome::Success(Vec::new()),
    }
    .to_bytes();
    assert_eq!(
        pending.unmounted(Some(&reply)).expect_err("stray").message,
        "a reply to call 2 where 1 was awaited"
    );
    later.unmounted(Some(&reply)).expect("its own");
    let closed = pending.unmounted(None).expect_err("closed");
    assert_eq!(closed.message, "the server closed before replying");
    assert!(!closed.retryable);
}

#[test]
fn a_write_past_what_is_kept_or_to_no_file_is_refused() {
    let mut session = Session::accept("peer:1", "/orders", 10);
    let mut client = Client::connect(Unix::default());
    let root = Handle(vec![0]);
    let created = client.create(&root, "a");
    let file = procedure::take_handle(
        &results(&mut session, &created).expect("created"),
        procedure::CREATE,
    )
    .expect("handle");
    let call = |client: &mut Session, file: &Handle, offset: u64, data: &[u8]| {
        let call = rpc::Call {
            xid: 1,
            program: rpc::NFS_PROGRAM,
            version: rpc::NFS_VERSION,
            procedure: procedure::WRITE,
            credentials: None,
            arguments: procedure::write_args(file, offset, data),
        };
        match client.answer(&call) {
            (rpc::Outcome::Success(results), event) => (procedure::take_write(&results), event),
            _ => panic!("a write is run"),
        }
    };
    let (written, event) = call(&mut session, &file, 4, b"abcd");
    assert_eq!(written, Ok(4));
    assert_eq!(event, Some(Event::Written("a".to_string(), 4, 4)));
    assert_eq!(session.files().get("a"), Some(&b"\0\0\0\0abcd".to_vec()));
    let (written, _) = call(&mut session, &file, 6, b"XYZW");
    assert_eq!(written, Ok(4));
    assert_eq!(
        session.files().get("a"),
        Some(&b"\0\0\0\0abXYZW".to_vec())
    );
    for offset in [7, u64::MAX] {
        let (written, event) = call(&mut session, &file, offset, b"XYZW");
        assert_eq!(
            written.expect_err("too big").message,
            "writing: NFS status 27, too big a file"
        );
        assert_eq!(event, None);
    }
    assert_eq!(
        session.files().get("a"),
        Some(&b"\0\0\0\0abXYZW".to_vec())
    );
    for stale in [Handle(b"b".to_vec()), root] {
        let (written, event) = call(&mut session, &stale, 0, b"x");
        assert_eq!(
            written.expect_err("stale").message,
            "writing: NFS status 70, a stale file handle"
        );
        assert_eq!(event, None);
    }
}

#[test]
fn a_read_and_a_commit_of_no_file_are_stale() {
    let mut session = Session::accept("peer:1", "/orders", 10).with_files(two_files());
    let mut client = Client::connect(Unix::default());
    let gone = Handle(b"gone".to_vec());
    let (mut download, pending) = client.read_all(&gone, 10);
    let read = results(&mut session, &pending).expect("answered");
    assert_eq!(
        download
            .advance(&mut client, &read)
            .err()
            .expect("stale")
            .message,
        "reading: NFS status 70, a stale file handle"
    );
    let (mut upload, pending) = client.write_all(&gone, b"");
    let committed = results(&mut session, &pending).expect("answered");
    assert_eq!(
        upload
            .advance(&mut client, &committed)
            .err()
            .expect("stale")
            .message,
        "committing: NFS status 70, a stale file handle"
    );
}

#[test]
fn garbage_arguments_and_a_mount_of_no_path_are_answered_so() {
    let mut session = Session::accept("peer:1", "/orders", 10).with_files(two_files());
    let mut call = rpc::Call {
        xid: 1,
        program: rpc::NFS_PROGRAM,
        version: rpc::NFS_VERSION,
        procedure: procedure::LOOKUP,
        credentials: None,
        arguments: vec![0, 0, 0, 9],
    };
    for number in [3, 6, 7, 8, 12, 16, 21] {
        call.procedure = number;
        assert_eq!(
            session.answer(&call),
            (rpc::Outcome::GarbageArguments, None)
        );
    }
    call.program = rpc::MOUNT_PROGRAM;
    for number in [0, 1, 3, 99] {
        call.procedure = number;
        assert_eq!(
            session.answer(&call),
            (rpc::Outcome::GarbageArguments, None)
        );
    }
    call.arguments = nfs::mount::args("/orders");
    assert_eq!(
        session.answer(&call),
        (rpc::Outcome::ProcedureUnavailable, None)
    );
    call.version = 1;
    assert_eq!(
        session.answer(&call),
        (rpc::Outcome::ProgramMismatch { low: 3, high: 3 }, None)
    );
    assert_eq!(session.files().len(), 2);
    let no_call = session.next_event(Some(&[0, 0, 0, 1])).err();
    assert!(no_call.expect("cut short").message.contains("runs past"));
}

#[test]
fn a_store_is_a_commit_and_nothing_else() {
    let near = NfsTransport::new("host:2049", "/orders");
    let mut session = near.accept_one("peer:1", MAX_BODY);
    let (_, sending) = near.send("a", b"xyz").expect("target");
    let mut sending = Some(sending);
    let mut stored = Vec::new();
    while let Some(now) = sending {
        let step = session.next_store(Some(now.message())).expect("served");
        let Step::Answer { reply, found } = step else {
            panic!("a record was sent");
        };
        stored.push(found.map(|arrived| arrived.bytes));
        sending = now.advance(Some(&reply)).expect("taken");
    }
    assert_eq!(stored, [None, None, None, Some(b"xyz".to_vec()), None]);
    assert!(matches!(session.next_store(None), Ok(Step::Closed)));
}

#[test]
fn a_call_changes_no_file_but_the_one_it_names() {
    let mut session = Session::accept("peer:1", "/orders", 10).with_files(two_files());
    let file = Handle(b"1.edi".to_vec());
    let root = Handle(vec![0]);
    let mut call = |procedure: u32, arguments: Vec<u8>| {
        let call = rpc::Call {
            xid: 1,
            program: rpc::NFS_PROGRAM,
            version: rpc::NFS_VERSION,
            procedure,
            credentials: None,
            arguments,
        };
        session.answer(&call);
        let first = session.files().get("1.edi").cloned();
        (first, session.files().get("2.bin").cloned())
    };
    let before = (Some(b"UNA:+.? '".to_vec()), Some(vec![0xff, 0x00]));
    for (number, arguments) in [
        (procedure::LOOKUP, procedure::dir_args(&root, "1.edi")),
        (procedure::READ, procedure::read_args(&file, 0, 9)),
        (procedure::READDIR, procedure::readdir_args(&root, 9)),
        (procedure::COMMIT, procedure::commit_args(&file)),
        (procedure::WRITE, vec![0, 0, 0, 9]),
        (99, Vec::new()),
    ] {
        assert_eq!(call(number, arguments), before);
    }
    let (written, other) = call(procedure::WRITE, procedure::write_args(&file, 0, b"X"));
    assert_eq!(written, Some(b"XNA:+.? '".to_vec()));
    assert_eq!(other, before.1);
    let (created, other) = call(procedure::CREATE, procedure::create_args(&root, "1.edi"));
    assert_eq!(created, Some(Vec::new()));
    assert_eq!(other, before.1);
    let (removed, other) = call(procedure::REMOVE, procedure::dir_args(&root, "1.edi"));
    assert_eq!(removed, None);
    assert_eq!(other, before.1);
}

#[test]
fn a_server_that_writes_short_is_refused() {
    let mut client = Client::connect(Unix::default());
    let (mut upload, _) = client.write_all(&Handle(b"f".to_vec()), b"abcde");
    let error = upload
        .advance(&mut client, &procedure::write_ok(3, [0; 8]))
        .err()
        .expect("short");
    assert_eq!(error.message, "the server wrote 3 of 5 bytes");
    assert!(!error.retryable);
}

#[test]
fn a_file_that_outgrows_what_is_read_is_refused() {
    let mut client = Client::connect(Unix::default());
    let file = Handle(b"f".to_vec());
    let (mut download, _) = client.read_all(&file, 4);
    let more = download.advance(&mut client, &procedure::read_ok(b"abcd", false));
    let Ok(Next::Call(pending)) = more else {
        panic!("four of four are read");
    };
    let call = rpc::Call::from_bytes(pending.message()).expect("call");
    assert_eq!(
        procedure::take_read_args(&call.arguments),
        Ok((file.clone(), 4, 65_536))
    );
    let error = download
        .advance(&mut client, &procedure::read_ok(b"e", false))
        .err()
        .expect("long");
    assert_eq!(error.message, "a file longer than one Stream Xmip reads");
    let (mut download, _) = client.read_all(&file, 4);
    let error = download
        .advance(&mut client, &procedure::read_ok(b"abcde", true))
        .err()
        .expect("long at its end");
    assert_eq!(error.message, "a file longer than one Stream Xmip reads");
    let (mut download, _) = client.read_all(&file, 4);
    let whole = download.advance(&mut client, &procedure::read_ok(b"abcd", true));
    assert!(matches!(whole, Ok(Next::Whole(bytes)) if bytes == b"abcd"));
    let (mut download, _) = client.read_all(&file, 4);
    let whole = download.advance(&mut client, &procedure::read_ok(b"", false));
    assert!(matches!(whole, Ok(Next::Whole(bytes)) if bytes.is_empty()));
}

#[test]
fn dots_are_neither_received_nor_removed() {
    let mut files = two_files();
    files.insert("..".to_string(), b"x".to_vec());
    let near = NfsTransport::new("host:2049", "/orders");
    let mut session = near.accept_one("peer:1", MAX_BODY).with_files(files);
    let arrived = receive(&mut session, &mut Vec::new(), near.receive(MAX_BODY));
    assert_eq!(arrived.expect("received").len(), 2);
    assert_eq!(session.files().names(), [".."]);
}

#[test]
fn a_listing_longer_than_is_read_is_refused() {
    let mut files = Files::new();
    for n in 0..800 {
        files.insert(format!("{n:060}"), Vec::new());
    }
    let near = NfsTransport::new("host:2049", "/orders");
    let mut session = near.accept_one("peer:1", 16).with_files(files);
    let mut client = near.connect();
    let pending = client.list(&Handle(vec![0]));
    let Ok(Step::Answer { reply, .. }) = session.next_event(Some(pending.message())) else {
        panic!("a listing is answered");
    };
    let mut wire = Vec::new();
    write_record(&mut wire, &reply).expect("reply");
    let error = read_record(&mut Cursor::new(&wire), record_limit(16)).expect_err("long");
    assert_eq!(error.message, "a record over the 65552 bytes read here");
    assert!(read_record(&mut Cursor::new(&wire), record_limit(MAX_BODY)).is_ok());
    assert_eq!(session.files().len(), 800);
}

#[test]
fn a_long_file_is_received_in_chunks() {
    let long: Vec<u8> = (0..(2 * CHUNK + 5)).map(|n| (n % 239) as u8).collect();
    let mut files = Files::new();
    files.insert("long".to_string(), long.clone());
    files.insert("empty".to_string(), Vec::new());
    let near = NfsTransport::new("host:2049", "/orders").leaving_files();
    let mut session = near.accept_one("peer:1", MAX_BODY).with_files(files);
    let mut events = Vec::new();
    let arrived = receive(&mut session, &mut events, near.receive(2 * CHUNK + 5));
    let arrived = arrived.expect("received");
    assert_eq!(arrived[0].origin_uri, "nfs://host:2049/orders/empty");
    assert_eq!(arrived[0].bytes, []);
    assert_eq!(arrived[1].bytes, long);
    let read = |name: &str| {
        let read = Event::Read(name.to_string());
        events.iter().filter(|event| **event == read).count()
    };
    assert_eq!(read("long"), 3);
    assert_eq!(read("empty"), 1);
    assert_eq!(record_limit(10), 65_546);
    assert_eq!(record_limit(usize::MAX), usize::MAX);
}
