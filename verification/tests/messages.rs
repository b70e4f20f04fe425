//! Arguments, results, calls, replies and the records that carry them.

use nfs::cursor::Cursor;
use nfs::error::TransportError;
use nfs::mount;
use nfs::procedure::{
    commit_args, commit_ok, create_args, dir_args, handle_ok, put_failure, read_args, read_ok,
    readdir_args, readdir_ok, remove_ok, take_commit_args, take_dir_args, take_done, take_handle,
    take_read, take_read_args, take_readdir, take_readdir_args, take_write, take_write_args,
    write_args, write_ok, CREATE, LOOKUP, READ, WRITE,
};
use nfs::rpc::{
    self, read_record, write_record, Call, Outcome, RecordReader, Reply, LAST_FRAGMENT,
    MSG_DENIED, NFS_PROGRAM, NFS_VERSION, REPLY,
};
use nfs::status::{expect_ok, status_error, ACCES, FBIG, JUKEBOX, NOENT, OK, STALE};
use nfs::writer::ByteWriter;
use nfs::xdr::XdrWrite;
use nfs::{Handle, Unix};

#[test]
fn a_status_names_its_failure_and_only_the_jukebox_is_retryable() {
    let missing = status_error("reading", NOENT);
    assert_eq!(
        missing.message,
        "reading: NFS status 2, no such file or directory"
    );
    assert!(!missing.retryable);
    assert!(status_error("writing", JUKEBOX).retryable);
    assert!(status_error("x", 999).message.ends_with("an error"));
    expect_ok(&mut Cursor::new(&[0, 0, 0, 0]), "ok").expect("ok");
    assert!(expect_ok(&mut Cursor::new(&[0, 0, 0, 13]), "no").is_err());
}

#[test]
fn every_status_has_its_own_words() {
    for (status, words) in [
        (1, "not permitted"),
        (NOENT, "no such file or directory"),
        (5, "an I/O error"),
        (ACCES, "access denied"),
        (17, "it exists already"),
        (20, "not a directory"),
        (21, "a directory"),
        (FBIG, "too big a file"),
        (28, "no space left"),
        (30, "a read-only file system"),
        (STALE, "a stale file handle"),
        (10001, "a bad file handle"),
        (10004, "not supported"),
        (JUKEBOX, "try again later"),
        (77, "an error"),
    ] {
        let error = status_error("x", status);
        assert_eq!(error.message, format!("x: NFS status {status}, {words}"));
        assert_eq!(error.retryable, status == JUKEBOX);
    }
}

#[test]
fn a_mount_names_its_export_and_answers_with_the_root_or_an_errno() {
    assert_eq!(
        mount::take_args(&mount::args("/orders")).expect("path"),
        "/orders"
    );
    let root = Handle(vec![0]);
    assert_eq!(mount::take(&mount::ok(&root)).expect("root"), root);
    let error = mount::take(&mount::failure(ACCES)).expect_err("refused");
    assert!(error.message.contains("access denied"), "{}", error.message);
    let mut long: Vec<u8> = Vec::new();
    long.u32_be(OK);
    long.opaque(&[1; 65]);
    assert!(mount::take(&long).is_err(), "over sixty-four bytes");
}

#[test]
fn every_argument_reads_back_and_every_result_yields_what_it_carries() {
    let dir = Handle(vec![0]);
    let file = Handle(b"orders/1.edi".to_vec());
    assert_eq!(
        take_dir_args(&create_args(&dir, "a")).expect("create"),
        (dir.clone(), "a".to_string())
    );
    assert_eq!(
        take_handle(&handle_ok(&file, CREATE), CREATE).expect("created"),
        file
    );
    assert_eq!(
        take_handle(&handle_ok(&file, LOOKUP), LOOKUP).expect("found"),
        file
    );
    assert_eq!(
        take_read_args(&read_args(&file, 8, 16)).expect("read"),
        (file.clone(), 8, 16)
    );
    assert_eq!(
        take_read(&read_ok(b"abc", true)).expect("data"),
        (b"abc".to_vec(), true)
    );
    assert_eq!(
        take_write_args(&write_args(&file, 4, b"xy")).expect("write"),
        (file.clone(), 4, b"xy".to_vec())
    );
    assert_eq!(take_write(&write_ok(2, [7; 8])).expect("count"), 2);
    assert_eq!(take_commit_args(&commit_args(&file)).expect("commit"), file);
    take_done(&commit_ok([0; 8]), "committing").expect("committed");
    take_done(&remove_ok(), "removing").expect("removed");
    assert_eq!(
        take_readdir_args(&readdir_args(&dir, 4096)).expect("dir"),
        dir
    );
    let names = vec![".".to_string(), "b".to_string(), "a".to_string()];
    assert_eq!(
        take_readdir(&readdir_ok(&names)).expect("names"),
        ["b", "a"]
    );
}

#[test]
fn a_failure_names_its_status_and_only_the_jukebox_is_retryable() {
    let error = take_handle(&put_failure(NOENT, LOOKUP), LOOKUP).expect_err("missing");
    assert!(error.message.contains("no such file"), "{}", error.message);
    assert!(!error.retryable);
    assert!(
        take_write(&put_failure(JUKEBOX, WRITE))
            .expect_err("later")
            .retryable
    );
    assert!(
        take_handle(&[0, 0, 0, 0, 0, 0, 0, 0], CREATE).is_err(),
        "no handle"
    );
    assert_eq!(put_failure(STALE, READ).len(), 8);
    assert_eq!(put_failure(STALE, WRITE).len(), 12);
}

#[test]
fn messages_are_these_bytes() {
    let file = Handle(b"f".to_vec());
    assert_eq!(
        dir_args(&Handle(vec![0]), "ab"),
        [0, 0, 0, 1, 0, 0, 0, 0, 0, 0, 0, 2, b'a', b'b', 0, 0]
    );
    assert_eq!(
        write_args(&file, 4, b"xy"),
        [
            0, 0, 0, 1, b'f', 0, 0, 0, 0, 0, 0, 0, 0, 0, 0, 4, 0, 0, 0, 2, 0, 0, 0, 2, 0, 0, 0,
            2, b'x', b'y', 0, 0
        ]
    );
    assert_eq!(
        read_ok(b"abc", true),
        [
            0, 0, 0, 0, 0, 0, 0, 0, 0, 0, 0, 3, 0, 0, 0, 1, 0, 0, 0, 3, b'a', b'b', b'c', 0
        ]
    );
    assert_eq!(remove_ok(), [0; 12]);
    assert_eq!(
        readdir_ok(&["a".to_string()]),
        [
            0, 0, 0, 0, 0, 0, 0, 0, 0, 0, 0, 0, 0, 0, 0, 0, 0, 0, 0, 1, 0, 0, 0, 0, 0, 0, 0, 2,
            0, 0, 0, 1, b'a', 0, 0, 0, 0, 0, 0, 0, 0, 0, 0, 1, 0, 0, 0, 0, 0, 0, 0, 1
        ]
    );
    assert_eq!(
        mount::ok(&Handle(vec![0])),
        [0, 0, 0, 0, 0, 0, 0, 1, 0, 0, 0, 0, 0, 0, 0, 1, 0, 0, 0, 1]
    );
}

#[test]
fn attributes_are_skipped_where_a_server_sends_them() {
    let mut read: Vec<u8> = Vec::new();
    read.u32_be(OK).bool(true).fixed(&[9; 84]).u32_be(3);
    read.bool(false).opaque(b"abc");
    assert_eq!(take_read(&read).expect("data"), (b"abc".to_vec(), false));
    let mut written: Vec<u8> = Vec::new();
    written.u32_be(OK).bool(true).fixed(&[9; 24]).bool(true);
    written.fixed(&[9; 84]).u32_be(5).u32_be(2).fixed(&[0; 8]);
    assert_eq!(take_write(&written).expect("count"), 5);
    let mut cut: Vec<u8> = Vec::new();
    cut.u32_be(OK).bool(true).fixed(&[9; 80]);
    assert!(take_read(&cut).is_err());
}

#[test]
fn a_listing_that_stops_short_is_refused() {
    let mut short = readdir_ok(&["a".to_string()]);
    let last = short.len() - 1;
    short[last] = 0;
    let error = take_readdir(&short).expect_err("no end");
    assert_eq!(error.message, "a directory longer than one listing");
    short.truncate(last - 7);
    assert!(take_readdir(&short).is_err(), "cut short");
}

#[test]
fn a_created_file_has_a_handle_of_up_to_sixty_four_bytes() {
    let most = Handle(vec![7; 64]);
    assert_eq!(
        take_handle(&handle_ok(&most, CREATE), CREATE).expect("fits"),
        most
    );
    let over = Handle(vec![7; 65]);
    let error = take_handle(&handle_ok(&over, CREATE), CREATE).expect_err("long");
    assert_eq!(error.message, "a file handle over sixty-four bytes");
    let mut bare: Vec<u8> = Vec::new();
    bare.u32_be(OK).bool(false);
    let error = take_handle(&bare, CREATE).expect_err("bare");
    assert_eq!(error.message, "the file was created without a handle");
}

#[test]
fn a_call_carries_its_unix_credentials_and_reads_back() {
    let call = Call {
        xid: 9,
        program: NFS_PROGRAM,
        version: NFS_VERSION,
        procedure: 6,
        credentials: Some(Unix::default()),
        arguments: vec![1, 2, 3, 4],
    };
    let bytes = call.to_bytes(&Unix::default());
    assert_eq!(Call::from_bytes(&bytes).expect("call"), call);
    assert!(Call::from_bytes(
        &Reply {
            xid: 9,
            outcome: Outcome::Success(vec![])
        }
        .to_bytes()
    )
    .is_err());
}

#[test]
fn a_record_that_is_no_call_says_so() {
    let call = Call {
        xid: 1,
        program: NFS_PROGRAM,
        version: NFS_VERSION,
        procedure: 0,
        credentials: None,
        arguments: Vec::new(),
    };
    let mut bytes = call.to_bytes(&Unix::default());
    assert_eq!(
        Reply::from_bytes(&bytes).expect_err("a call").message,
        "a call where a reply was expected"
    );
    bytes[11] = 3;
    assert_eq!(
        Call::from_bytes(&bytes).expect_err("version").message,
        "an RPC version other than 2"
    );
    bytes[7] = 1;
    assert_eq!(
        Call::from_bytes(&bytes).expect_err("a reply").message,
        "a reply where a call was expected"
    );
    bytes.truncate(10);
    assert!(Call::from_bytes(&bytes).is_err());
}

#[test]
fn a_caller_without_unix_credentials_has_none() {
    let mut bytes: Vec<u8> = Vec::new();
    bytes.u32_be(1).u32_be(rpc::CALL).u32_be(2);
    bytes.u32_be(NFS_PROGRAM).u32_be(3).u32_be(0);
    bytes.u32_be(0).opaque(&[]).u32_be(0).opaque(&[]);
    bytes.u32_be(5);
    let call = Call::from_bytes(&bytes).expect("call");
    assert_eq!(call.credentials, None);
    assert_eq!(call.arguments, [0, 0, 0, 5]);
    let presented = Unix {
        machine: "host".to_string(),
        uid: 7,
        gid: 8,
    };
    let read = Call::from_bytes(&call.to_bytes(&presented)).expect("call");
    assert_eq!(read.credentials, Some(presented));
}

#[test]
fn a_reply_is_accepted_or_says_why_not() {
    let good = Reply {
        xid: 9,
        outcome: Outcome::Success(vec![0, 0, 0, 0]),
    };
    let read = Reply::from_bytes(&good.to_bytes()).expect("reply");
    assert_eq!(read, good);
    assert_eq!(read.results().expect("results"), [0, 0, 0, 0]);
    for outcome in [
        Outcome::ProgramUnavailable,
        Outcome::ProgramMismatch { low: 3, high: 3 },
        Outcome::ProcedureUnavailable,
        Outcome::GarbageArguments,
    ] {
        let reply = Reply { xid: 1, outcome };
        let read = Reply::from_bytes(&reply.to_bytes()).expect("reply");
        assert_eq!(read, reply);
        assert!(!read.results().expect_err("not run").retryable);
    }
    let mut denied: Vec<u8> = Vec::new();
    denied.u32_be(1);
    denied.u32_be(REPLY);
    denied.u32_be(MSG_DENIED);
    denied.u32_be(1);
    denied.u32_be(2);
    let error = Reply::from_bytes(&denied).expect_err("denied");
    assert!(error.message.contains("status 2"), "{}", error.message);
}

fn refused(outcome: Outcome) -> String {
    Reply { xid: 1, outcome }.results().expect_err("not run").message
}

#[test]
fn every_reply_that_brings_nothing_has_its_own_words() {
    assert_eq!(
        refused(Outcome::ProgramUnavailable),
        "the server has no such program"
    );
    assert_eq!(
        refused(Outcome::ProgramMismatch { low: 2, high: 4 }),
        "the server speaks versions 2 to 4"
    );
    assert_eq!(
        refused(Outcome::ProcedureUnavailable),
        "the server has no such procedure"
    );
    assert_eq!(
        refused(Outcome::GarbageArguments),
        "the server could not read the call"
    );
    let words = |fields: &[u32]| {
        let mut reply: Vec<u8> = Vec::new();
        for field in fields {
            reply.u32_be(*field);
        }
        Reply::from_bytes(&reply).expect_err("no reply").message
    };
    assert_eq!(
        words(&[1, REPLY, MSG_DENIED, 0]),
        "the call was denied: the server speaks another RPC version"
    );
    assert_eq!(
        words(&[1, REPLY, MSG_DENIED, 1, 5]),
        "the call was denied: the credentials were refused, status 5"
    );
    assert_eq!(words(&[1, REPLY, 2]), "reply status 2");
    assert_eq!(words(&[1, REPLY, 0, 0, 0, 9]), "accept status 9");
    assert!(words(&[1, REPLY, MSG_DENIED]).contains("runs past"));
}

#[test]
fn a_record_crosses_in_fragments_and_a_closed_wire_is_none() {
    let mut wire = Vec::new();
    wire.extend_from_slice(&3u32.to_be_bytes());
    wire.extend_from_slice(b"abc");
    wire.extend_from_slice(&(2u32 | LAST_FRAGMENT).to_be_bytes());
    wire.extend_from_slice(b"de");
    let mut cursor = Cursor::new(&wire);
    assert_eq!(
        read_record(&mut cursor, 64).expect("record"),
        Some(b"abcde".to_vec())
    );
    assert_eq!(read_record(&mut cursor, 64).expect("closed"), None);
    assert!(
        read_record(&mut Cursor::new(&wire), 4).is_err(),
        "over the maximum"
    );
    let mut out = Vec::new();
    write_record(&mut out, b"xy").expect("written");
    assert_eq!(out, [0x80, 0, 0, 2, b'x', b'y']);
    assert!(
        read_record(&mut Cursor::new(&out[..5]), 64).is_err(),
        "cut mid-fragment"
    );
}

#[test]
fn a_record_is_read_in_the_pieces_it_owes() {
    let mut reader = RecordReader::new(8);
    assert_eq!(reader.owed(), 4);
    assert_eq!(reader.reading(), "reading a record mark");
    assert!(reader.closed_cleanly(0));
    assert!(!reader.closed_cleanly(2));
    assert_eq!(reader.take(&[0, 0, 0, 3]), Ok(None));
    assert_eq!(reader.owed(), 3);
    assert_eq!(reader.reading(), "reading a fragment");
    assert_eq!(reader.take(b"abc"), Ok(None));
    assert!(!reader.closed_cleanly(0));
    let over = reader.take(&[0, 0, 0, 6]).expect_err("nine of eight");
    assert_eq!(
        over,
        TransportError {
            message: "a record over the 8 bytes read here".to_string(),
            retryable: false
        }
    );
    assert_eq!(reader.take(&[0x80, 0, 0, 1]), Ok(None));
    assert_eq!(reader.take(b"d"), Ok(Some(b"abcd".to_vec())));
    assert!(reader.closed_cleanly(0), "ready for the next");
    assert_eq!(reader.take(&[0x80, 0, 0, 0]), Ok(None));
    assert_eq!(reader.take(&[]), Ok(Some(Vec::new())));
}

#[test]
fn fragments_count_together_and_the_mark_past_the_most_is_the_last_read() {
    let mut wire = Vec::new();
    for fragment in [&b"abc"[..], b"de", b"fgh"] {
        wire.extend_from_slice(&(fragment.len() as u32).to_be_bytes());
        wire.extend_from_slice(fragment);
    }
    let mut cursor = Cursor::new(&wire);
    let error = read_record(&mut cursor, 7).expect_err("eight of seven");
    assert_eq!(error.message, "a record over the 7 bytes read here");
    assert_eq!(cursor.position(), 17, "past the third mark");
    let mut cursor = Cursor::new(&wire);
    let error = read_record(&mut cursor, 64).expect_err("no last fragment");
    assert_eq!(error.message, "reading a record mark: the wire ended");
    assert!(cursor.is_empty());
    wire[13] |= 0x80;
    let mut cursor = Cursor::new(&wire);
    assert_eq!(read_record(&mut cursor, 8), Ok(Some(b"abcdefgh".to_vec())));
    for end in [7, 8, 12, 15, 19] {
        assert!(read_record(&mut Cursor::new(&wire[..end]), 8).is_err());
    }
}

#[test]
fn a_wire_that_ends_within_a_record_is_not_closed() {
    let mut wire = Vec::new();
    write_record(&mut wire, b"abc").expect("written");
    for end in 1..wire.len() {
        let mut cursor = Cursor::new(&wire[..end]);
        let error = read_record(&mut cursor, 64).expect_err("cut");
        let reading = if end < 4 { "a record mark" } else { "a fragment" };
        assert_eq!(error.message, format!("reading {reading}: the wire ended"));
        assert!(cursor.is_empty(), "read to where it was cut");
    }
    wire.push(7);
    let mut cursor = Cursor::new(&wire);
    assert_eq!(read_record(&mut cursor, 3), Ok(Some(b"abc".to_vec())));
    assert_eq!(cursor.remaining(), &[7]);
}
