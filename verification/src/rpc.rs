//! ONC RPC version 2 (RFC 5531) as it goes over TCP: a record of fragments
//! each marked with its length and whether it is the last, a call naming a
//! program, a version and a procedure with the caller's credentials, and the
//! reply that accepts or denies it. `AUTH_UNIX` is the credential a mount
//! presents: a machine name, a user and a group. The verifier is `AUTH_NULL`
//! both ways.

use vstd::prelude::*;
use vstd::slice::slice_to_vec;
#[allow(unused_imports)]
use vstd::utf8;

#[allow(unused_imports)]
use crate::cursor;
use crate::cursor::Cursor;
#[allow(unused_imports)]
use crate::error::{self, Failure};
use crate::error::{protocol_error, Result, TransportError};
#[allow(unused_imports)]
use crate::procedure::Carried;
use crate::text;
#[allow(unused_imports)]
use crate::writer;
use crate::writer::ByteWriter;
#[allow(unused_imports)]
use crate::xdr;
use crate::xdr::{Xdr, XdrWrite};

verus! {

/// The NFS program, and the version spoken here.
pub const NFS_PROGRAM: u32 = 100_003;

/// NFS version 3.
pub const NFS_VERSION: u32 = 3;

/// The mount program, and the version that hands out version 3 handles.
pub const MOUNT_PROGRAM: u32 = 100_005;

/// Mount version 3.
pub const MOUNT_VERSION: u32 = 3;

/// The RPC version every call names.
pub const RPC_VERSION: u32 = 2;

/// The message is a call.
pub const CALL: u32 = 0;

/// The message is a reply.
pub const REPLY: u32 = 1;

/// The call was accepted.
pub const MSG_ACCEPTED: u32 = 0;

/// The call was denied.
pub const MSG_DENIED: u32 = 1;

/// No credentials.
pub const AUTH_NULL: u32 = 0;

/// Credentials of a machine, a user and a group.
pub const AUTH_UNIX: u32 = 1;

/// The mark of a record's last fragment, beside its length.
pub const LAST_FRAGMENT: u32 = 0x8000_0000;

/// `AUTH_UNIX` credentials: who the caller says it is.
#[derive(Debug, PartialEq, Eq)]
pub struct Unix {
    pub machine: String,
    pub uid: u32,
    pub gid: u32,
}

/// [`Unix`] as a mathematical value.
pub struct UnixView {
    pub machine: Seq<char>,
    pub uid: u32,
    pub gid: u32,
}

impl View for Unix {
    type V = UnixView;

    open spec fn view(&self) -> UnixView {
        UnixView { machine: self.machine@, uid: self.uid, gid: self.gid }
    }
}

impl Clone for Unix {
    fn clone(&self) -> (copy: Self)
        ensures
            copy@ == self@,
    {
        Unix { machine: self.machine.clone(), uid: self.uid, gid: self.gid }
    }
}

impl Default for Unix {
    /// Root on a machine called `xmip`, which is what a mount presents.
    fn default() -> (unix: Self)
        ensures
            unix@ == (UnixView { machine: "xmip"@, uid: 0, gid: 0 }),
    {
        Unix { machine: "xmip".to_owned(), uid: 0, gid: 0 }
    }
}

/// One call: which procedure of which program, and its arguments.
#[derive(Clone, Debug, PartialEq, Eq)]
pub struct Call {
    pub xid: u32,
    pub program: u32,
    pub version: u32,
    pub procedure: u32,
    /// The caller's credentials where they were `AUTH_UNIX`.
    pub credentials: Option<Unix>,
    pub arguments: Vec<u8>,
}

/// [`Call`] as a mathematical value.
pub struct CallView {
    pub xid: u32,
    pub program: u32,
    pub version: u32,
    pub procedure: u32,
    pub credentials: Option<UnixView>,
    pub arguments: Seq<u8>,
}

impl View for Call {
    type V = CallView;

    open spec fn view(&self) -> CallView {
        CallView {
            xid: self.xid,
            program: self.program,
            version: self.version,
            procedure: self.procedure,
            credentials: match self.credentials {
                Some(unix) => Some(unix@),
                None => None,
            },
            arguments: self.arguments@,
        }
    }
}

/// The body of an `AUTH_UNIX` credential: no stamp, the machine, the user,
/// the group and no others.
pub open spec fn unix_bytes(unix: UnixView) -> Seq<u8> {
    writer::u32_bytes(0) + xdr::string_bytes(unix.machine) + writer::u32_bytes(unix.uid)
        + writer::u32_bytes(unix.gid) + writer::u32_bytes(0)
}

/// What opens a call: its id, that it is a call, the RPC version, and which
/// procedure of which version of which program.
pub open spec fn call_head(call: CallView) -> Seq<u8> {
    writer::u32_bytes(call.xid) + writer::u32_bytes(CALL) + writer::u32_bytes(RPC_VERSION)
        + writer::u32_bytes(call.program) + writer::u32_bytes(call.version) + writer::u32_bytes(
        call.procedure,
    )
}

/// The call message: its head, `credentials` as `AUTH_UNIX`, the verifier
/// `AUTH_NULL`, and the arguments.
pub open spec fn call_bytes(call: CallView, credentials: UnixView) -> Seq<u8> {
    call_head(call) + writer::u32_bytes(AUTH_UNIX) + xdr::opaque_bytes(unix_bytes(credentials))
        + writer::u32_bytes(AUTH_NULL) + xdr::opaque_bytes(Seq::empty()) + call.arguments
}

/// The credentials in the body of an `AUTH_UNIX` credential.
pub open spec fn parse_unix(body: Seq<u8>) -> Carried<UnixView> {
    match cursor::read_u32(body) {
        Ok((_, rest)) => match xdr::read_string(rest) {
            Ok((machine, rest)) => match cursor::read_u32(rest) {
                Ok((uid, rest)) => match cursor::read_u32(rest) {
                    Ok((gid, _)) => Ok(UnixView { machine, uid, gid }),
                    Err(failure) => Err(failure),
                },
                Err(failure) => Err(failure),
            },
            Err(failure) => Err(failure),
        },
        Err(failure) => Err(failure),
    }
}

/// The credentials of a flavor, where that is `AUTH_UNIX`.
pub open spec fn parse_credentials(flavor: u32, body: Seq<u8>) -> Carried<Option<UnixView>> {
    if flavor == AUTH_UNIX {
        match parse_unix(body) {
            Ok(unix) => Ok(Some(unix)),
            Err(failure) => Err(failure),
        }
    } else {
        Ok(None)
    }
}

/// What follows a credential or a verifier that is not looked at.
pub open spec fn past_auth(bytes: Seq<u8>) -> Carried<Seq<u8>> {
    match cursor::read_u32(bytes) {
        Ok((_, rest)) => match xdr::read_opaque(rest) {
            Ok((_, rest)) => Ok(rest),
            Err(failure) => Err(failure),
        },
        Err(failure) => Err(failure),
    }
}

/// Three integers in a row, and what follows them.
pub open spec fn read_three(bytes: Seq<u8>) -> cursor::Read<(u32, u32, u32)> {
    match cursor::read_u32(bytes) {
        Ok((first, rest)) => match cursor::read_u32(rest) {
            Ok((second, rest)) => match cursor::read_u32(rest) {
                Ok((third, rest)) => Ok(((first, second, third), rest)),
                Err(failure) => Err(failure),
            },
            Err(failure) => Err(failure),
        },
        Err(failure) => Err(failure),
    }
}

/// The call that what follows the RPC version carries.
pub open spec fn parse_call_body(xid: u32, bytes: Seq<u8>) -> Carried<CallView> {
    match read_three(bytes) {
        Ok(((program, version, procedure), rest)) => match cursor::read_u32(rest) {
            Ok((flavor, rest)) => match xdr::read_opaque(rest) {
                Ok((body, rest)) => match parse_credentials(flavor, body) {
                    Ok(credentials) => match past_auth(rest) {
                        Ok(arguments) => Ok(
                            CallView { xid, program, version, procedure, credentials, arguments },
                        ),
                        Err(failure) => Err(failure),
                    },
                    Err(failure) => Err(failure),
                },
                Err(failure) => Err(failure),
            },
            Err(failure) => Err(failure),
        },
        Err(failure) => Err(failure),
    }
}

/// The call a record carries.
pub open spec fn parse_call(record: Seq<u8>) -> Carried<CallView> {
    match cursor::read_u32(record) {
        Ok((xid, rest)) => match cursor::read_u32(rest) {
            Ok((kind, rest)) => if kind != CALL {
                Err(error::permanent_failure("a reply where a call was expected"@))
            } else {
                match cursor::read_u32(rest) {
                    Ok((version, rest)) => if version != RPC_VERSION {
                        Err(error::permanent_failure("an RPC version other than 2"@))
                    } else {
                        parse_call_body(xid, rest)
                    },
                    Err(failure) => Err(failure),
                }
            },
            Err(failure) => Err(failure),
        },
        Err(failure) => Err(failure),
    }
}

/// Where an `AUTH_UNIX` body reads as credentials.
fn take_unix(body: &[u8]) -> (taken: Result<Unix>)
    ensures
        match parse_unix(body@) {
            Ok(unix) => taken is Ok && taken->Ok_0@ == unix,
            Err(failure) => taken is Err && taken->Err_0@ == failure,
        },
{
    let mut reader = Cursor::new(body);
    reader.u32_be()?;
    let machine = reader.string()?;
    let uid = reader.u32_be()?;
    let gid = reader.u32_be()?;
    Ok(Unix { machine, uid, gid })
}

impl Call {
    /// The call message, `credentials` as `AUTH_UNIX` and the verifier
    /// `AUTH_NULL`.
    #[must_use]
    pub fn to_bytes(&self, credentials: &Unix) -> (out: Vec<u8>)
        ensures
            out@ == call_bytes(self@, credentials@),
    {
        let mut out = Vec::new();
        out.u32_be(self.xid);
        assert(out@ =~= writer::u32_bytes(self.xid));
        out.u32_be(CALL);
        out.u32_be(RPC_VERSION);
        out.u32_be(self.program);
        out.u32_be(self.version);
        out.u32_be(self.procedure);
        let mut body = Vec::new();
        body.u32_be(0);
        assert(body@ =~= writer::u32_bytes(0));
        body.string(credentials.machine.as_str());
        body.u32_be(credentials.uid);
        body.u32_be(credentials.gid);
        body.u32_be(0);
        out.u32_be(AUTH_UNIX);
        out.opaque(body.as_slice());
        out.u32_be(AUTH_NULL);
        let nothing: [u8; 0] = [];
        assert(nothing@ =~= Seq::empty());
        out.opaque(nothing.as_slice());
        let ghost head = out@;
        out.extend_from_slice(self.arguments.as_slice());
        assert(out@ =~= head + self.arguments@);
        out
    }

    /// The call a record carries.
    ///
    /// # Errors
    /// Where the record is not a version 2 call.
    pub fn from_bytes(record: &[u8]) -> (taken: Result<Self>)
        ensures
            match parse_call(record@) {
                Ok(call) => taken is Ok && taken->Ok_0@ == call,
                Err(failure) => taken is Err && taken->Err_0@ == failure,
            },
    {
        let mut reader = Cursor::new(record);
        let xid = reader.u32_be()?;
        if reader.u32_be()? != CALL {
            return Err(protocol_error("a reply where a call was expected"));
        }
        if reader.u32_be()? != RPC_VERSION {
            return Err(protocol_error("an RPC version other than 2"));
        }
        let program = reader.u32_be()?;
        let version = reader.u32_be()?;
        let procedure = reader.u32_be()?;
        let flavor = reader.u32_be()?;
        let body = reader.opaque()?;
        let credentials = if flavor == AUTH_UNIX {
            Some(take_unix(body)?)
        } else {
            None
        };
        reader.u32_be()?;
        reader.opaque()?;
        Ok(
            Call {
                xid,
                program,
                version,
                procedure,
                credentials,
                arguments: slice_to_vec(reader.remaining()),
            },
        )
    }
}

/// How a call was answered.
#[derive(Clone, Debug, PartialEq, Eq)]
pub enum Outcome {
    /// Accepted and run; here are the results.
    Success(Vec<u8>),
    /// No such program here.
    ProgramUnavailable,
    /// The program is here in these versions.
    ProgramMismatch { low: u32, high: u32 },
    /// No such procedure in the program.
    ProcedureUnavailable,
    /// The arguments could not be read.
    GarbageArguments,
}

/// [`Outcome`] as a mathematical value.
pub enum OutcomeView {
    Success(Seq<u8>),
    ProgramUnavailable,
    ProgramMismatch { low: u32, high: u32 },
    ProcedureUnavailable,
    GarbageArguments,
}

impl View for Outcome {
    type V = OutcomeView;

    open spec fn view(&self) -> OutcomeView {
        match *self {
            Outcome::Success(results) => OutcomeView::Success(results@),
            Outcome::ProgramUnavailable => OutcomeView::ProgramUnavailable,
            Outcome::ProgramMismatch { low, high } => OutcomeView::ProgramMismatch { low, high },
            Outcome::ProcedureUnavailable => OutcomeView::ProcedureUnavailable,
            Outcome::GarbageArguments => OutcomeView::GarbageArguments,
        }
    }
}

/// The reply to one call.
#[derive(Clone, Debug, PartialEq, Eq)]
pub struct Reply {
    pub xid: u32,
    pub outcome: Outcome,
}

/// [`Reply`] as a mathematical value.
pub struct ReplyView {
    pub xid: u32,
    pub outcome: OutcomeView,
}

impl View for Reply {
    type V = ReplyView;

    open spec fn view(&self) -> ReplyView {
        ReplyView { xid: self.xid, outcome: self.outcome@ }
    }
}

/// How a call was answered, as the reply says it.
pub open spec fn outcome_bytes(outcome: OutcomeView) -> Seq<u8> {
    match outcome {
        OutcomeView::Success(results) => writer::u32_bytes(0) + results,
        OutcomeView::ProgramUnavailable => writer::u32_bytes(1),
        OutcomeView::ProgramMismatch { low, high } => writer::u32_bytes(2) + writer::u32_bytes(low)
            + writer::u32_bytes(high),
        OutcomeView::ProcedureUnavailable => writer::u32_bytes(3),
        OutcomeView::GarbageArguments => writer::u32_bytes(4),
    }
}

/// The reply message, accepted with an `AUTH_NULL` verifier.
pub open spec fn reply_bytes(reply: ReplyView) -> Seq<u8> {
    writer::u32_bytes(reply.xid) + writer::u32_bytes(REPLY) + writer::u32_bytes(MSG_ACCEPTED)
        + writer::u32_bytes(AUTH_NULL) + xdr::opaque_bytes(Seq::empty()) + outcome_bytes(
        reply.outcome,
    )
}

/// How a call was answered, read from where the reply says it.
pub open spec fn parse_outcome(bytes: Seq<u8>) -> Carried<OutcomeView> {
    match cursor::read_u32(bytes) {
        Ok((answer, rest)) => if answer == 0 {
            Ok(OutcomeView::Success(rest))
        } else if answer == 1 {
            Ok(OutcomeView::ProgramUnavailable)
        } else if answer == 2 {
            match cursor::read_u32(rest) {
                Ok((low, rest)) => match cursor::read_u32(rest) {
                    Ok((high, _)) => Ok(OutcomeView::ProgramMismatch { low, high }),
                    Err(failure) => Err(failure),
                },
                Err(failure) => Err(failure),
            }
        } else if answer == 3 {
            Ok(OutcomeView::ProcedureUnavailable)
        } else if answer == 4 {
            Ok(OutcomeView::GarbageArguments)
        } else {
            Err(error::permanent_failure("accept status "@ + text::decimal(answer as nat)))
        },
        Err(failure) => Err(failure),
    }
}

/// Why a denied call was denied.
pub open spec fn denial(bytes: Seq<u8>) -> Failure {
    match cursor::read_u32(bytes) {
        Ok((reason, rest)) => if reason == 0 {
            error::permanent_failure(
                "the call was denied: "@ + "the server speaks another RPC version"@,
            )
        } else {
            match cursor::read_u32(rest) {
                Ok((why, _)) => error::permanent_failure(
                    "the call was denied: "@ + ("the credentials were refused, status "@
                        + text::decimal(why as nat)),
                ),
                Err(failure) => failure,
            }
        },
        Err(failure) => failure,
    }
}

/// The reply a record carries.
pub open spec fn parse_reply(record: Seq<u8>) -> Carried<ReplyView> {
    match cursor::read_u32(record) {
        Ok((xid, rest)) => match cursor::read_u32(rest) {
            Ok((kind, rest)) => if kind != REPLY {
                Err(error::permanent_failure("a call where a reply was expected"@))
            } else {
                match cursor::read_u32(rest) {
                    Ok((accepted, rest)) => if accepted == MSG_ACCEPTED {
                        match past_auth(rest) {
                            Ok(rest) => match parse_outcome(rest) {
                                Ok(outcome) => Ok(ReplyView { xid, outcome }),
                                Err(failure) => Err(failure),
                            },
                            Err(failure) => Err(failure),
                        }
                    } else if accepted == MSG_DENIED {
                        Err(denial(rest))
                    } else {
                        Err(
                            error::permanent_failure(
                                "reply status "@ + text::decimal(accepted as nat),
                            ),
                        )
                    },
                    Err(failure) => Err(failure),
                }
            },
            Err(failure) => Err(failure),
        },
        Err(failure) => Err(failure),
    }
}

/// The results of a call, or why there are none.
pub open spec fn results_of(outcome: OutcomeView) -> Carried<Seq<u8>> {
    match outcome {
        OutcomeView::Success(results) => Ok(results),
        OutcomeView::ProgramUnavailable => Err(
            error::permanent_failure("the server has no such program"@),
        ),
        OutcomeView::ProgramMismatch { low, high } => Err(
            error::permanent_failure(
                "the server speaks versions "@ + text::decimal(low as nat) + " to "@
                    + text::decimal(high as nat),
            ),
        ),
        OutcomeView::ProcedureUnavailable => Err(
            error::permanent_failure("the server has no such procedure"@),
        ),
        OutcomeView::GarbageArguments => Err(
            error::permanent_failure("the server could not read the call"@),
        ),
    }
}

/// `before` and then `value` in decimal.
fn numbered(before: &str, value: u32) -> (text: String)
    ensures
        text@ == before@ + text::decimal(value as nat),
{
    let mut message = before.to_owned();
    message.append(text::number(value as u64).as_str());
    message
}

/// Why a denied call was denied.
fn denied(reader: &mut Cursor<'_>) -> (error: TransportError)
    ensures
        error@ == denial(old(reader)@),
{
    let reason = match reader.u32_be() {
        Ok(0) => "the server speaks another RPC version".to_owned(),
        Ok(_) => match reader.u32_be() {
            Ok(why) => numbered("the credentials were refused, status ", why),
            Err(error) => {
                return error;
            },
        },
        Err(error) => {
            return error;
        },
    };
    let mut message = "the call was denied: ".to_owned();
    message.append(reason.as_str());
    TransportError::permanent(message)
}

impl Reply {
    /// The reply message, accepted with an `AUTH_NULL` verifier.
    #[must_use]
    pub fn to_bytes(&self) -> (out: Vec<u8>)
        ensures
            out@ == reply_bytes(self@),
    {
        let mut out = Vec::new();
        out.u32_be(self.xid);
        assert(out@ =~= writer::u32_bytes(self.xid));
        out.u32_be(REPLY);
        out.u32_be(MSG_ACCEPTED);
        out.u32_be(AUTH_NULL);
        let nothing: [u8; 0] = [];
        assert(nothing@ =~= Seq::empty());
        out.opaque(nothing.as_slice());
        let ghost head = out@;
        match &self.outcome {
            Outcome::Success(results) => {
                out.u32_be(0);
                out.extend_from_slice(results.as_slice());
            },
            Outcome::ProgramUnavailable => {
                out.u32_be(1);
            },
            Outcome::ProgramMismatch { low, high } => {
                out.u32_be(2);
                out.u32_be(*low);
                out.u32_be(*high);
            },
            Outcome::ProcedureUnavailable => {
                out.u32_be(3);
            },
            Outcome::GarbageArguments => {
                out.u32_be(4);
            },
        }
        assert(out@ =~= head + outcome_bytes(self.outcome@));
        out
    }

    /// The reply a record carries.
    ///
    /// # Errors
    /// Where the record is not a reply, or the call was denied.
    pub fn from_bytes(record: &[u8]) -> (taken: Result<Self>)
        ensures
            match parse_reply(record@) {
                Ok(reply) => taken is Ok && taken->Ok_0@ == reply,
                Err(failure) => taken is Err && taken->Err_0@ == failure,
            },
    {
        let mut reader = Cursor::new(record);
        let xid = reader.u32_be()?;
        if reader.u32_be()? != REPLY {
            return Err(protocol_error("a call where a reply was expected"));
        }
        match reader.u32_be()? {
            MSG_ACCEPTED => {},
            MSG_DENIED => {
                return Err(denied(&mut reader));
            },
            other => {
                return Err(TransportError::permanent(numbered("reply status ", other)));
            },
        }
        reader.u32_be()?;
        reader.opaque()?;
        let outcome = match reader.u32_be()? {
            0 => Outcome::Success(slice_to_vec(reader.remaining())),
            1 => Outcome::ProgramUnavailable,
            2 => {
                let low = reader.u32_be()?;
                let high = reader.u32_be()?;
                Outcome::ProgramMismatch { low, high }
            },
            3 => Outcome::ProcedureUnavailable,
            4 => Outcome::GarbageArguments,
            other => {
                return Err(TransportError::permanent(numbered("accept status ", other)));
            },
        };
        Ok(Reply { xid, outcome })
    }

    /// The results, or why there are none.
    ///
    /// # Errors
    /// Where the call was accepted but not run.
    pub fn results(self) -> (results: Result<Vec<u8>>)
        ensures
            match results_of(self@.outcome) {
                Ok(bytes) => results is Ok && results->Ok_0@ == bytes,
                Err(failure) => results is Err && results->Err_0@ == failure,
            },
    {
        match self.outcome {
            Outcome::Success(results) => Ok(results),
            Outcome::ProgramUnavailable => Err(protocol_error("the server has no such program")),
            Outcome::ProgramMismatch { low, high } => {
                let mut message = numbered("the server speaks versions ", low);
                message.append(" to ");
                message.append(text::number(high as u64).as_str());
                Err(TransportError::permanent(message))
            },
            Outcome::ProcedureUnavailable => Err(
                protocol_error("the server has no such procedure"),
            ),
            Outcome::GarbageArguments => Err(protocol_error("the server could not read the call")),
        }
    }
}

/// A message as one record of one last fragment.
pub open spec fn record_bytes(message: Seq<u8>) -> Seq<u8> {
    fragment_bytes(message, true)
}

/// One fragment of a record: its length, marked where it is the last, and
/// its bytes.
pub open spec fn fragment_bytes(fragment: Seq<u8>, last: bool) -> Seq<u8> {
    writer::u32_bytes(
        (fragment.len() + if last {
            LAST_FRAGMENT as int
        } else {
            0
        }) as u32,
    ) + fragment
}

/// Write `message` at the end of `wire` as one record of one last fragment.
///
/// # Errors
/// Where the message is longer than a fragment can say; then nothing is
/// written.
pub fn write_record(wire: &mut Vec<u8>, message: &[u8]) -> (written: Result<()>)
    ensures
        message@.len() < LAST_FRAGMENT ==> written is Ok && final(wire)@ == old(wire)@
            + record_bytes(message@),
        message@.len() >= LAST_FRAGMENT ==> written is Err && written->Err_0@
            == error::permanent_failure("a record longer than a fragment can say"@) && final(wire)@
            == old(wire)@,
{
    if message.len() >= LAST_FRAGMENT as usize {
        return Err(protocol_error("a record longer than a fragment can say"));
    }
    wire.u32_be(message.len() as u32 + LAST_FRAGMENT);
    let ghost marked = wire@;
    wire.extend_from_slice(message);
    assert(wire@ =~= marked + message@);
    assert(wire@ =~= old(wire)@ + record_bytes(message@));
    Ok(())
}

/// What the wire owes next.
#[derive(Clone, Copy, Debug, PartialEq, Eq)]
pub enum Wanted {
    /// The four bytes that mark a fragment.
    Mark,
    /// A fragment of so many bytes, the last of its record or not.
    Fragment { length: usize, last: bool },
}

/// A record being read, fragment by fragment until the last.
pub struct RecordReader {
    record: Vec<u8>,
    max: usize,
    begun: bool,
    wanted: Wanted,
}

/// [`RecordReader`] as a mathematical value.
pub struct RecordView {
    /// The fragments read so far, put together.
    pub record: Seq<u8>,
    /// The most bytes a record may have.
    pub max: nat,
    /// Whether any of the record has been read.
    pub begun: bool,
    /// What the wire owes next.
    pub wanted: Wanted,
}

impl View for RecordReader {
    type V = RecordView;

    closed spec fn view(&self) -> RecordView {
        RecordView {
            record: self.record@,
            max: self.max as nat,
            begun: self.begun,
            wanted: self.wanted,
        }
    }
}

/// A record none of which has been read.
pub open spec fn unread_record(max: nat) -> RecordView {
    RecordView { record: Seq::empty(), max, begun: false, wanted: Wanted::Mark }
}

/// How many bytes the wire owes next.
pub open spec fn owed(wanted: Wanted) -> nat {
    match wanted {
        Wanted::Mark => 4,
        Wanted::Fragment { length, .. } => length as nat,
    }
}

/// What is being read, in words, while the wire owes this.
pub open spec fn reading_of(wanted: Wanted) -> Seq<char> {
    match wanted {
        Wanted::Mark => "reading a record mark"@,
        Wanted::Fragment { .. } => "reading a fragment"@,
    }
}

/// What is said of a wire that ends while it owes this.
pub open spec fn cut_short(wanted: Wanted) -> Failure {
    error::permanent_failure(reading_of(wanted) + ": the wire ended"@)
}

/// Where the bytes that were owed leave the record: read to its end, with
/// more to come, or over what is read here.
pub open spec fn after_owed(state: RecordView, bytes: Seq<u8>) -> Carried<
    (RecordView, Option<Seq<u8>>),
> {
    match state.wanted {
        Wanted::Mark => {
            let mark = cursor::u32_of(bytes);
            let length = mark % LAST_FRAGMENT;
            if state.record.len() + length > state.max {
                Err(over_long(state.max))
            } else {
                let wanted = Wanted::Fragment {
                    length: length as usize,
                    last: mark >= LAST_FRAGMENT,
                };
                Ok((RecordView { begun: true, wanted, ..state }, None))
            }
        },
        Wanted::Fragment { last, .. } => {
            let record = state.record + bytes;
            if last {
                Ok((unread_record(state.max), Some(record)))
            } else {
                Ok((RecordView { record, wanted: Wanted::Mark, ..state }, None))
            }
        },
    }
}

impl RecordReader {
    #[verifier::type_invariant]
    spec fn well_formed(self) -> bool {
        match self.wanted {
            Wanted::Mark => self.record@.len() <= self.max,
            Wanted::Fragment { length, .. } => self.record@.len() + length <= self.max,
        }
    }

    /// A record of at most `max` bytes, none of them read yet.
    pub fn new(max: usize) -> (reader: Self)
        ensures
            reader@ == unread_record(max as nat),
    {
        let reader = RecordReader {
            record: Vec::new(),
            max,
            begun: false,
            wanted: Wanted::Mark,
        };
        assert(reader.record@ =~= Seq::empty());
        reader
    }

    /// How many bytes to read next.
    pub fn owed(&self) -> (count: usize)
        ensures
            count == owed(self@.wanted),
    {
        match self.wanted {
            Wanted::Mark => 4,
            Wanted::Fragment { length, .. } => length,
        }
    }

    /// What is being read, for a message about a connection that broke.
    pub fn reading(&self) -> (what: &'static str)
        ensures
            what@ == reading_of(self@.wanted),
    {
        match self.wanted {
            Wanted::Mark => "reading a record mark",
            Wanted::Fragment { .. } => "reading a fragment",
        }
    }

    /// Whether a connection that closes after `got` of the bytes owed closed
    /// cleanly: before a record began.
    pub fn closed_cleanly(&self, got: usize) -> (clean: bool)
        ensures
            clean == (!self@.begun && got == 0),
    {
        !self.begun && got == 0
    }

    /// Take the bytes that were owed; the record, where they were its last.
    ///
    /// # Errors
    /// Where the record would grow past what is read here; then nothing is
    /// taken.
    pub fn take(&mut self, bytes: &[u8]) -> (taken: Result<Option<Vec<u8>>>)
        requires
            bytes@.len() == owed(old(self)@.wanted),
        ensures
            match after_owed(old(self)@, bytes@) {
                Ok((state, record)) => taken is Ok && final(self)@ == state && match record {
                    Some(record) => taken->Ok_0 is Some && taken->Ok_0->Some_0@ == record,
                    None => taken->Ok_0 is None,
                },
                Err(failure) => taken is Err && taken->Err_0@ == failure && final(self)@
                    == old(self)@,
            },
    {
        proof {
            use_type_invariant(&*self);
        }
        match self.wanted {
            Wanted::Mark => {
                let mark = bytes[0] as u32 * 0x100_0000 + bytes[1] as u32 * 0x1_0000
                    + bytes[2] as u32 * 0x100 + bytes[3] as u32;
                let length = (mark % LAST_FRAGMENT) as usize;
                if length > self.max - self.record.len() {
                    let mut message = "a record over the ".to_owned();
                    message.append(text::number(self.max as u64).as_str());
                    message.append(" bytes read here");
                    return Err(TransportError::permanent(message));
                }
                self.wanted = Wanted::Fragment { length, last: mark >= LAST_FRAGMENT };
                self.begun = true;
                Ok(None)
            },
            Wanted::Fragment { last, .. } => {
                let mut record: Vec<u8> = Vec::new();
                let max = self.max;
                core::mem::swap(&mut record, &mut self.record);
                record.extend_from_slice(bytes);
                assert(record@ =~= old(self)@.record + bytes@);
                if last {
                    *self = RecordReader::new(max);
                    Ok(Some(record))
                } else {
                    *self = RecordReader { record, max, begun: self.begun, wanted: Wanted::Mark };
                    Ok(None)
                }
            },
        }
    }
}

/// The credentials put are the credentials read.
proof fn unix_reads_back(unix: UnixView)
    requires
        unix_bytes(unix).len() <= u32::MAX,
    ensures
        parse_unix(unix_bytes(unix)) == Ok::<_, Failure>(unix),
{
    let stamp = writer::u32_bytes(0);
    let machine = xdr::string_bytes(unix.machine);
    let uid = writer::u32_bytes(unix.uid);
    let gid = writer::u32_bytes(unix.gid);
    let others = writer::u32_bytes(0);
    xdr::runs_regroup(stamp + machine + uid, gid, others);
    xdr::runs_regroup(stamp + machine, uid, gid + others);
    xdr::runs_regroup(stamp, machine, uid + (gid + others));
    writer::u32_reads_back(0, machine + (uid + (gid + others)));
    xdr::string_reads_back(unix.machine, uid + (gid + others));
    writer::u32_reads_back(unix.uid, gid + others);
    writer::u32_reads_back(unix.gid, others);
}

/// A credential or verifier that is not looked at is passed over.
proof fn auth_is_passed(flavor: u32, body: Seq<u8>, rest: Seq<u8>)
    requires
        body.len() <= u32::MAX,
    ensures
        past_auth(writer::u32_bytes(flavor) + (xdr::opaque_bytes(body) + rest)) == Ok::<_, Failure>(
            rest,
        ),
{
    writer::u32_reads_back(flavor, xdr::opaque_bytes(body) + rest);
    xdr::opaque_reads_back(body, rest);
}

/// What follows the procedure of a call.
spec fn call_auth(call: CallView, credentials: UnixView) -> Seq<u8> {
    writer::u32_bytes(AUTH_UNIX) + (xdr::opaque_bytes(unix_bytes(credentials)) + (writer::u32_bytes(
        AUTH_NULL,
    ) + (xdr::opaque_bytes(Seq::empty()) + call.arguments)))
}

/// What follows the word that a message is a call.
spec fn call_tail(call: CallView, credentials: UnixView) -> Seq<u8> {
    writer::u32_bytes(RPC_VERSION) + (writer::u32_bytes(call.program) + (writer::u32_bytes(
        call.version,
    ) + (writer::u32_bytes(call.procedure) + call_auth(call, credentials))))
}

/// A call in the order its fields are read.
proof fn call_in_order(call: CallView, credentials: UnixView)
    ensures
        call_bytes(call, credentials) == writer::u32_bytes(call.xid) + (writer::u32_bytes(CALL)
            + call_tail(call, credentials)),
{
    let xid = writer::u32_bytes(call.xid);
    let kind = writer::u32_bytes(CALL);
    let rpc = writer::u32_bytes(RPC_VERSION);
    let program = writer::u32_bytes(call.program);
    let version = writer::u32_bytes(call.version);
    let procedure = writer::u32_bytes(call.procedure);
    let flavor = writer::u32_bytes(AUTH_UNIX);
    let body = xdr::opaque_bytes(unix_bytes(credentials));
    let null = writer::u32_bytes(AUTH_NULL);
    let nothing = xdr::opaque_bytes(Seq::empty());
    let head = call_head(call);
    let auth = call_auth(call, credentials);
    assert(call_bytes(call, credentials) == head + auth) by {
        xdr::runs_regroup(head + flavor + body + null, nothing, call.arguments);
        xdr::runs_regroup(head + flavor + body, null, nothing + call.arguments);
        xdr::runs_regroup(head + flavor, body, null + (nothing + call.arguments));
        xdr::runs_regroup(head, flavor, body + (null + (nothing + call.arguments)));
    }
    assert(head + auth == xid + (kind + call_tail(call, credentials))) by {
        xdr::runs_regroup(xid + kind + rpc + program + version, procedure, auth);
        xdr::runs_regroup(xid + kind + rpc + program, version, procedure + auth);
        xdr::runs_regroup(xid + kind + rpc, program, version + (procedure + auth));
        xdr::runs_regroup(xid + kind, rpc, program + (version + (procedure + auth)));
        xdr::runs_regroup(xid, kind, call_tail(call, credentials));
    }
}

/// A call put with credentials is the call read, with those credentials.
pub proof fn call_reads_back(call: CallView, credentials: UnixView)
    requires
        unix_bytes(credentials).len() <= u32::MAX,
    ensures
        parse_call(call_bytes(call, credentials)) == Ok::<_, Failure>(
            CallView { credentials: Some(credentials), ..call },
        ),
{
    let version = writer::u32_bytes(call.version);
    let procedure = writer::u32_bytes(call.procedure);
    let body = xdr::opaque_bytes(unix_bytes(credentials));
    let verified = writer::u32_bytes(AUTH_NULL) + (xdr::opaque_bytes(Seq::empty())
        + call.arguments);
    let auth = call_auth(call, credentials);
    let numbers = writer::u32_bytes(call.program) + (version + (procedure + auth));
    call_in_order(call, credentials);
    writer::u32_reads_back(call.xid, writer::u32_bytes(CALL) + call_tail(call, credentials));
    writer::u32_reads_back(CALL, call_tail(call, credentials));
    writer::u32_reads_back(RPC_VERSION, numbers);
    writer::u32_reads_back(call.program, version + (procedure + auth));
    writer::u32_reads_back(call.version, procedure + auth);
    writer::u32_reads_back(call.procedure, auth);
    writer::u32_reads_back(AUTH_UNIX, body + verified);
    xdr::opaque_reads_back(unix_bytes(credentials), verified);
    unix_reads_back(credentials);
    auth_is_passed(AUTH_NULL, Seq::empty(), call.arguments);
}

/// What opens a reply, read back.
proof fn reply_head_reads_back(reply: ReplyView)
    ensures
        cursor::read_u32(reply_bytes(reply)) == Ok::<_, Failure>(
            (
                reply.xid,
                writer::u32_bytes(REPLY) + (writer::u32_bytes(MSG_ACCEPTED) + (writer::u32_bytes(
                    AUTH_NULL,
                ) + (xdr::opaque_bytes(Seq::empty()) + outcome_bytes(reply.outcome)))),
            ),
        ),
{
    let xid = writer::u32_bytes(reply.xid);
    let kind = writer::u32_bytes(REPLY);
    let accepted = writer::u32_bytes(MSG_ACCEPTED);
    let null = writer::u32_bytes(AUTH_NULL);
    let nothing = xdr::opaque_bytes(Seq::empty());
    let outcome = outcome_bytes(reply.outcome);
    xdr::runs_regroup(xid + kind + accepted + null, nothing, outcome);
    xdr::runs_regroup(xid + kind + accepted, null, nothing + outcome);
    xdr::runs_regroup(xid + kind, accepted, null + (nothing + outcome));
    xdr::runs_regroup(xid, kind, accepted + (null + (nothing + outcome)));
    writer::u32_reads_back(reply.xid, kind + (accepted + (null + (nothing + outcome))));
}

/// How a call was answered is put and read back.
proof fn outcome_reads_back(outcome: OutcomeView)
    ensures
        parse_outcome(outcome_bytes(outcome)) == Ok::<_, Failure>(outcome),
{
    broadcast use {xdr::runs_regroup, writer::u32_reads_back};

    let bytes = outcome_bytes(outcome);
    assert(bytes + Seq::<u8>::empty() =~= bytes);
}

/// A reply put is the reply read.
pub proof fn reply_reads_back(reply: ReplyView)
    ensures
        parse_reply(reply_bytes(reply)) == Ok::<_, Failure>(reply),
{
    let null = writer::u32_bytes(AUTH_NULL);
    let nothing = xdr::opaque_bytes(Seq::empty());
    let outcome = outcome_bytes(reply.outcome);
    reply_head_reads_back(reply);
    writer::u32_reads_back(
        REPLY,
        writer::u32_bytes(MSG_ACCEPTED) + (null + (nothing + outcome)),
    );
    writer::u32_reads_back(MSG_ACCEPTED, null + (nothing + outcome));
    auth_is_passed(AUTH_NULL, Seq::empty(), outcome);
    outcome_reads_back(reply.outcome);
}

/// A reply is never taken for a call, nor a call for a reply.
pub proof fn calls_are_not_replies(call: CallView, credentials: UnixView, reply: ReplyView)
    ensures
        parse_call(reply_bytes(reply)) == Err::<CallView, _>(
            error::permanent_failure("a reply where a call was expected"@),
        ),
        parse_reply(call_bytes(call, credentials)) == Err::<ReplyView, _>(
            error::permanent_failure("a call where a reply was expected"@),
        ),
{
    reply_head_reads_back(reply);
    writer::u32_reads_back(
        REPLY,
        writer::u32_bytes(MSG_ACCEPTED) + (writer::u32_bytes(AUTH_NULL) + (xdr::opaque_bytes(
            Seq::empty(),
        ) + outcome_bytes(reply.outcome))),
    );
    let tail = call_tail(call, credentials);
    call_in_order(call, credentials);
    writer::u32_reads_back(call.xid, writer::u32_bytes(CALL) + tail);
    writer::u32_reads_back(CALL, tail);
}

/// A call accepted but not run is a failure that trying again will not mend.
pub proof fn unrun_calls_are_permanent(outcome: OutcomeView)
    ensures
        results_of(outcome) is Ok <==> outcome is Success,
        results_of(outcome) is Err ==> !results_of(outcome)->Err_0.retryable,
{
}

/// How reading records off a wire ends.
pub enum Received {
    /// A record, and what is left on the wire.
    Record(Seq<u8>, Seq<u8>),
    /// The wire ended before a record began.
    Closed,
    /// The wire ended within a record, where it owed this.
    Broken(Wanted),
    /// The record was refused, with this left on the wire: what follows the
    /// mark that said so.
    Refused(Failure, Seq<u8>),
}

/// What a wire that carries `wire` and then closes brings a record being
/// read to.
pub open spec fn received(state: RecordView, wire: Seq<u8>) -> Received
    decreases
            wire.len(),
            (if state.wanted is Mark {
                0nat
            } else {
                1nat
            }),
{
    let owed = owed(state.wanted);
    if wire.len() < owed {
        if !state.begun && wire.len() == 0 {
            Received::Closed
        } else {
            Received::Broken(state.wanted)
        }
    } else {
        match after_owed(state, wire.take(owed as int)) {
            Ok((_, Some(record))) => Received::Record(record, wire.skip(owed as int)),
            Ok((state, None)) => received(state, wire.skip(owed as int)),
            Err(failure) => Received::Refused(failure, wire.skip(owed as int)),
        }
    }
}

/// Read one record off a wire that was read to its end, fragment by fragment
/// until the last; `None` where the wire ended before one began. The wire
/// moves past what was read: the record, all there was where it ended
/// mid-record, the mark that was one too many where it grew too long.
///
/// # Errors
/// Where the wire ended mid-record, or the record grew past `max`.
pub fn read_record(wire: &mut Cursor<'_>, max: usize) -> (read: Result<Option<Vec<u8>>>)
    ensures
        final(wire).buffer() == old(wire).buffer(),
        match received(unread_record(max as nat), old(wire)@) {
            Received::Record(record, rest) => read is Ok && read->Ok_0 is Some
                && read->Ok_0->Some_0@ == record && final(wire)@ == rest,
            Received::Closed => read is Ok && read->Ok_0 is None && final(wire)@ == old(wire)@,
            Received::Broken(wanted) => read is Err && read->Err_0@ == cut_short(wanted)
                && final(wire)@ == Seq::<u8>::empty(),
            Received::Refused(failure, rest) => read is Err && read->Err_0@ == failure
                && final(wire)@ == rest,
        },
{
    let mut reader = RecordReader::new(max);
    loop
        invariant
            wire.buffer() == old(wire).buffer(),
            reader@ == unread_record(max as nat) ==> wire@ == old(wire)@,
            !reader@.begun ==> reader@ == unread_record(max as nat),
            received(unread_record(max as nat), old(wire)@) == received(reader@, wire@),
        decreases
                wire@.len(),
                (if reader@.wanted is Mark {
                    0nat
                } else {
                    1nat
                }),
    {
        let owed = reader.owed();
        let got = wire.remaining().len();
        if got < owed {
            if reader.closed_cleanly(got) {
                return Ok(None);
            }
            wire.take(got)?;
            assert(wire@ =~= Seq::empty());
            let mut message = reader.reading().to_owned();
            message.append(": the wire ended");
            return Err(TransportError::permanent(message));
        }
        let bytes = wire.take(owed)?;
        if let Some(record) = reader.take(bytes)? {
            return Ok(Some(record));
        }
    }
}

/// The fragments of one record, one after another, the last marked so.
pub open spec fn fragments_bytes(fragments: Seq<Seq<u8>>) -> Seq<u8>
    decreases fragments.len(),
{
    if fragments.len() == 0 {
        Seq::empty()
    } else {
        fragment_bytes(fragments[0], fragments.len() == 1) + fragments_bytes(
            fragments.drop_first(),
        )
    }
}

/// The fragments of one record, put together.
pub open spec fn joined(fragments: Seq<Seq<u8>>) -> Seq<u8>
    decreases fragments.len(),
{
    if fragments.len() == 0 {
        Seq::empty()
    } else {
        fragments[0] + joined(fragments.drop_first())
    }
}

/// Where one fragment brings a record that waits for a mark.
proof fn fragment_is_received(
    state: RecordView,
    fragment: Seq<u8>,
    last: bool,
    rest: Seq<u8>,
)
    requires
        state.wanted is Mark,
        fragment.len() < LAST_FRAGMENT,
        state.max <= usize::MAX,
        state.record.len() + fragment.len() <= state.max,
    ensures
        received(state, fragment_bytes(fragment, last) + rest) == (if last {
            Received::Record(state.record + fragment, rest)
        } else {
            received(
                RecordView { record: state.record + fragment, begun: true, ..state },
                rest,
            )
        }),
{
    let mark = (fragment.len() + if last {
        LAST_FRAGMENT as int
    } else {
        0
    }) as u32;
    let wire = fragment_bytes(fragment, last) + rest;
    xdr::runs_regroup(writer::u32_bytes(mark), fragment, rest);
    writer::u32_reads_back(mark, fragment + rest);
    assert(wire.take(4) =~= writer::u32_bytes(mark));
    assert(wire.skip(4) =~= fragment + rest);
    writer::u32_reads_back(mark, Seq::empty());
    assert(writer::u32_bytes(mark) + Seq::<u8>::empty() =~= writer::u32_bytes(mark));
    assert(cursor::u32_of(wire.take(4)) == mark);
    let wanted = Wanted::Fragment { length: fragment.len() as usize, last };
    let marked = RecordView { begun: true, wanted, ..state };
    assert(after_owed(state, wire.take(4)) == Ok::<_, Failure>((marked, None::<Seq<u8>>)));
    let body = fragment + rest;
    assert(body.take(fragment.len() as int) =~= fragment);
    assert(body.skip(fragment.len() as int) =~= rest);
    assert(received(state, wire) == received(marked, body));
}

/// Where the fragments of a record bring a record that waits for a mark.
proof fn fragments_are_received(state: RecordView, fragments: Seq<Seq<u8>>, rest: Seq<u8>)
    requires
        state.wanted is Mark,
        fragments.len() > 0,
        forall|i: int| 0 <= i < fragments.len() ==> (#[trigger] fragments[i]).len() < LAST_FRAGMENT,
        state.max <= usize::MAX,
        state.record.len() + joined(fragments).len() <= state.max,
    ensures
        received(state, fragments_bytes(fragments) + rest) == Received::Record(
            state.record + joined(fragments),
            rest,
        ),
    decreases fragments.len(),
{
    let first = fragments[0];
    let more = fragments.drop_first();
    xdr::runs_regroup(
        fragment_bytes(first, fragments.len() == 1),
        fragments_bytes(more),
        rest,
    );
    fragment_is_received(state, first, fragments.len() == 1, fragments_bytes(more) + rest);
    xdr::runs_regroup(state.record, first, joined(more));
    if fragments.len() == 1 {
        assert(Seq::<u8>::empty() + rest =~= rest);
        assert(first + Seq::<u8>::empty() =~= first);
    } else {
        let next = RecordView { record: state.record + first, begun: true, ..state };
        fragments_are_received(next, more, rest);
    }
}

/// A record crosses in any fragments: what is read is all of them put
/// together, and what follows is left on the wire.
pub proof fn records_cross_in_fragments(fragments: Seq<Seq<u8>>, max: nat, rest: Seq<u8>)
    requires
        fragments.len() > 0,
        forall|i: int| 0 <= i < fragments.len() ==> (#[trigger] fragments[i]).len() < LAST_FRAGMENT,
        joined(fragments).len() <= max <= usize::MAX,
    ensures
        received(unread_record(max), fragments_bytes(fragments) + rest) == Received::Record(
            joined(fragments),
            rest,
        ),
{
    fragments_are_received(unread_record(max), fragments, rest);
    assert(Seq::<u8>::empty() + joined(fragments) =~= joined(fragments));
}

/// A message written as a record is the message read.
pub proof fn record_reads_back(message: Seq<u8>, max: nat, rest: Seq<u8>)
    requires
        message.len() < LAST_FRAGMENT,
        message.len() <= max <= usize::MAX,
    ensures
        received(unread_record(max), record_bytes(message) + rest) == Received::Record(
            message,
            rest,
        ),
{
    fragment_is_received(unread_record(max), message, true, rest);
    assert(Seq::<u8>::empty() + message =~= message);
}

/// What is said of a record longer than is read here.
pub open spec fn over_long(max: nat) -> Failure {
    error::permanent_failure("a record over the "@ + text::decimal(max) + " bytes read here"@)
}

/// What follows the mark of the first fragment that there is no room for.
pub open spec fn past_mark(fragments: Seq<Seq<u8>>, room: nat) -> Seq<u8>
    decreases fragments.len(),
{
    if fragments.len() == 0 {
        Seq::empty()
    } else if fragments[0].len() > room {
        fragments[0] + fragments_bytes(fragments.drop_first())
    } else {
        past_mark(fragments.drop_first(), (room - fragments[0].len()) as nat)
    }
}

/// What a wire that was cut after `at` of the bytes of a record owes.
pub open spec fn owed_at(fragments: Seq<Seq<u8>>, at: nat) -> Wanted
    decreases fragments.len(),
{
    if fragments.len() == 0 || at < 4 {
        Wanted::Mark
    } else if at < 4 + fragments[0].len() {
        Wanted::Fragment { length: fragments[0].len() as usize, last: fragments.len() == 1 }
    } else {
        owed_at(fragments.drop_first(), (at - 4 - fragments[0].len()) as nat)
    }
}

/// What a mark is read as.
proof fn mark_is_read(fragment: Seq<u8>, last: bool, wire: Seq<u8>)
    requires
        fragment.len() < LAST_FRAGMENT,
        wire.len() >= 4,
        wire.take(4) == fragment_bytes(fragment, last).take(4),
    ensures
        cursor::u32_of(wire.take(4)) % LAST_FRAGMENT == fragment.len(),
        cursor::u32_of(wire.take(4)) >= LAST_FRAGMENT <==> last,
{
    let mark = (fragment.len() + if last {
        LAST_FRAGMENT as int
    } else {
        0
    }) as u32;
    assert(wire.take(4) =~= writer::u32_bytes(mark));
    writer::u32_reads_back(mark, Seq::empty());
    assert(writer::u32_bytes(mark) + Seq::<u8>::empty() =~= writer::u32_bytes(mark));
}

/// Where fragments that there is no room for bring a record that waits for a
/// mark.
proof fn fragments_are_refused(state: RecordView, fragments: Seq<Seq<u8>>, rest: Seq<u8>)
    requires
        state.wanted is Mark,
        forall|i: int| 0 <= i < fragments.len() ==> (#[trigger] fragments[i]).len() < LAST_FRAGMENT,
        state.record.len() <= state.max <= usize::MAX,
        state.record.len() + joined(fragments).len() > state.max,
    ensures
        received(state, fragments_bytes(fragments) + rest) == Received::Refused(
            over_long(state.max),
            past_mark(fragments, (state.max - state.record.len()) as nat) + rest,
        ),
    decreases fragments.len(),
{
    let first = fragments[0];
    let last = fragments.len() == 1;
    let more = fragments.drop_first();
    let wire = fragments_bytes(fragments) + rest;
    if state.record.len() + first.len() > state.max {
        assert(wire.take(4) =~= fragment_bytes(first, last).take(4));
        mark_is_read(first, last, wire);
        assert(wire.skip(4) =~= first + fragments_bytes(more) + rest);
    } else {
        xdr::runs_regroup(fragment_bytes(first, last), fragments_bytes(more), rest);
        fragment_is_received(state, first, last, fragments_bytes(more) + rest);
        let next = RecordView { record: state.record + first, begun: true, ..state };
        fragments_are_refused(next, more, rest);
    }
}

/// A record longer than is read here, in any fragments, is refused at the
/// mark that takes it there: nothing past that mark is read.
pub proof fn long_records_are_refused(fragments: Seq<Seq<u8>>, max: nat, rest: Seq<u8>)
    requires
        forall|i: int| 0 <= i < fragments.len() ==> (#[trigger] fragments[i]).len() < LAST_FRAGMENT,
        max <= usize::MAX,
        joined(fragments).len() > max,
    ensures
        received(unread_record(max), fragments_bytes(fragments) + rest) == Received::Refused(
            over_long(max),
            past_mark(fragments, max) + rest,
        ),
{
    fragments_are_refused(unread_record(max), fragments, rest);
}

/// Where the first bytes of a record's fragments bring a record that waits
/// for a mark.
proof fn cut_fragments_are_broken(state: RecordView, fragments: Seq<Seq<u8>>, at: nat)
    requires
        state.wanted is Mark,
        forall|i: int| 0 <= i < fragments.len() ==> (#[trigger] fragments[i]).len() < LAST_FRAGMENT,
        state.max <= usize::MAX,
        state.record.len() + joined(fragments).len() <= state.max,
        at < fragments_bytes(fragments).len(),
        state.begun || at > 0,
    ensures
        received(state, fragments_bytes(fragments).take(at as int)) == Received::Broken(
            owed_at(fragments, at),
        ),
    decreases fragments.len(),
{
    let first = fragments[0];
    let last = fragments.len() == 1;
    let more = fragments.drop_first();
    let wire = fragments_bytes(fragments).take(at as int);
    let end = 4 + first.len();
    if at >= 4 && at < end {
        assert(wire.take(4) =~= fragment_bytes(first, last).take(4));
        mark_is_read(first, last, wire);
        let wanted = Wanted::Fragment { length: first.len() as usize, last };
        let marked = RecordView { begun: true, wanted, ..state };
        assert(received(state, wire) == received(marked, wire.skip(4)));
    } else if at >= end {
        let after = fragments_bytes(more).take(at - end);
        assert(wire =~= fragment_bytes(first, last) + after);
        fragment_is_received(state, first, last, after);
        let next = RecordView { record: state.record + first, begun: true, ..state };
        cut_fragments_are_broken(next, more, (at - end) as nat);
    }
}

/// A wire that closes before a record is closed, and one that closes within
/// a record, in any fragments, is broken: in a mark, or in what the mark says
/// follows.
pub proof fn cut_records_are_broken(fragments: Seq<Seq<u8>>, max: nat, at: nat)
    requires
        forall|i: int| 0 <= i < fragments.len() ==> (#[trigger] fragments[i]).len() < LAST_FRAGMENT,
        joined(fragments).len() <= max <= usize::MAX,
        at < fragments_bytes(fragments).len(),
    ensures
        received(unread_record(max), fragments_bytes(fragments).take(at as int)) == (if at == 0 {
            Received::Closed
        } else {
            Received::Broken(owed_at(fragments, at))
        }),
{
    if at > 0 {
        cut_fragments_are_broken(unread_record(max), fragments, at);
    }
}

} // verus!
