//! One command from start to finish.
//!
//! The library owns neither the bus nor the clock. An [`Exchange`] decides what is to be done
//! next (write the frame, wait, read the reply) and the caller does it and reports how
//! it went. A failed write or read is tried once more after a fixed pause, and never again.
//!
//! Frames end with a nul byte. Replies begin with a status byte; the payload follows it.

use crate::command::{frame_of, Command, MAX_DATA, MAX_FRAME};
use crate::errors::ErrorKind;
use crate::response::{decode, is_payload_of, Response, ResponseKind};
use vstd::prelude::*;
use vstd::slice::{slice_subrange, slice_to_vec};
use vstd::string::StrSliceExecFns;
use vstd::utf8::{
    decode_utf8, encode_utf8, encode_utf8_decode_utf8, encode_utf8_valid_utf8, is_ascii_chars,
    is_ascii_chars_encode_utf8, valid_utf8,
};

verus! {

/// The pause before a failed write or read is tried again, in milliseconds.
pub const RETRY_BACKOFF_MS: u64 = 300;

/// What the status byte of a reply says.
#[derive(Debug, Copy, Clone, PartialEq, Eq, Structural)]
pub enum ResponseCode {
    /// 255: the device has nothing to send.
    NoDataExpected,
    /// 254: the device is still processing the command.
    Pending,
    /// 2: the device reports an error.
    DeviceError,
    /// 1: the command succeeded.
    Success,
    /// Any other value: the protocol does not define it.
    UnknownError,
}

/// What a status byte says.
pub open spec fn code_of(status: u8) -> ResponseCode {
    if status == 255 {
        ResponseCode::NoDataExpected
    } else if status == 254 {
        ResponseCode::Pending
    } else if status == 2 {
        ResponseCode::DeviceError
    } else if status == 1 {
        ResponseCode::Success
    } else {
        ResponseCode::UnknownError
    }
}

/// Reads the status byte of a reply.
pub fn response_code(status: u8) -> (code: ResponseCode)
    ensures
        code == code_of(status),
{
    if status == 255 {
        ResponseCode::NoDataExpected
    } else if status == 254 {
        ResponseCode::Pending
    } else if status == 2 {
        ResponseCode::DeviceError
    } else if status == 1 {
        ResponseCode::Success
    } else {
        ResponseCode::UnknownError
    }
}

/// The frame of a command text.
pub fn wire_frame(text: &str) -> (frame: Vec<u8>)
    ensures
        frame@ == frame_of(text@),
{
    let mut frame = text.as_bytes_vec();
    frame.push(0);
    frame
}

/// Where the text in `data` ends: at the first nul byte, or at the end if there is none.
pub open spec fn text_end(data: Seq<u8>) -> int
    decreases data.len(),
{
    if data.len() == 0 || data[0] == 0 {
        0
    } else {
        1 + text_end(data.drop_first())
    }
}

/// `data` with the high bit of each byte taken off, as characters.
pub open spec fn stripped(data: Seq<u8>) -> Seq<char> {
    Seq::new(data.len(), |i: int| (data[i] & 0x7f) as char)
}

/// The payload of a reply, where `data` is what follows the status byte. Up to the first nul
/// byte it is read as UTF-8, and there is no payload if it is not valid. Without a nul byte,
/// all of `data` is the payload, with the high bit of each byte taken off.
pub open spec fn payload_of(data: Seq<u8>) -> Option<Seq<char>> {
    let end = text_end(data);
    if end < data.len() {
        if valid_utf8(data.subrange(0, end)) {
            Some(decode_utf8(data.subrange(0, end)))
        } else {
            None
        }
    } else {
        Some(stripped(data))
    }
}

/// `String::from_utf8` of std: the text that `bytes` are the UTF-8 encoding of, and nothing
/// where they are the encoding of no text.
#[verifier::external_body]
fn text_from_utf8(bytes: Vec<u8>) -> (text: Option<String>)
    ensures
        text is Some == valid_utf8(bytes@),
        text matches Some(s) ==> encode_utf8(s@) == bytes@,
{
    String::from_utf8(bytes).ok()
}

/// The text ends where the first nul byte stands.
proof fn lemma_text_end(data: Seq<u8>, end: int)
    requires
        0 <= end <= data.len(),
        forall|k: int| 0 <= k < end ==> data[k] != 0,
        end < data.len() ==> data[end] == 0,
    ensures
        text_end(data) == end,
    decreases end,
{
    if end > 0 {
        let rest = data.drop_first();
        assert forall|k: int| 0 <= k < end - 1 implies rest[k] != 0 by {
            assert(rest[k] == data[k + 1]);
        }
        lemma_text_end(rest, end - 1);
    }
}

/// Bytes without their high bit are the UTF-8 encoding of the characters they stand for.
proof fn lemma_stripped_is_text(data: Seq<u8>, bytes: Seq<u8>)
    requires
        bytes.len() == data.len(),
        forall|i: int| 0 <= i < data.len() ==> bytes[i] == data[i] & 0x7f,
    ensures
        encode_utf8(stripped(data)) == bytes,
{
    let chars = stripped(data);
    assert forall|i: int| 0 <= i < chars.len() implies '\0' <= #[trigger] chars[i] <= '\u{7f}'
        && chars[i] as u8 == bytes[i] by {
        let b = data[i];
        assert(b & 0x7f <= 0x7f) by (bit_vector);
    }
    assert(is_ascii_chars(chars));
    is_ascii_chars_encode_utf8(chars);
    assert(encode_utf8(chars) =~= bytes);
}

/// Takes the payload out of what follows the status byte of a reply.
pub fn extract_payload(data: &[u8]) -> (result: Result<String, ErrorKind>)
    ensures
        match result {
            Ok(payload) => payload_of(data@) == Some(payload@),
            Err(kind) => kind == ErrorKind::MalformedResponse && payload_of(data@) is None,
        },
{
    let n = data.len();
    let mut end: usize = 0;
    while end < n && data[end] != 0
        invariant
            end <= n,
            n == data@.len(),
            forall|k: int| 0 <= k < end ==> data@[k] != 0,
        decreases n - end,
    {
        end += 1;
    }
    proof {
        lemma_text_end(data@, end as int);
    }
    if end < n {
        let bytes = slice_to_vec(slice_subrange(data, 0, end));
        match text_from_utf8(bytes) {
            Some(text) => {
                proof {
                    encode_utf8_decode_utf8(text@);
                }
                Ok(text)
            },
            None => Err(ErrorKind::MalformedResponse),
        }
    } else {
        let mut bytes: Vec<u8> = Vec::new();
        let mut i: usize = 0;
        while i < n
            invariant
                i <= n,
                n == data@.len(),
                bytes@.len() == i,
                forall|k: int| 0 <= k < i ==> bytes@[k] == data@[k] & 0x7f,
            decreases n - i,
        {
            bytes.push(data[i] & 0x7f);
            i += 1;
        }
        proof {
            lemma_stripped_is_text(data@, bytes@);
            encode_utf8_valid_utf8(stripped(data@));
            encode_utf8_decode_utf8(stripped(data@));
        }
        match text_from_utf8(bytes) {
            Some(text) => {
                proof {
                    encode_utf8_decode_utf8(text@);
                }
                Ok(text)
            },
            None => Err(ErrorKind::MalformedResponse),
        }
    }
}

/// Why a reply fails a command that expects `kind`, or nothing if it does not fail it.
/// The status byte decides first; where it reports success and the command expects a value,
/// the payload must be there and have the shape of that value.
pub open spec fn failure_of(kind: ResponseKind, reply: Seq<u8>) -> Option<ErrorKind> {
    if reply.len() == 0 {
        Some(ErrorKind::MalformedResponse)
    } else {
        match code_of(reply[0]) {
            ResponseCode::NoDataExpected => Some(ErrorKind::NoDataExpectedResponse),
            ResponseCode::Pending => Some(ErrorKind::PendingResponse),
            ResponseCode::DeviceError => Some(ErrorKind::DeviceErrorResponse),
            ResponseCode::UnknownError => Some(ErrorKind::MalformedResponse),
            ResponseCode::Success => if kind == ResponseKind::Ack || kind
                == ResponseKind::Nothing {
                None
            } else {
                match payload_of(reply.subrange(1, reply.len() as int)) {
                    None => Some(ErrorKind::MalformedResponse),
                    Some(payload) => if is_payload_of(kind, payload) {
                        None
                    } else {
                        Some(ErrorKind::ResponseParse)
                    },
                }
            },
        }
    }
}

/// Whether `result` is what the reply amounts to: the error that the reply fails with, or a
/// response of the expected kind that the payload stands for.
pub open spec fn answers(
    kind: ResponseKind,
    reply: Seq<u8>,
    result: Result<Response, ErrorKind>,
) -> bool {
    match result {
        Ok(response) => {
            &&& failure_of(kind, reply) is None
            &&& response.kind() == kind
            &&& kind != ResponseKind::Ack && kind != ResponseKind::Nothing ==> (payload_of(
                reply.subrange(1, reply.len() as int),
            ) matches Some(payload) && response.read_from(payload))
        },
        Err(error) => failure_of(kind, reply) == Some(error),
    }
}

/// Reads a reply: the status byte, then the payload as the kind of response that the
/// command expects.
pub fn interpret(kind: ResponseKind, reply: &[u8]) -> (result: Result<Response, ErrorKind>)
    ensures
        answers(kind, reply@, result),
{
    if reply.len() == 0 {
        return Err(ErrorKind::MalformedResponse);
    }
    match response_code(reply[0]) {
        ResponseCode::NoDataExpected => Err(ErrorKind::NoDataExpectedResponse),
        ResponseCode::Pending => Err(ErrorKind::PendingResponse),
        ResponseCode::DeviceError => Err(ErrorKind::DeviceErrorResponse),
        ResponseCode::UnknownError => Err(ErrorKind::MalformedResponse),
        ResponseCode::Success => match kind {
            ResponseKind::Ack => Ok(Response::Ack),
            ResponseKind::Nothing => Ok(Response::Nothing),
            _ => match extract_payload(slice_subrange(reply, 1, reply.len())) {
                Ok(payload) => decode(kind, payload.as_str()),
                Err(error) => Err(error),
            },
        },
    }
}

/// How far an exchange has come.
#[derive(Debug, Copy, Clone, PartialEq, Eq, Structural)]
pub enum Stage {
    /// The frame is being written for the first time.
    Writing,
    /// The first write failed; the pause before the second is running.
    WriteBackoff,
    /// The frame is being written for the second time.
    Rewriting,
    /// The frame is written; the device is given its time.
    Delaying,
    /// The reply is being read for the first time.
    Reading,
    /// The first read failed; the pause before the second is running.
    ReadBackoff,
    /// The reply is being read for the second time.
    Rereading,
    /// The exchange is over.
    Done,
}

/// What the caller reports back.
#[derive(Debug, PartialEq, Eq)]
pub enum Event {
    /// The frame was written.
    Written,
    /// The frame could not be written.
    WriteFailed,
    /// The pause is over.
    Slept,
    /// The reply was read: these are its bytes, the status byte first.
    Received(Vec<u8>),
    /// The reply could not be read.
    ReadFailed,
}

/// What the caller is to do next.
#[derive(Debug, PartialEq, Eq)]
pub enum Action {
    /// Write these bytes to the device, then report `Written` or `WriteFailed`.
    Write(Vec<u8>),
    /// Block for so many milliseconds, then report `Slept`.
    Sleep(u64),
    /// Read up to so many bytes from the device, then report `Received` or `ReadFailed`.
    Read(usize),
    /// Nothing more: this is how the command ended.
    Finish(Result<Response, ErrorKind>),
}

/// What an exchange decides, before the frame and the reply are filled in.
pub enum Plan {
    Write,
    Sleep(u64),
    Read,
    /// Finish with what the reply amounts to.
    Interpret(Seq<u8>),
    /// Finish with success and no response.
    Succeed,
    /// Finish with an error.
    Fail(ErrorKind),
}

/// What follows a successful write: the delay if the command has one, else what follows it.
pub open spec fn after_write(delay: u64, kind: ResponseKind) -> (Stage, Plan) {
    if delay > 0 {
        (Stage::Delaying, Plan::Sleep(delay))
    } else {
        after_delay(kind)
    }
}

/// What follows the delay: the read if the command expects a reply, else the end.
pub open spec fn after_delay(kind: ResponseKind) -> (Stage, Plan) {
    if kind == ResponseKind::Nothing {
        (Stage::Done, Plan::Succeed)
    } else {
        (Stage::Reading, Plan::Read)
    }
}

/// The decision of an exchange at `stage` on `event`, for a command with the given delay and
/// kind of reply. An event that does not answer what was asked for ends the exchange with
/// `I2CRead`, and so does a second failure.
pub open spec fn decide(stage: Stage, event: Event, delay: u64, kind: ResponseKind) -> (
    Stage,
    Plan,
) {
    match (stage, event) {
        (Stage::Writing, Event::Written) => after_write(delay, kind),
        (Stage::Writing, Event::WriteFailed) => (
            Stage::WriteBackoff,
            Plan::Sleep(RETRY_BACKOFF_MS),
        ),
        (Stage::WriteBackoff, Event::Slept) => (Stage::Rewriting, Plan::Write),
        (Stage::Rewriting, Event::Written) => after_write(delay, kind),
        (Stage::Delaying, Event::Slept) => after_delay(kind),
        (Stage::Reading, Event::Received(reply)) => (Stage::Done, Plan::Interpret(reply@)),
        (Stage::Reading, Event::ReadFailed) => (Stage::ReadBackoff, Plan::Sleep(RETRY_BACKOFF_MS)),
        (Stage::ReadBackoff, Event::Slept) => (Stage::Rereading, Plan::Read),
        (Stage::Rereading, Event::Received(reply)) => (Stage::Done, Plan::Interpret(reply@)),
        _ => (Stage::Done, Plan::Fail(ErrorKind::I2CRead)),
    }
}

/// Whether `action` carries out `plan` for a command with the given frame and kind of reply.
pub open spec fn carries_out(
    action: Action,
    plan: Plan,
    frame: Seq<u8>,
    kind: ResponseKind,
) -> bool {
    match plan {
        Plan::Write => action matches Action::Write(bytes) && bytes@ == frame,
        Plan::Sleep(ms) => action == Action::Sleep(ms),
        Plan::Read => action == Action::Read(MAX_DATA),
        Plan::Interpret(reply) => action matches Action::Finish(result) && answers(
            kind,
            reply,
            result,
        ),
        Plan::Succeed => action matches Action::Finish(Ok(response)) && response
            == Response::Nothing,
        Plan::Fail(error) => action matches Action::Finish(Err(e)) && e == error,
    }
}

/// One command on its way to the device and back.
pub struct Exchange {
    frame: Vec<u8>,
    delay: u64,
    kind: ResponseKind,
    stage: Stage,
}

impl Exchange {
    /// The bytes that are written to the device.
    pub closed spec fn frame(&self) -> Seq<u8> {
        self.frame@
    }

    /// The delay between the write and the read, in milliseconds.
    pub closed spec fn delay(&self) -> u64 {
        self.delay
    }

    /// The kind of reply that is expected.
    pub closed spec fn kind(&self) -> ResponseKind {
        self.kind
    }

    /// How far the exchange has come.
    pub closed spec fn stage(&self) -> Stage {
        self.stage
    }

    /// Begins the exchange for `command`: the first thing to do is to write its frame, which
    /// is never longer than `MAX_FRAME` bytes.
    pub fn start<C: Command>(command: &C) -> (begun: (Exchange, Action))
        ensures
            begun.0.frame() == frame_of(command.command_text()),
            begun.0.frame().len() <= MAX_FRAME,
            begun.0.delay() == command.delay_ms(),
            begun.0.kind() == command.response_kind(),
            begun.0.stage() == Stage::Writing,
            carries_out(begun.1, Plan::Write, begun.0.frame(), begun.0.kind()),
    {
        let text = command.get_command_string();
        let frame = wire_frame(text.as_str());
        let exchange = Exchange {
            frame: frame.clone(),
            delay: command.get_delay(),
            kind: command.get_response_kind(),
            stage: Stage::Writing,
        };
        (exchange, Action::Write(frame))
    }

    /// Takes the report on what was asked for last and says what to do next.
    pub fn step(&mut self, event: Event) -> (action: Action)
        ensures
            final(self).frame() == old(self).frame(),
            final(self).delay() == old(self).delay(),
            final(self).kind() == old(self).kind(),
            final(self).stage() == decide(
                old(self).stage(),
                event,
                old(self).delay(),
                old(self).kind(),
            ).0,
            carries_out(
                action,
                decide(old(self).stage(), event, old(self).delay(), old(self).kind()).1,
                old(self).frame(),
                old(self).kind(),
            ),
    {
        match (self.stage, event) {
            (Stage::Writing, Event::Written) | (Stage::Rewriting, Event::Written) => {
                if self.delay > 0 {
                    self.stage = Stage::Delaying;
                    Action::Sleep(self.delay)
                } else {
                    self.proceed()
                }
            },
            (Stage::Writing, Event::WriteFailed) => {
                self.stage = Stage::WriteBackoff;
                Action::Sleep(RETRY_BACKOFF_MS)
            },
            (Stage::WriteBackoff, Event::Slept) => {
                self.stage = Stage::Rewriting;
                Action::Write(self.frame.clone())
            },
            (Stage::Delaying, Event::Slept) => self.proceed(),
            (Stage::Reading, Event::Received(reply))
            | (Stage::Rereading, Event::Received(reply)) => {
                self.stage = Stage::Done;
                Action::Finish(interpret(self.kind, reply.as_slice()))
            },
            (Stage::Reading, Event::ReadFailed) => {
                self.stage = Stage::ReadBackoff;
                Action::Sleep(RETRY_BACKOFF_MS)
            },
            (Stage::ReadBackoff, Event::Slept) => {
                self.stage = Stage::Rereading;
                Action::Read(MAX_DATA)
            },
            _ => {
                self.stage = Stage::Done;
                Action::Finish(Err(ErrorKind::I2CRead))
            },
        }
    }

    /// What follows the delay.
    fn proceed(&mut self) -> (action: Action)
        ensures
            final(self).frame() == old(self).frame(),
            final(self).delay() == old(self).delay(),
            final(self).kind() == old(self).kind(),
            final(self).stage() == after_delay(old(self).kind()).0,
            carries_out(
                action,
                after_delay(old(self).kind()).1,
                old(self).frame(),
                old(self).kind(),
            ),
    {
        match self.kind {
            ResponseKind::Nothing => {
                self.stage = Stage::Done;
                Action::Finish(Ok(Response::Nothing))
            },
            _ => {
                self.stage = Stage::Reading;
                Action::Read(MAX_DATA)
            },
        }
    }
}

/// How many steps an exchange at `stage` can still take.
pub open spec fn steps_left(stage: Stage) -> nat {
    match stage {
        Stage::Writing => 7,
        Stage::WriteBackoff => 6,
        Stage::Rewriting => 5,
        Stage::Delaying => 4,
        Stage::Reading => 3,
        Stage::ReadBackoff => 2,
        Stage::Rereading => 1,
        Stage::Done => 0,
    }
}

/// Every step brings an exchange nearer to its end, whatever is reported: the number of
/// steps that are left, seven at the start, goes down with each step.
pub proof fn lemma_step_advances(stage: Stage, event: Event, delay: u64, kind: ResponseKind)
    requires
        stage != Stage::Done,
    ensures
        steps_left(decide(stage, event, delay, kind).0) < steps_left(stage),
{
}

/// An exchange is over exactly when it hands out its result.
pub proof fn lemma_done_with_result(stage: Stage, event: Event, delay: u64, kind: ResponseKind)
    ensures
        decide(stage, event, delay, kind).0 == Stage::Done <==> (decide(
            stage,
            event,
            delay,
            kind,
        ).1 is Interpret || decide(stage, event, delay, kind).1 is Succeed || decide(
            stage,
            event,
            delay,
            kind,
        ).1 is Fail),
{
}

/// A write that fails is tried again after the pause, and if it succeeds then, the exchange
/// goes on as if the first write had succeeded.
pub proof fn lemma_failed_write_is_retried(delay: u64, kind: ResponseKind)
    ensures
        decide(Stage::Writing, Event::WriteFailed, delay, kind) == (
            Stage::WriteBackoff,
            Plan::Sleep(RETRY_BACKOFF_MS),
        ),
        decide(Stage::WriteBackoff, Event::Slept, delay, kind) == (Stage::Rewriting, Plan::Write),
        decide(Stage::Rewriting, Event::Written, delay, kind) == decide(
            Stage::Writing,
            Event::Written,
            delay,
            kind,
        ),
{
}

/// A write that fails twice ends the exchange with `I2CRead`.
pub proof fn lemma_second_failed_write_is_fatal(delay: u64, kind: ResponseKind)
    ensures
        decide(Stage::Rewriting, Event::WriteFailed, delay, kind) == (
            Stage::Done,
            Plan::Fail(ErrorKind::I2CRead),
        ),
{
}

/// A read that fails is tried again after the pause, and if it succeeds then, the reply
/// counts as if the first read had brought it.
pub proof fn lemma_failed_read_is_retried(delay: u64, kind: ResponseKind, reply: Vec<u8>)
    ensures
        decide(Stage::Reading, Event::ReadFailed, delay, kind) == (
            Stage::ReadBackoff,
            Plan::Sleep(RETRY_BACKOFF_MS),
        ),
        decide(Stage::ReadBackoff, Event::Slept, delay, kind) == (Stage::Rereading, Plan::Read),
        decide(Stage::Rereading, Event::Received(reply), delay, kind) == decide(
            Stage::Reading,
            Event::Received(reply),
            delay,
            kind,
        ),
{
}

/// A read that fails twice ends the exchange with `I2CRead`.
pub proof fn lemma_second_failed_read_is_fatal(delay: u64, kind: ResponseKind)
    ensures
        decide(Stage::Rereading, Event::ReadFailed, delay, kind) == (
            Stage::Done,
            Plan::Fail(ErrorKind::I2CRead),
        ),
{
}

} // verus!
