//! The i3 IPC protocol: message kinds, the framing of messages, and a
//! connection that works on byte buffers.
//!
//! A frame is the six bytes `i3-ipc`, the length of the payload and the
//! code of the kind, each as four bytes with the lowest first, and then the
//! payload.

use vstd::prelude::*;
use vstd::string::*;
use crate::json::{decoded_json, Json, JsonError, JsonValue};

verus! {

/// The mask of the top bit of a message code, which marks an event.
pub const EVENT_BIT: u32 = 0x8000_0000;

/// The kind of an IPC message: thirteen requests and eight events.
#[derive(Clone, Copy, Debug, PartialEq, Eq, Hash, Structural)]
pub enum MessageType {
    Command,
    Workspace,
    Subscribe,
    Outputs,
    Tree,
    Marks,
    BarConfig,
    Version,
    BindingModes,
    Config,
    Tick,
    Sync,
    BindingState,
    SubWorkspace,
    SubOutput,
    SubMode,
    SubWindow,
    SubBarConfig,
    SubBinding,
    SubShutdown,
    SubTick,
}

impl MessageType {
    /// The 32-bit code that stands for this kind on the wire.
    pub open spec fn code_spec(self) -> u32 {
        match self {
            MessageType::Command => 0,
            MessageType::Workspace => 1,
            MessageType::Subscribe => 2,
            MessageType::Outputs => 3,
            MessageType::Tree => 4,
            MessageType::Marks => 5,
            MessageType::BarConfig => 6,
            MessageType::Version => 7,
            MessageType::BindingModes => 8,
            MessageType::Config => 9,
            MessageType::Tick => 10,
            MessageType::Sync => 11,
            MessageType::BindingState => 12,
            MessageType::SubWorkspace => 0x8000_0000,
            MessageType::SubOutput => 0x8000_0001,
            MessageType::SubMode => 0x8000_0002,
            MessageType::SubWindow => 0x8000_0003,
            MessageType::SubBarConfig => 0x8000_0004,
            MessageType::SubBinding => 0x8000_0005,
            MessageType::SubShutdown => 0x8000_0006,
            MessageType::SubTick => 0x8000_0007,
        }
    }

    /// Whether this kind is an event that the window manager pushes.
    pub open spec fn is_subscription_spec(&self) -> bool {
        self.code_spec() >= EVENT_BIT
    }

    /// The 32-bit code that stands for this kind on the wire.
    #[verifier::when_used_as_spec(code_spec)]
    pub fn code(self) -> (code: u32)
        ensures
            code == self.code_spec(),
    {
        match self {
            MessageType::Command => 0,
            MessageType::Workspace => 1,
            MessageType::Subscribe => 2,
            MessageType::Outputs => 3,
            MessageType::Tree => 4,
            MessageType::Marks => 5,
            MessageType::BarConfig => 6,
            MessageType::Version => 7,
            MessageType::BindingModes => 8,
            MessageType::Config => 9,
            MessageType::Tick => 10,
            MessageType::Sync => 11,
            MessageType::BindingState => 12,
            MessageType::SubWorkspace => 0x8000_0000,
            MessageType::SubOutput => 0x8000_0001,
            MessageType::SubMode => 0x8000_0002,
            MessageType::SubWindow => 0x8000_0003,
            MessageType::SubBarConfig => 0x8000_0004,
            MessageType::SubBinding => 0x8000_0005,
            MessageType::SubShutdown => 0x8000_0006,
            MessageType::SubTick => 0x8000_0007,
        }
    }

    /// The name of this kind in a subscription request.
    pub open spec fn name_spec(self) -> Seq<char> {
        match self {
            MessageType::Command => "command"@,
            MessageType::Workspace => "workspace"@,
            MessageType::Subscribe => "subscribe"@,
            MessageType::Outputs => "outputs"@,
            MessageType::Tree => "tree"@,
            MessageType::Marks => "marks"@,
            MessageType::BarConfig => "bar_config"@,
            MessageType::Version => "version"@,
            MessageType::BindingModes => "binding_modes"@,
            MessageType::Config => "config"@,
            MessageType::Tick => "tick"@,
            MessageType::Sync => "sync"@,
            MessageType::BindingState => "binding_state"@,
            MessageType::SubWorkspace => "workspace"@,
            MessageType::SubOutput => "output"@,
            MessageType::SubMode => "mode"@,
            MessageType::SubWindow => "window"@,
            MessageType::SubBarConfig => "barconfig_update"@,
            MessageType::SubBinding => "binding"@,
            MessageType::SubShutdown => "shutdown"@,
            MessageType::SubTick => "tick"@,
        }
    }

    /// The name of this kind in a subscription request: for an event, the
    /// name under which the window manager offers it.
    pub fn name(self) -> (name: &'static str)
        ensures
            name@ == self.name_spec(),
    {
        match self {
            MessageType::Command => "command",
            MessageType::Workspace => "workspace",
            MessageType::Subscribe => "subscribe",
            MessageType::Outputs => "outputs",
            MessageType::Tree => "tree",
            MessageType::Marks => "marks",
            MessageType::BarConfig => "bar_config",
            MessageType::Version => "version",
            MessageType::BindingModes => "binding_modes",
            MessageType::Config => "config",
            MessageType::Tick => "tick",
            MessageType::Sync => "sync",
            MessageType::BindingState => "binding_state",
            MessageType::SubWorkspace => "workspace",
            MessageType::SubOutput => "output",
            MessageType::SubMode => "mode",
            MessageType::SubWindow => "window",
            MessageType::SubBarConfig => "barconfig_update",
            MessageType::SubBinding => "binding",
            MessageType::SubShutdown => "shutdown",
            MessageType::SubTick => "tick",
        }
    }

    /// True for the eight event kinds, whose code has the top bit set.
    #[verifier::when_used_as_spec(is_subscription_spec)]
    pub fn is_subscription(&self) -> (event: bool)
        ensures
            event == self.is_subscription_spec(),
            event == (self.code_spec() & EVENT_BIT != 0),
    {
        let code: u32 = self.code();
        assert((code & 0x8000_0000u32 != 0) == (code >= 0x8000_0000u32)) by (bit_vector);
        (code & EVENT_BIT) != 0
    }
}

/// A stream of bytes that does not hold the frames of the protocol.
#[derive(Clone, Copy, Debug, PartialEq, Eq, Structural)]
pub enum ProtocolError {
    /// The first six bytes are not `i3-ipc`.
    BadMagic,
    /// The code is that of no kind.
    UnknownKind(u32),
}

/// The kind that a code stands for.
pub open spec fn kind_of(code: u32) -> Option<MessageType> {
    if code == 0 {
        Some(MessageType::Command)
    } else if code == 1 {
        Some(MessageType::Workspace)
    } else if code == 2 {
        Some(MessageType::Subscribe)
    } else if code == 3 {
        Some(MessageType::Outputs)
    } else if code == 4 {
        Some(MessageType::Tree)
    } else if code == 5 {
        Some(MessageType::Marks)
    } else if code == 6 {
        Some(MessageType::BarConfig)
    } else if code == 7 {
        Some(MessageType::Version)
    } else if code == 8 {
        Some(MessageType::BindingModes)
    } else if code == 9 {
        Some(MessageType::Config)
    } else if code == 10 {
        Some(MessageType::Tick)
    } else if code == 11 {
        Some(MessageType::Sync)
    } else if code == 12 {
        Some(MessageType::BindingState)
    } else if code == 0x8000_0000 {
        Some(MessageType::SubWorkspace)
    } else if code == 0x8000_0001 {
        Some(MessageType::SubOutput)
    } else if code == 0x8000_0002 {
        Some(MessageType::SubMode)
    } else if code == 0x8000_0003 {
        Some(MessageType::SubWindow)
    } else if code == 0x8000_0004 {
        Some(MessageType::SubBarConfig)
    } else if code == 0x8000_0005 {
        Some(MessageType::SubBinding)
    } else if code == 0x8000_0006 {
        Some(MessageType::SubShutdown)
    } else if code == 0x8000_0007 {
        Some(MessageType::SubTick)
    } else {
        None
    }
}

impl TryFrom<u32> for MessageType {
    type Error = ProtocolError;

    /// The kind that a code stands for; a code of no kind is refused.
    fn try_from(value: u32) -> (r: Result<MessageType, ProtocolError>)
        ensures
            match r {
                Ok(kind) => kind_of(value) == Some(kind),
                Err(error) => kind_of(value) is None && error == ProtocolError::UnknownKind(value),
            },
    {
        match value {
            0x0000_0000 => Ok(MessageType::Command),
            0x0000_0001 => Ok(MessageType::Workspace),
            0x0000_0002 => Ok(MessageType::Subscribe),
            0x0000_0003 => Ok(MessageType::Outputs),
            0x0000_0004 => Ok(MessageType::Tree),
            0x0000_0005 => Ok(MessageType::Marks),
            0x0000_0006 => Ok(MessageType::BarConfig),
            0x0000_0007 => Ok(MessageType::Version),
            0x0000_0008 => Ok(MessageType::BindingModes),
            0x0000_0009 => Ok(MessageType::Config),
            0x0000_000a => Ok(MessageType::Tick),
            0x0000_000b => Ok(MessageType::Sync),
            0x0000_000c => Ok(MessageType::BindingState),
            0x8000_0000 => Ok(MessageType::SubWorkspace),
            0x8000_0001 => Ok(MessageType::SubOutput),
            0x8000_0002 => Ok(MessageType::SubMode),
            0x8000_0003 => Ok(MessageType::SubWindow),
            0x8000_0004 => Ok(MessageType::SubBarConfig),
            0x8000_0005 => Ok(MessageType::SubBinding),
            0x8000_0006 => Ok(MessageType::SubShutdown),
            0x8000_0007 => Ok(MessageType::SubTick),
            _ => Err(ProtocolError::UnknownKind(value)),
        }
    }
}

impl vstd::std_specs::convert::TryFromSpecImpl<u32> for MessageType {
    open spec fn obeys_try_from_spec() -> bool {
        true
    }

    open spec fn try_from_spec(value: u32) -> Result<MessageType, ProtocolError> {
        match kind_of(value) {
            Some(kind) => Ok(kind),
            None => Err(ProtocolError::UnknownKind(value)),
        }
    }
}

/// Every kind is the kind of its own code, and no two kinds share a code.
pub proof fn lemma_kind_of_code(kind: MessageType)
    ensures
        kind_of(kind.code_spec()) == Some(kind),
{
}

/// A code stands for a kind exactly if it is the code of that kind.
pub proof fn lemma_code_of_kind(code: u32, kind: MessageType)
    ensures
        kind_of(code) == Some(kind) <==> kind.code_spec() == code,
{
}

/// The six bytes that open every frame: `i3-ipc`.
pub open spec fn magic() -> Seq<u8> {
    seq![0x69u8, 0x33u8, 0x2du8, 0x69u8, 0x70u8, 0x63u8]
}

/// The number of bytes of a frame before its payload.
pub const HEADER_LEN: usize = 14;

/// The four bytes of a number, the lowest first.
pub open spec fn le_bytes(x: u32) -> Seq<u8> {
    seq![
        (x % 256) as u8,
        ((x / 256) % 256) as u8,
        ((x / 65536) % 256) as u8,
        (x / 16777216) as u8,
    ]
}

/// The number that four bytes hold, the lowest first.
pub open spec fn le_value(bytes: Seq<u8>) -> u32
    recommends
        bytes.len() == 4,
{
    (bytes[0] + 256 * bytes[1] + 65536 * bytes[2] + 16777216 * bytes[3]) as u32
}

/// The length field of a frame: the length of the payload, cut to 32 bits.
pub open spec fn length_field(len: nat) -> u32 {
    (len % 0x1_0000_0000) as u32
}

/// The frame of a message.
pub open spec fn frame(kind: MessageType, payload: Seq<u8>) -> Seq<u8> {
    magic() + le_bytes(length_field(payload.len())) + le_bytes(kind.code_spec()) + payload
}

/// What the front of a stream of bytes holds.
pub ghost enum Parse {
    /// More bytes are needed to tell.
    Incomplete,
    /// No frame.
    Invalid(ProtocolError),
    /// A frame of `HEADER_LEN + payload.len()` bytes.
    Frame { kind: MessageType, payload: Seq<u8> },
}

/// Reads the front of a stream: the magic as soon as six bytes are there,
/// then the header as soon as fourteen are, then the payload as soon as it
/// is whole.
pub open spec fn parse(bytes: Seq<u8>) -> Parse {
    if bytes.len() < 6 {
        Parse::Incomplete
    } else if bytes.take(6) != magic() {
        Parse::Invalid(ProtocolError::BadMagic)
    } else if bytes.len() < 14 {
        Parse::Incomplete
    } else {
        let len = le_value(bytes.subrange(6, 10));
        let code = le_value(bytes.subrange(10, 14));
        match kind_of(code) {
            None => Parse::Invalid(ProtocolError::UnknownKind(code)),
            Some(kind) => if bytes.len() < 14 + len {
                Parse::Incomplete
            } else {
                Parse::Frame { kind, payload: bytes.subrange(14, 14 + len) }
            },
        }
    }
}

/// Decoding undoes encoding: a stream that begins with the frame of a
/// message holds that message at its front, whatever follows. A payload of
/// more bytes than the length field can count is cut short on the wire and
/// is left out here.
pub proof fn lemma_frame_round_trip(kind: MessageType, payload: Seq<u8>, rest: Seq<u8>)
    requires
        payload.len() <= u32::MAX,
    ensures
        parse(frame(kind, payload) + rest) == (Parse::Frame { kind, payload }),
{
    let len = length_field(payload.len());
    let bytes = frame(kind, payload) + rest;
    lemma_le_round_trip(len);
    lemma_le_round_trip(kind.code_spec());
    lemma_kind_of_code(kind);
    assert(bytes.take(6) =~= magic());
    assert(bytes.subrange(6, 10) =~= le_bytes(len));
    assert(bytes.subrange(10, 14) =~= le_bytes(kind.code_spec()));
    assert(bytes.subrange(14, 14 + len) =~= payload);
}

/// A stream whose first six bytes are not the magic is refused, whatever
/// follows them.
pub proof fn lemma_bad_magic_is_refused(bytes: Seq<u8>)
    requires
        bytes.len() >= 6,
        bytes.take(6) != magic(),
    ensures
        parse(bytes) == Parse::Invalid(ProtocolError::BadMagic),
{
}

/// A header with the code of no kind is refused, whatever follows it.
pub proof fn lemma_unknown_kind_is_refused(bytes: Seq<u8>)
    requires
        bytes.len() >= HEADER_LEN,
        bytes.take(6) == magic(),
        kind_of(le_value(bytes.subrange(10, 14))) is None,
    ensures
        parse(bytes) == Parse::Invalid(
            ProtocolError::UnknownKind(le_value(bytes.subrange(10, 14))),
        ),
{
}

/// Only a frame is read as one: where the front of a stream holds a
/// message, the stream begins with the frame of that message.
pub proof fn lemma_parsed_frame(bytes: Seq<u8>)
    requires
        parse(bytes) is Frame,
    ensures
        ({
            let kind = parse(bytes)->kind;
            let payload = parse(bytes)->payload;
            &&& payload.len() <= u32::MAX
            &&& bytes.len() >= HEADER_LEN + payload.len()
            &&& bytes.take(HEADER_LEN + payload.len()) == frame(kind, payload)
        }),
{
    let kind = parse(bytes)->kind;
    let payload = parse(bytes)->payload;
    let len = le_value(bytes.subrange(6, 10));
    let code = le_value(bytes.subrange(10, 14));
    lemma_code_of_kind(code, kind);
    lemma_le_bytes_of_value(bytes.subrange(6, 10));
    lemma_le_bytes_of_value(bytes.subrange(10, 14));
    assert(payload.len() == len);
    assert(bytes.take(14 + len) =~= bytes.take(6) + bytes.subrange(6, 10) + bytes.subrange(10, 14)
        + payload);
}

/// Four bytes are the bytes of the number that they hold.
pub proof fn lemma_le_bytes_of_value(bytes: Seq<u8>)
    requires
        bytes.len() == 4,
    ensures
        le_bytes(le_value(bytes)) == bytes,
{
    let b0 = bytes[0];
    let b1 = bytes[1];
    let b2 = bytes[2];
    let b3 = bytes[3];
    let x = le_value(bytes);
    assert(b0 as u32 + 256 * (b1 as u32) + 65536 * (b2 as u32) + 16777216 * (b3 as u32)
        <= 0xffff_ffff);
    assert(x == b0 as u32 + 256 * (b1 as u32) + 65536 * (b2 as u32) + 16777216 * (b3 as u32));
    assert(x % 256 == b0 as u32 && (x / 256) % 256 == b1 as u32 && (x / 65536) % 256 == b2 as u32
        && x / 16777216 == b3 as u32) by (bit_vector)
        requires
            x == b0 as u32 + 256 * (b1 as u32) + 65536 * (b2 as u32) + 16777216 * (b3 as u32),
    ;
    assert(le_bytes(x) =~= bytes);
}

/// Four bytes hold the number that they were made from.
pub proof fn lemma_le_round_trip(x: u32)
    ensures
        le_bytes(x).len() == 4,
        le_value(le_bytes(x)) == x,
{
    assert(x % 256 < 256 && (x / 256) % 256 < 256 && (x / 65536) % 256 < 256 && x / 16777216 < 256
        && x == (x % 256) + 256 * ((x / 256) % 256) + 65536 * ((x / 65536) % 256) + 16777216 * (x
        / 16777216)) by (bit_vector);
}

/// Appends the four bytes of `x` to `out`, the lowest first.
fn push_le(out: &mut Vec<u8>, x: u32)
    ensures
        final(out)@ == old(out)@ + le_bytes(x),
{
    out.push((x % 256) as u8);
    out.push(((x / 256) % 256) as u8);
    out.push(((x / 65536) % 256) as u8);
    out.push((x / 16777216) as u8);
    assert(out@ =~= old(out)@ + le_bytes(x));
}

/// The number that the four bytes from `at` on hold.
fn read_le(bytes: &Vec<u8>, at: usize) -> (x: u32)
    requires
        at + 4 <= bytes@.len(),
    ensures
        x == le_value(bytes@.subrange(at as int, at + 4)),
{
    let len = bytes.len();
    assert(at + 4 <= len);
    let b0: u32 = bytes[at] as u32;
    let b1: u32 = bytes[at + 1] as u32;
    let b2: u32 = bytes[at + 2] as u32;
    let b3: u32 = bytes[at + 3] as u32;
    b0 + 256 * b1 + 65536 * b2 + 16777216 * b3
}

/// Frames a message.
pub fn encode_message(kind: &MessageType, payload: &[u8]) -> (bytes: Vec<u8>)
    ensures
        bytes@ == frame(*kind, payload@),
{
    let mut bytes: Vec<u8> = Vec::new();
    bytes.push(0x69);
    bytes.push(0x33);
    bytes.push(0x2d);
    bytes.push(0x69);
    bytes.push(0x70);
    bytes.push(0x63);
    assert(bytes@ =~= magic());
    let len: u64 = payload.len() as u64;
    assert((len as u32) == len % 0x1_0000_0000) by (bit_vector);
    push_le(&mut bytes, #[verifier::truncate] (len as u32));
    push_le(&mut bytes, kind.code());
    bytes.extend_from_slice(payload);
    bytes
}

/// The names of the kinds, each in double quotes, with commas between them.
pub open spec fn quoted_names(events: Seq<MessageType>) -> Seq<char>
    decreases events.len(),
{
    if events.len() == 0 {
        Seq::empty()
    } else if events.len() == 1 {
        seq!['"'] + events[0].name_spec() + seq!['"']
    } else {
        quoted_names(events.drop_last()) + seq![','] + seq!['"'] + events.last().name_spec()
            + seq!['"']
    }
}

/// The text of a subscription request: the JSON array of the names of the
/// kinds.
pub open spec fn subscribe_text(events: Seq<MessageType>) -> Seq<char> {
    seq!['['] + quoted_names(events) + seq![']']
}

/// The payload of a subscription request.
pub open spec fn subscribe_payload(events: Seq<MessageType>) -> Seq<u8> {
    vstd::utf8::encode_utf8(subscribe_text(events))
}

/// Writes the payload of a subscription request.
pub fn encode_subscription(events: &[MessageType]) -> (payload: Vec<u8>)
    ensures
        payload@ == subscribe_payload(events@),
{
    let mut text = String::from_str("[");
    proof {
        reveal_strlit("[");
        reveal_strlit("]");
        reveal_strlit(",");
        reveal_strlit("\"");
        assert(text@ =~= seq!['['] + quoted_names(events@.take(0)));
    }
    let mut i: usize = 0;
    while i < events.len()
        invariant
            i <= events@.len(),
            text@ == seq!['['] + quoted_names(events@.take(i as int)),
            ","@ == seq![','],
            "\""@ == seq!['"'],
        decreases events@.len() - i,
    {
        proof {
            let next = events@.take(i as int + 1);
            assert(next.drop_last() == events@.take(i as int));
            assert(next.last() == events@[i as int]);
        }
        if i > 0 {
            text.append(",");
        }
        text.append("\"");
        text.append(events[i].name());
        text.append("\"");
        assert(text@ =~= seq!['['] + quoted_names(events@.take(i as int + 1)));
        i = i + 1;
    }
    text.append("]");
    assert(events@.take(i as int) == events@);
    assert(text@ =~= subscribe_text(events@));
    text.as_str().as_bytes_vec()
}

/// How an exchange of a request for its reply stands.
pub ghost enum Exchange {
    /// The reply is not whole yet.
    Pending,
    /// The stream does not hold the frames of the protocol.
    Invalid(ProtocolError),
    /// The reply has come, but its payload is no JSON document.
    Garbled,
    /// The reply has come.
    Reply { kind: MessageType, value: JsonValue },
}

/// Why a subscriber could not answer an event.
#[derive(Debug, PartialEq, Eq)]
pub struct CallbackError {
    pub message: String,
}

/// Why a connection cannot go on.
#[derive(Debug, PartialEq, Eq)]
pub enum ConnectionError {
    /// The stream does not hold the frames of the protocol.
    Protocol(ProtocolError),
    /// A payload is no JSON document.
    Json(JsonError),
    /// The subscriber could not answer an event.
    Callback(CallbackError),
}

/// The mathematical value of a list of messages.
pub open spec fn messages_view(messages: Seq<(MessageType, Vec<u8>)>) -> Seq<
    (MessageType, Seq<u8>),
> {
    messages.map_values(|message: (MessageType, Vec<u8>)| (message.0, message.1@))
}

/// What a subscriber answers, as a mathematical value: the messages to
/// send, or its error.
pub open spec fn answer_view(answer: Result<Vec<(MessageType, Vec<u8>)>, CallbackError>) -> Result<
    Seq<(MessageType, Seq<u8>)>,
    CallbackError,
> {
    match answer {
        Ok(messages) => Ok(messages_view(messages@)),
        Err(error) => Err(error),
    }
}

/// The receiver of the events of a connection.
pub trait Subscriber: Sized {
    /// Whether the subscriber `before`, told of an event of this kind, may
    /// become `after` and give this answer. A subscriber that promises
    /// nothing of itself leaves this as it is.
    open spec fn answers(
        before: Self,
        kind: MessageType,
        event: JsonValue,
        after: Self,
        answer: Result<Seq<(MessageType, Seq<u8>)>, CallbackError>,
    ) -> bool {
        true
    }

    /// Takes an event and answers with the messages to send to the window
    /// manager in return.
    fn notify(&mut self, kind: MessageType, event: &Json) -> (answer: Result<
        Vec<(MessageType, Vec<u8>)>,
        CallbackError,
    >)
        ensures
            Self::answers(*old(self), kind, event@, *final(self), answer_view(answer)),
    ;
}

/// Whether the event loop can go on with what it has.
#[derive(Clone, Copy, Debug, PartialEq, Eq, Structural)]
pub enum Progress {
    /// The loop needs more bytes from the socket.
    NeedInput,
    /// The loop took a step and can take another.
    Continue,
}

/// One side of a connection to the window manager.
///
/// The connection holds no socket. Its owner moves bytes between the socket
/// and the connection: `feed` takes what was read, `take_outgoing` hands
/// out what is to be written. A connection is made for one endpoint, and a
/// clone of it is a new connection to that endpoint, not a second handle.
#[derive(Debug, PartialEq, Eq)]
pub struct Connection {
    endpoint: String,
    inbox: Vec<u8>,
    outbox: Vec<u8>,
    subscriptions: Vec<MessageType>,
    awaiting: bool,
    pending: Vec<(MessageType, Vec<u8>)>,
}

/// The mathematical value of a [`Connection`].
pub ghost struct ConnectionView {
    /// The path of the socket.
    pub endpoint: Seq<char>,
    /// The bytes that were read and not yet taken apart.
    pub inbox: Seq<u8>,
    /// The bytes that are framed and not yet written.
    pub outbox: Seq<u8>,
    /// The kinds of events that were subscribed to.
    pub subscriptions: Set<MessageType>,
    /// Whether a request was sent whose reply has not been read.
    pub awaiting: bool,
    /// The messages that answer the event taken last and whose exchange is
    /// not over, in the order in which they are sent.
    pub pending: Seq<(MessageType, Seq<u8>)>,
}

impl ConnectionView {
    /// A connection on which nothing has happened.
    pub open spec fn fresh(endpoint: Seq<char>) -> ConnectionView {
        ConnectionView {
            endpoint,
            inbox: Seq::empty(),
            outbox: Seq::empty(),
            subscriptions: Set::empty(),
            awaiting: false,
            pending: Seq::empty(),
        }
    }

    /// The connection after a message was framed for sending.
    pub open spec fn sent(self, kind: MessageType, payload: Seq<u8>) -> ConnectionView {
        ConnectionView { outbox: self.outbox + frame(kind, payload), ..self }
    }

    /// The connection after the frame at the front of its inbox was taken
    /// out; the connection itself where no frame is there.
    pub open spec fn received(self) -> ConnectionView {
        match parse(self.inbox) {
            Parse::Frame { kind, payload } => ConnectionView {
                inbox: self.inbox.skip(HEADER_LEN + payload.len()),
                ..self
            },
            _ => self,
        }
    }

    /// The connection once the request of an exchange is on its way: sent
    /// now, unless it was sent before.
    pub open spec fn requested(self, kind: MessageType, payload: Seq<u8>) -> ConnectionView {
        if self.awaiting {
            self
        } else {
            ConnectionView { awaiting: true, ..self.sent(kind, payload) }
        }
    }
}

impl ConnectionView {
    /// How the exchange stands once the request is on its way.
    pub open spec fn exchange(self, kind: MessageType, payload: Seq<u8>) -> Exchange {
        match parse(self.requested(kind, payload).inbox) {
            Parse::Incomplete => Exchange::Pending,
            Parse::Invalid(error) => Exchange::Invalid(error),
            Parse::Frame { kind: reply, payload: body } => match decoded_json(body) {
                Some(value) => Exchange::Reply { kind: reply, value },
                None => Exchange::Garbled,
            },
        }
    }

    /// The connection after a step of an exchange: the request is on its
    /// way, and the reply is taken out of the inbox once it is whole.
    pub open spec fn exchanged(self, kind: MessageType, payload: Seq<u8>) -> ConnectionView {
        let requested = self.requested(kind, payload);
        if parse(requested.inbox) is Frame {
            ConnectionView { awaiting: false, ..requested.received() }
        } else {
            requested
        }
    }
}

impl ConnectionView {
    /// The connection after a step of a subscription: a step of the
    /// exchange of the request, and the events noted once the answer has
    /// come.
    pub open spec fn subscribed(self, events: Seq<MessageType>) -> ConnectionView {
        let payload = subscribe_payload(events);
        let exchanged = self.exchanged(MessageType::Subscribe, payload);
        if self.exchange(MessageType::Subscribe, payload) is Reply {
            ConnectionView {
                subscriptions: exchanged.subscriptions.union(events.to_set()),
                ..exchanged
            }
        } else {
            exchanged
        }
    }
}

/// What a step of the event loop may do.
///
/// While messages that answer an event are pending, the step goes on with
/// the exchange of the first; the inbox is read for nothing else, so the
/// commands of one event are sent, and answered, in their order. Else the
/// step takes the next frame. A frame that is no event is dropped. An
/// event is decoded and, where its kind was subscribed to, the subscriber
/// is told of the kind and the decoded event. The messages that it answers
/// become the pending messages; its error ends the step.
pub open spec fn ran<S: Subscriber>(
    before: ConnectionView,
    subscriber: S,
    after: ConnectionView,
    notified: S,
    r: Result<Progress, ConnectionError>,
) -> bool {
    if before.pending.len() > 0 {
        let exchanged = before.exchanged(before.pending[0].0, before.pending[0].1);
        &&& notified == subscriber
        &&& match before.exchange(before.pending[0].0, before.pending[0].1) {
            Exchange::Pending => r == Ok::<Progress, ConnectionError>(Progress::NeedInput) && after
                == exchanged,
            Exchange::Invalid(error) => r == Err::<Progress, ConnectionError>(
                ConnectionError::Protocol(error),
            ) && after == exchanged,
            Exchange::Garbled => r matches Err(ConnectionError::Json(_)) && after == exchanged,
            Exchange::Reply { .. } => r == Ok::<Progress, ConnectionError>(Progress::Continue)
                && after == (ConnectionView { pending: before.pending.skip(1), ..exchanged }),
        }
    } else {
        match parse(before.inbox) {
            Parse::Incomplete => r == Ok::<Progress, ConnectionError>(Progress::NeedInput) && after
                == before && notified == subscriber,
            Parse::Invalid(error) => r == Err::<Progress, ConnectionError>(
                ConnectionError::Protocol(error),
            ) && after == before && notified == subscriber,
            Parse::Frame { kind, payload } => if !kind.is_subscription_spec() {
                r == Ok::<Progress, ConnectionError>(Progress::Continue) && after
                    == before.received() && notified == subscriber
            } else {
                match decoded_json(payload) {
                    None => r matches Err(ConnectionError::Json(_)) && after == before.received()
                        && notified == subscriber,
                    Some(event) => if !before.subscriptions.contains(kind) {
                        r == Ok::<Progress, ConnectionError>(Progress::Continue) && after
                            == before.received() && notified == subscriber
                    } else if r is Ok {
                        &&& r == Ok::<Progress, ConnectionError>(Progress::Continue)
                        &&& S::answers(subscriber, kind, event, notified, Ok(after.pending))
                        &&& after == (ConnectionView { pending: after.pending, ..before.received() })
                    } else {
                        &&& r matches Err(ConnectionError::Callback(error)) && S::answers(
                            subscriber,
                            kind,
                            event,
                            notified,
                            Err(error),
                        )
                        &&& after == before.received()
                    },
                }
            },
        }
    }
}

impl ConnectionView {
    /// The connection after a subscriber has answered: its messages wait
    /// behind those that waited before; its error changes nothing.
    pub open spec fn answered(
        self,
        answer: Result<Seq<(MessageType, Seq<u8>)>, CallbackError>,
    ) -> ConnectionView {
        match answer {
            Ok(messages) => ConnectionView { pending: self.pending + messages, ..self },
            Err(_) => self,
        }
    }
}

impl View for Connection {
    type V = ConnectionView;

    closed spec fn view(&self) -> ConnectionView {
        ConnectionView {
            endpoint: self.endpoint@,
            inbox: self.inbox@,
            outbox: self.outbox@,
            subscriptions: self.subscriptions@.to_set(),
            awaiting: self.awaiting,
            pending: messages_view(self.pending@),
        }
    }
}

impl Connection {
    /// A connection for the socket at `path`, on which nothing has happened.
    pub fn connect(path: &str) -> (connection: Connection)
        ensures
            connection@ == ConnectionView::fresh(path@),
    {
        let connection = Connection {
            endpoint: String::from_str(path),
            inbox: Vec::new(),
            outbox: Vec::new(),
            subscriptions: Vec::new(),
            awaiting: false,
            pending: Vec::new(),
        };
        assert(connection.subscriptions@.to_set() =~= Set::empty());
        assert(messages_view(connection.pending@) =~= Seq::empty());
        connection
    }

    /// The path of the socket.
    pub fn endpoint(&self) -> (path: &str)
        ensures
            path@ == self@.endpoint,
    {
        self.endpoint.as_str()
    }

    /// Whether bytes wait to be written.
    pub fn has_outgoing(&self) -> (some: bool)
        ensures
            some == (self@.outbox.len() > 0),
    {
        self.outbox.len() > 0
    }

    /// Whether the event loop may end here: no reply is awaited and no
    /// message that answers an event is still to be exchanged, so that
    /// ending cuts no exchange in two.
    pub fn may_stop(&self) -> (idle: bool)
        ensures
            idle == (!self@.awaiting && self@.pending.len() == 0),
    {
        !self.awaiting && self.pending.len() == 0
    }

    /// Whether a request was sent whose reply has not been read.
    pub fn is_awaiting(&self) -> (awaiting: bool)
        ensures
            awaiting == self@.awaiting,
    {
        self.awaiting
    }

    /// Takes in bytes that were read from the socket.
    pub fn feed(&mut self, bytes: &[u8])
        ensures
            final(self)@ == (ConnectionView { inbox: old(self)@.inbox + bytes@, ..old(self)@ }),
    {
        self.inbox.extend_from_slice(bytes);
        assert(self.inbox@ =~= old(self).inbox@ + bytes@);
    }

    /// Hands out the bytes that are to be written to the socket.
    pub fn take_outgoing(&mut self) -> (bytes: Vec<u8>)
        ensures
            bytes@ == old(self)@.outbox,
            final(self)@ == (ConnectionView { outbox: Seq::empty(), ..old(self)@ }),
    {
        let bytes = self.outbox.split_off(0);
        assert(bytes@ =~= old(self).outbox@);
        assert(self.outbox@ =~= Seq::empty());
        bytes
    }

    /// Frames a message for sending.
    pub fn send_message(&mut self, message_type: &MessageType, message: &[u8])
        ensures
            final(self)@ == old(self)@.sent(*message_type, message@),
    {
        let mut bytes = encode_message(message_type, message);
        self.outbox.append(&mut bytes);
    }

    /// Whether events of this kind were subscribed to.
    pub fn is_subscribed(&self, kind: MessageType) -> (subscribed: bool)
        ensures
            subscribed == self@.subscriptions.contains(kind),
    {
        let mut i: usize = 0;
        while i < self.subscriptions.len()
            invariant
                i <= self.subscriptions@.len(),
                forall|j: int| 0 <= j < i ==> self.subscriptions@[j] != kind,
            decreases self.subscriptions@.len() - i,
        {
            if self.subscriptions[i] == kind {
                assert(self.subscriptions@.contains(kind));
                return true;
            }
            i = i + 1;
        }
        assert(!self.subscriptions@.contains(kind));
        false
    }

    /// One step of an exchange: sends the request, unless it is on its way
    /// already, and takes the next frame as its reply.
    ///
    /// `None` means that the reply is not whole yet; the caller feeds more
    /// bytes and calls again with the same request. Whatever frame comes
    /// next counts as the reply, so one exchange runs on a connection at a
    /// time.
    pub fn communicate(&mut self, message_type: &MessageType, message: &[u8]) -> (r: Result<
        Option<(MessageType, Json)>,
        ConnectionError,
    >)
        ensures
            final(self)@ == old(self)@.exchanged(*message_type, message@),
            match old(self)@.exchange(*message_type, message@) {
                Exchange::Pending => r == Ok::<Option<(MessageType, Json)>, ConnectionError>(None),
                Exchange::Invalid(error) => r == Err::<
                    Option<(MessageType, Json)>,
                    ConnectionError,
                >(ConnectionError::Protocol(error)),
                Exchange::Garbled => r matches Err(ConnectionError::Json(_)),
                Exchange::Reply { kind, value } => r matches Ok(Some(reply)) && reply.0 == kind
                    && reply.1@ == value,
            },
    {
        if !self.awaiting {
            self.send_message(message_type, message);
            self.awaiting = true;
        }
        match self.receive_message() {
            Err(error) => Err(ConnectionError::Protocol(error)),
            Ok(None) => Ok(None),
            Ok(Some((kind, payload))) => {
                self.awaiting = false;
                match Json::parse(payload.as_slice()) {
                    Ok(value) => Ok(Some((kind, value))),
                    Err(error) => Err(ConnectionError::Json(error)),
                }
            },
        }
    }

    /// One step of a subscription: asks the window manager for the events
    /// and, once it has answered, notes that they were subscribed to.
    ///
    /// `false` means that the answer is not whole yet; the caller feeds
    /// more bytes and calls again with the same events. What the answer
    /// says is not looked at.
    pub fn subscribe(&mut self, events: &[MessageType]) -> (r: Result<bool, ConnectionError>)
        ensures
            final(self)@ == old(self)@.subscribed(events@),
            match old(self)@.exchange(MessageType::Subscribe, subscribe_payload(events@)) {
                Exchange::Pending => r == Ok::<bool, ConnectionError>(false),
                Exchange::Invalid(error) => r == Err::<bool, ConnectionError>(
                    ConnectionError::Protocol(error),
                ),
                Exchange::Garbled => r matches Err(ConnectionError::Json(_)),
                Exchange::Reply { .. } => r == Ok::<bool, ConnectionError>(true),
            },
    {
        let payload = encode_subscription(events);
        match self.communicate(&MessageType::Subscribe, payload.as_slice()) {
            Err(error) => Err(error),
            Ok(None) => Ok(false),
            Ok(Some(_)) => {
                let ghost before = self.subscriptions@;
                let mut i: usize = 0;
                while i < events.len()
                    invariant
                        i <= events@.len(),
                        self.subscriptions@ == before + events@.take(i as int),
                        self.endpoint@ == old(self).endpoint@,
                        self.awaiting == false,
                        messages_view(self.pending@) == old(self)@.pending,
                        self.inbox@ == old(self)@.exchanged(
                            MessageType::Subscribe,
                            subscribe_payload(events@),
                        ).inbox,
                        self.outbox@ == old(self)@.exchanged(
                            MessageType::Subscribe,
                            subscribe_payload(events@),
                        ).outbox,
                    decreases events@.len() - i,
                {
                    self.subscriptions.push(events[i]);
                    assert(self.subscriptions@ =~= before + events@.take(i as int + 1));
                    i = i + 1;
                }
                assert(events@.take(i as int) == events@);
                proof {
                    vstd::seq_lib::seq_to_set_distributes_over_add(before, events@);
                }
                Ok(true)
            },
        }
    }

    /// Hands an event to the subscriber, where events of its kind were
    /// subscribed to; else nothing is sent in return.
    pub fn call_callback<S: Subscriber>(
        &self,
        subscription: &MessageType,
        response: &Json,
        subscriber: &mut S,
    ) -> (answer: Result<Vec<(MessageType, Vec<u8>)>, CallbackError>)
        ensures
            if self@.subscriptions.contains(*subscription) {
                S::answers(
                    *old(subscriber),
                    *subscription,
                    response@,
                    *final(subscriber),
                    answer_view(answer),
                )
            } else {
                *final(subscriber) == *old(subscriber) && (answer matches Ok(messages)
                    && messages@.len() == 0)
            },
    {
        if self.is_subscribed(*subscription) {
            subscriber.notify(*subscription, response)
        } else {
            Ok(Vec::new())
        }
    }

    /// Takes the answer of a subscriber: its messages are to be exchanged
    /// with the window manager, behind those that still wait; its error
    /// ends the loop.
    pub fn take_answer(&mut self, answer: Result<Vec<(MessageType, Vec<u8>)>, CallbackError>) -> (r:
        Result<Progress, ConnectionError>)
        ensures
            final(self)@ == old(self)@.answered(answer_view(answer)),
            match answer {
                Ok(_) => r == Ok::<Progress, ConnectionError>(Progress::Continue),
                Err(error) => r == Err::<Progress, ConnectionError>(
                    ConnectionError::Callback(error),
                ),
            },
    {
        match answer {
            Ok(messages) => {
                let ghost before = self.pending@;
                let mut messages = messages;
                let ghost added = messages@;
                self.pending.append(&mut messages);
                assert(messages_view(self.pending@) =~= messages_view(before) + messages_view(
                    added,
                ));
                Ok(Progress::Continue)
            },
            Err(error) => Err(ConnectionError::Callback(error)),
        }
    }

    /// One step of the event loop. The caller feeds the bytes that it reads
    /// from the socket, takes steps until the loop needs more, and writes
    /// what is to go out.
    pub fn run<S: Subscriber>(&mut self, subscriber: &mut S) -> (r: Result<
        Progress,
        ConnectionError,
    >)
        ensures
            ran(old(self)@, *old(subscriber), final(self)@, *final(subscriber), r),
    {
        if self.pending.len() > 0 {
            let ghost before = self.pending@;
            let message = self.pending.remove(0);
            assert(messages_view(self.pending@) =~= messages_view(before).skip(1));
            let outcome = self.communicate(&message.0, message.1.as_slice());
            let ghost rest = self.pending@;
            assert(messages_view(rest) == messages_view(before).skip(1));
            assert(self@ == (ConnectionView {
                pending: messages_view(before).skip(1),
                ..old(self)@.exchanged(message.0, message.1@)
            }));
            match outcome {
                Ok(Some(_)) => Ok(Progress::Continue),
                Ok(None) => {
                    self.pending.insert(0, message);
                    proof {
                        lemma_put_back(before, rest, self.pending@);
                    }
                    Ok(Progress::NeedInput)
                },
                Err(error) => {
                    self.pending.insert(0, message);
                    proof {
                        lemma_put_back(before, rest, self.pending@);
                    }
                    Err(error)
                },
            }
        } else {
            assert(messages_view(self.pending@) =~= Seq::empty());
            match self.receive_message() {
                Err(error) => Err(ConnectionError::Protocol(error)),
                Ok(None) => Ok(Progress::NeedInput),
                Ok(Some((kind, payload))) => {
                    if !kind.is_subscription() {
                        return Ok(Progress::Continue);
                    }
                    match Json::parse(payload.as_slice()) {
                        Err(error) => Err(ConnectionError::Json(error)),
                        Ok(event) => {
                            let answer = self.call_callback(&kind, &event, subscriber);
                            proof {
                                if let Ok(messages) = &answer {
                                    assert(Seq::<(MessageType, Seq<u8>)>::empty() + messages_view(
                                        messages@,
                                    ) =~= messages_view(messages@));
                                    assert(messages@.len() == 0 ==> messages_view(messages@)
                                        =~= Seq::empty());
                                }
                            }
                            self.take_answer(answer)
                        },
                    }
                },
            }
        }
    }

    /// Takes the next frame out of the bytes that were read. `None` means
    /// that the frame is not whole yet.
    pub fn receive_message(&mut self) -> (r: Result<Option<(MessageType, Vec<u8>)>, ProtocolError>)
        ensures
            final(self)@ == old(self)@.received(),
            match parse(old(self)@.inbox) {
                Parse::Incomplete => r == Ok::<Option<(MessageType, Vec<u8>)>, ProtocolError>(None),
                Parse::Invalid(error) => r == Err::<Option<(MessageType, Vec<u8>)>, ProtocolError>(
                    error,
                ),
                Parse::Frame { kind, payload } => r matches Ok(Some(message)) && message.0 == kind
                    && message.1@ == payload,
            },
    {
        let n = self.inbox.len();
        if n < 6 {
            return Ok(None);
        }
        let ghost front = self.inbox@.take(6);
        assert(forall|i: int| 0 <= i < 6 ==> front[i] == self.inbox@[i]);
        if self.inbox[0] != 0x69 || self.inbox[1] != 0x33 || self.inbox[2] != 0x2d
            || self.inbox[3] != 0x69 || self.inbox[4] != 0x70 || self.inbox[5] != 0x63 {
            assert(front != magic()) by {
                if front == magic() {
                    assert(front[0] == 0x69 && front[1] == 0x33 && front[2] == 0x2d && front[3]
                        == 0x69 && front[4] == 0x70 && front[5] == 0x63);
                }
            }
            return Err(ProtocolError::BadMagic);
        }
        assert(front =~= magic());
        if n < HEADER_LEN {
            return Ok(None);
        }
        let len = read_le(&self.inbox, 6);
        let code = read_le(&self.inbox, 10);
        match MessageType::try_from(code) {
            Err(error) => Err(error),
            Ok(kind) => {
                if ((n - HEADER_LEN) as u64) < len as u64 {
                    return Ok(None);
                }
                let end: usize = HEADER_LEN + len as usize;
                let rest = self.inbox.split_off(end);
                let payload = self.inbox.split_off(HEADER_LEN);
                self.inbox = rest;
                assert(payload@ =~= old(self).inbox@.subrange(14, 14 + len));
                assert(self.inbox@ =~= old(self).inbox@.skip(HEADER_LEN + payload@.len()));
                Ok(Some((kind, payload)))
            },
        }
    }
}

/// A list of messages whose first was taken off and put back stands for
/// what it stood for before.
proof fn lemma_put_back(
    before: Seq<(MessageType, Vec<u8>)>,
    rest: Seq<(MessageType, Vec<u8>)>,
    after: Seq<(MessageType, Vec<u8>)>,
)
    requires
        before.len() > 0,
        messages_view(rest) == messages_view(before).skip(1),
        after == rest.insert(0, before[0]),
    ensures
        messages_view(after) == messages_view(before),
{
    assert(messages_view(rest).len() == rest.len());
    assert forall|i: int| 0 <= i < after.len() implies messages_view(after)[i] == messages_view(
        before,
    )[i] by {
        if i > 0 {
            assert(after[i] == rest[i - 1]);
            assert(messages_view(rest)[i - 1] == messages_view(before).skip(1)[i - 1]);
        }
    }
    assert(messages_view(after) =~= messages_view(before));
}

impl Clone for Connection {
    /// A new connection to the same endpoint: nothing of what happened on
    /// this one carries over.
    fn clone(&self) -> (connection: Connection)
        ensures
            connection@ == ConnectionView::fresh(self@.endpoint),
    {
        Connection::connect(self.endpoint.as_str())
    }
}

} // verus!
