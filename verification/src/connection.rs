//! The life of one accepted connection: one request frame in, a conversation
//! handed to the completion engine, one frame out for each piece of text that
//! the engine produces, then the close. Whoever owns the socket performs each
//! action and reports what came of it; what to do next is decided here.

use chatgpt::types::ResponseChunk;
use vstd::prelude::*;
use vstd::utf8::{decode_utf8, encode_utf8, valid_utf8};

use crate::conversation::{split_conversation, GptMessage};
use crate::error::{HandlerError, IoError, ProtocolError};
use crate::frame::{be_value, read_message_length, HEADER_LEN};
use crate::text::{decode_text, encode_text, text_frame};

verus! {

/// `chatgpt::types::ResponseChunk`, an item of the engine's stream, with its
/// variants as the engine declares them.
#[verifier::external_type_specification]
pub struct ExResponseChunk(ResponseChunk);

/// Where a connection stands.
#[derive(Clone, Copy, Debug, PartialEq, Eq, Structural)]
pub enum ConnectionState {
    /// The length prefix of the request is being read.
    AwaitingHeader,
    /// The prefix announced `len` bytes, which are being read.
    AwaitingPayload { len: usize },
    /// The request text is being parsed.
    AwaitingConversation,
    /// The completion engine is being called.
    AwaitingEngine,
    /// The next piece of the answer is awaited.
    Streaming,
    /// A frame is being written and flushed.
    Writing,
    /// The connection is closed. Nothing follows.
    Closed,
}

/// What came of the last action.
#[derive(Debug)]
pub enum ConnectionEvent {
    /// The socket delivered these bytes.
    Read(Vec<u8>),
    /// The socket failed, or ended, before the bytes asked for were there.
    ReadFailed,
    /// The request text is this list of turns.
    Parsed(Vec<GptMessage>),
    /// The request text is not a JSON array of turns.
    ParseFailed,
    /// The engine took the call and will stream its answer.
    EngineStarted,
    /// The engine refused the call.
    EngineFailed,
    /// The engine's stream produced this item.
    Chunk(ResponseChunk),
    /// The engine's stream broke off with an error.
    StreamFailed,
    /// The engine's stream is exhausted.
    StreamEnded,
    /// The frame was written and flushed.
    Written,
    /// The socket refused the frame.
    WriteFailed,
}

/// What the owner of the socket is to do next.
#[derive(Debug)]
pub enum ConnectionAction {
    /// Read exactly `len` bytes.
    Read { len: usize },
    /// Parse `json` as a JSON array of turns.
    Parse { json: String },
    /// Call the completion engine with `context` as what was said before and
    /// `newest` as the turn to answer.
    Stream { context: Vec<GptMessage>, newest: GptMessage },
    /// Take the next item from the engine's stream.
    NextChunk,
    /// Write `frame` and flush at once.
    Write { frame: Vec<u8> },
    /// Close the connection. `outcome` is for the log; the peer sees only
    /// the close.
    Close { outcome: Result<(), HandlerError> },
}

/// An action as contracts speak of it.
pub enum Action {
    Read { len: usize },
    Parse { json: Seq<char> },
    Stream { context: Seq<GptMessage>, newest: GptMessage },
    NextChunk,
    Write { frame: Seq<u8> },
    Close { outcome: Result<(), HandlerError> },
}

impl View for ConnectionAction {
    type V = Action;

    open spec fn view(&self) -> Action {
        match *self {
            ConnectionAction::Read { len } => Action::Read { len },
            ConnectionAction::Parse { json } => Action::Parse { json: json@ },
            ConnectionAction::Stream { context, newest } => Action::Stream {
                context: context@,
                newest,
            },
            ConnectionAction::NextChunk => Action::NextChunk,
            ConnectionAction::Write { frame } => Action::Write { frame: frame@ },
            ConnectionAction::Close { outcome } => Action::Close { outcome },
        }
    }
}

/// The text that an item of the engine's stream carries, if it carries any.
/// Only content counts; the marks that open and close a response carry none.
pub open spec fn chunk_delta(chunk: ResponseChunk) -> Option<String> {
    match chunk {
        ResponseChunk::Content { delta, response_index } => Some(delta),
        _ => None,
    }
}

/// The connection closed, with this outcome.
pub open spec fn closed(outcome: Result<(), HandlerError>) -> (ConnectionState, Action) {
    (ConnectionState::Closed, Action::Close { outcome })
}

/// The rule of the connection: from a state and what was reported, the next
/// state and what to do. Every failure closes the connection, and nothing is
/// ever written but a frame that holds a piece of the engine's answer.
pub open spec fn transition(state: ConnectionState, event: ConnectionEvent) -> (
    ConnectionState,
    Action,
) {
    match (state, event) {
        (ConnectionState::AwaitingHeader, ConnectionEvent::Read(bytes)) => {
            if bytes@.len() < 4 {
                closed(Err(HandlerError::Io(IoError::ShortHeader)))
            } else if bytes@.len() > 4 {
                closed(Err(HandlerError::Unexpected))
            } else {
                (
                    ConnectionState::AwaitingPayload { len: be_value(bytes@) as usize },
                    Action::Read { len: be_value(bytes@) as usize },
                )
            }
        },
        (ConnectionState::AwaitingHeader, ConnectionEvent::ReadFailed) => closed(
            Err(HandlerError::Io(IoError::ReadFailed)),
        ),
        (ConnectionState::AwaitingPayload { len }, ConnectionEvent::Read(bytes)) => {
            if bytes@.len() < len {
                closed(Err(HandlerError::Io(IoError::ShortPayload)))
            } else if bytes@.len() > len {
                closed(Err(HandlerError::Unexpected))
            } else if !valid_utf8(bytes@) {
                closed(Err(HandlerError::Protocol(ProtocolError::InvalidUtf8)))
            } else {
                (ConnectionState::AwaitingConversation, Action::Parse { json: decode_utf8(bytes@) })
            }
        },
        (ConnectionState::AwaitingPayload { len }, ConnectionEvent::ReadFailed) => closed(
            Err(HandlerError::Io(IoError::ReadFailed)),
        ),
        (ConnectionState::AwaitingConversation, ConnectionEvent::Parsed(history)) => {
            if history@.len() == 0 {
                closed(Err(HandlerError::Protocol(ProtocolError::NoMessages)))
            } else {
                (
                    ConnectionState::AwaitingEngine,
                    Action::Stream { context: history@.drop_last(), newest: history@.last() },
                )
            }
        },
        (ConnectionState::AwaitingConversation, ConnectionEvent::ParseFailed) => closed(
            Err(HandlerError::Protocol(ProtocolError::InvalidJson)),
        ),
        (ConnectionState::AwaitingEngine, ConnectionEvent::EngineStarted) => (
            ConnectionState::Streaming,
            Action::NextChunk,
        ),
        (ConnectionState::AwaitingEngine, ConnectionEvent::EngineFailed) => closed(
            Err(HandlerError::Engine),
        ),
        (ConnectionState::Streaming, ConnectionEvent::Chunk(chunk)) => match chunk_delta(chunk) {
            Some(delta) => if encode_utf8(delta@).len() <= u32::MAX {
                (ConnectionState::Writing, Action::Write { frame: text_frame(delta@) })
            } else {
                closed(Err(HandlerError::Protocol(ProtocolError::PayloadTooLarge)))
            },
            None => (ConnectionState::Streaming, Action::NextChunk),
        },
        (ConnectionState::Streaming, ConnectionEvent::StreamFailed) => closed(Ok(())),
        (ConnectionState::Streaming, ConnectionEvent::StreamEnded) => closed(Ok(())),
        (ConnectionState::Writing, ConnectionEvent::Written) => (
            ConnectionState::Streaming,
            Action::NextChunk,
        ),
        (ConnectionState::Writing, ConnectionEvent::WriteFailed) => closed(
            Err(HandlerError::Io(IoError::WriteFailed)),
        ),
        _ => closed(Err(HandlerError::Unexpected)),
    }
}

/// A connection that was just accepted: it waits for the prefix of the
/// request.
pub fn open() -> (r: (ConnectionState, ConnectionAction))
    ensures
        r.0 == ConnectionState::AwaitingHeader,
        r.1@ == (Action::Read { len: 4 }),
{
    (ConnectionState::AwaitingHeader, ConnectionAction::Read { len: HEADER_LEN })
}

/// The text of an item of the engine's stream, if it carries any.
pub fn take_delta(chunk: ResponseChunk) -> (r: Option<String>)
    ensures
        r == chunk_delta(chunk),
{
    match chunk {
        ResponseChunk::Content { delta, response_index: _ } => Some(delta),
        _ => None,
    }
}

fn close(outcome: Result<(), HandlerError>) -> (r: (ConnectionState, ConnectionAction))
    ensures
        (r.0, r.1@) == closed(outcome),
{
    (ConnectionState::Closed, ConnectionAction::Close { outcome })
}

/// Takes one step of a connection, as `transition` rules.
pub fn step(state: ConnectionState, event: ConnectionEvent) -> (r: (
    ConnectionState,
    ConnectionAction,
))
    ensures
        (r.0, r.1@) == transition(state, event),
{
    match (state, event) {
        (ConnectionState::AwaitingHeader, ConnectionEvent::Read(bytes)) => {
            if bytes.len() > HEADER_LEN {
                return close(Err(HandlerError::Unexpected));
            }
            match read_message_length(bytes.as_slice()) {
                Ok(len) => (ConnectionState::AwaitingPayload { len }, ConnectionAction::Read { len }),
                Err(e) => close(Err(HandlerError::Io(e))),
            }
        },
        (ConnectionState::AwaitingHeader, ConnectionEvent::ReadFailed) => close(
            Err(HandlerError::Io(IoError::ReadFailed)),
        ),
        (ConnectionState::AwaitingPayload { len }, ConnectionEvent::Read(bytes)) => {
            if bytes.len() < len {
                return close(Err(HandlerError::Io(IoError::ShortPayload)));
            }
            if bytes.len() > len {
                return close(Err(HandlerError::Unexpected));
            }
            match decode_text(bytes) {
                Ok(json) => (ConnectionState::AwaitingConversation, ConnectionAction::Parse { json }),
                Err(e) => close(Err(HandlerError::Protocol(e))),
            }
        },
        (ConnectionState::AwaitingPayload { len: _ }, ConnectionEvent::ReadFailed) => close(
            Err(HandlerError::Io(IoError::ReadFailed)),
        ),
        (ConnectionState::AwaitingConversation, ConnectionEvent::Parsed(history)) => {
            match split_conversation(history) {
                Ok((context, newest)) => (
                    ConnectionState::AwaitingEngine,
                    ConnectionAction::Stream { context, newest },
                ),
                Err(e) => close(Err(HandlerError::Protocol(e))),
            }
        },
        (ConnectionState::AwaitingConversation, ConnectionEvent::ParseFailed) => close(
            Err(HandlerError::Protocol(ProtocolError::InvalidJson)),
        ),
        (ConnectionState::AwaitingEngine, ConnectionEvent::EngineStarted) => (
            ConnectionState::Streaming,
            ConnectionAction::NextChunk,
        ),
        (ConnectionState::AwaitingEngine, ConnectionEvent::EngineFailed) => close(
            Err(HandlerError::Engine),
        ),
        (ConnectionState::Streaming, ConnectionEvent::Chunk(chunk)) => match take_delta(chunk) {
            Some(delta) => match encode_text(delta.as_str()) {
                Ok(frame) => (ConnectionState::Writing, ConnectionAction::Write { frame }),
                Err(e) => close(Err(HandlerError::Protocol(e))),
            },
            None => (ConnectionState::Streaming, ConnectionAction::NextChunk),
        },
        (ConnectionState::Streaming, ConnectionEvent::StreamFailed) => close(Ok(())),
        (ConnectionState::Streaming, ConnectionEvent::StreamEnded) => close(Ok(())),
        (ConnectionState::Writing, ConnectionEvent::Written) => (
            ConnectionState::Streaming,
            ConnectionAction::NextChunk,
        ),
        (ConnectionState::Writing, ConnectionEvent::WriteFailed) => close(
            Err(HandlerError::Io(IoError::WriteFailed)),
        ),
        _ => close(Err(HandlerError::Unexpected)),
    }
}

} // verus!
