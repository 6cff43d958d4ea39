//! Whole runs of a connection: what reaches the wire, and where the
//! connection ends up, over any sequence of reports.

use chatgpt::types::ResponseChunk;
use vstd::prelude::*;
use vstd::utf8::{encode_utf8, valid_utf8};

use crate::connection::{chunk_delta, closed, transition, Action, ConnectionEvent, ConnectionState};
use crate::conversation::GptMessage;
use crate::frame::{be_value, frames_encoding, lemma_stream_round_trip, stream_payloads};
use crate::text::text_frame;

verus! {

/// The bytes that an action puts on the wire.
pub open spec fn written(action: Action) -> Seq<u8> {
    match action {
        Action::Write { frame } => frame,
        _ => Seq::empty(),
    }
}

/// The state of a connection after it was told `events`, one after the
/// other, starting in `state`.
pub open spec fn state_after(state: ConnectionState, events: Seq<ConnectionEvent>) -> ConnectionState
    decreases events.len(),
{
    if events.len() == 0 {
        state
    } else {
        state_after(transition(state, events[0]).0, events.drop_first())
    }
}

/// All that a connection puts on the wire while it is told `events`, in the
/// order in which it is written.
pub open spec fn wire_output(state: ConnectionState, events: Seq<ConnectionEvent>) -> Seq<u8>
    decreases events.len(),
{
    if events.len() == 0 {
        Seq::empty()
    } else {
        written(transition(state, events[0]).1) + wire_output(
            transition(state, events[0]).0,
            events.drop_first(),
        )
    }
}

/// Whether the engine has not yet been reached in this state.
pub open spec fn before_engine(state: ConnectionState) -> bool {
    state is AwaitingHeader || state is AwaitingPayload || state is AwaitingConversation
        || state is AwaitingEngine
}

/// A run that begins with `first` goes on from where `first` leads.
pub proof fn lemma_run_unfolds(state: ConnectionState, first: ConnectionEvent, rest: Seq<ConnectionEvent>)
    ensures
        state_after(state, seq![first] + rest) == state_after(transition(state, first).0, rest),
        wire_output(state, seq![first] + rest) == written(transition(state, first).1)
            + wire_output(transition(state, first).0, rest),
{
    let events = seq![first] + rest;
    assert(events[0] == first);
    assert(events.drop_first() =~= rest);
}

/// A run in two parts is the first part, then the second from where the
/// first ended.
pub proof fn lemma_run_splits(
    state: ConnectionState,
    head: Seq<ConnectionEvent>,
    tail: Seq<ConnectionEvent>,
)
    ensures
        state_after(state, head + tail) == state_after(state_after(state, head), tail),
        wire_output(state, head + tail) == wire_output(state, head) + wire_output(
            state_after(state, head),
            tail,
        ),
    decreases head.len(),
{
    if head.len() == 0 {
        assert(head + tail =~= tail);
        assert(wire_output(state, head) + wire_output(state, tail) =~= wire_output(state, tail));
    } else {
        let next = transition(state, head[0]).0;
        assert((head + tail)[0] == head[0]);
        assert((head + tail).drop_first() =~= head.drop_first() + tail);
        lemma_run_splits(next, head.drop_first(), tail);
        assert(wire_output(state, head + tail) =~= wire_output(state, head) + wire_output(
            state_after(state, head),
            tail,
        ));
    }
}

/// A closed connection stays closed and writes nothing, whatever it is told.
pub proof fn lemma_closed_is_final(events: Seq<ConnectionEvent>)
    ensures
        state_after(ConnectionState::Closed, events) == ConnectionState::Closed,
        wire_output(ConnectionState::Closed, events) == Seq::<u8>::empty(),
    decreases events.len(),
{
    if events.len() > 0 {
        lemma_closed_is_final(events.drop_first());
        assert(wire_output(ConnectionState::Closed, events) =~= Seq::<u8>::empty());
    }
}

/// Every failure is silent and final: a step that closes the connection
/// writes nothing, and nothing is written after it.
pub proof fn lemma_fails_closed(
    state: ConnectionState,
    event: ConnectionEvent,
    rest: Seq<ConnectionEvent>,
)
    requires
        transition(state, event).0 == ConnectionState::Closed,
    ensures
        transition(state, event).1 is Close,
        state_after(state, seq![event] + rest) == ConnectionState::Closed,
        wire_output(state, seq![event] + rest) == Seq::<u8>::empty(),
{
    lemma_run_unfolds(state, event, rest);
    lemma_closed_is_final(rest);
    assert(wire_output(state, seq![event] + rest) =~= Seq::<u8>::empty());
}

/// Nothing reaches the wire before the engine has started: as long as no
/// report says that it has, a connection that has not reached the engine
/// writes nothing and does not come to stream.
pub proof fn lemma_silent_before_engine(state: ConnectionState, events: Seq<ConnectionEvent>)
    requires
        before_engine(state) || state is Closed,
        forall|i: int| 0 <= i < events.len() ==> !(#[trigger] events[i] is EngineStarted),
    ensures
        wire_output(state, events) == Seq::<u8>::empty(),
        before_engine(state_after(state, events)) || state_after(state, events) is Closed,
    decreases events.len(),
{
    if events.len() > 0 {
        assert(!(events[0] is EngineStarted));
        let rest = events.drop_first();
        assert forall|i: int| 0 <= i < rest.len() implies !(#[trigger] rest[i] is EngineStarted) by {
            assert(rest[i] == events[i + 1]);
        }
        lemma_silent_before_engine(transition(state, events[0]).0, rest);
        assert(wire_output(state, events) =~= Seq::<u8>::empty());
    }
}

/// A request whose payload is not UTF-8, or whose text is not a JSON array
/// of turns, or whose conversation is empty, is refused as a breach of the
/// protocol; the connection closes, and no frame is ever sent in answer.
pub proof fn lemma_malformed_request_is_refused(
    state: ConnectionState,
    event: ConnectionEvent,
    rest: Seq<ConnectionEvent>,
)
    requires
        ({
            ||| state is AwaitingPayload && event is Read && event->Read_0@.len()
                == state->len && !valid_utf8(event->Read_0@)
            ||| state is AwaitingConversation && event is ParseFailed
            ||| state is AwaitingConversation && event is Parsed && event->Parsed_0@.len() == 0
        }),
    ensures
        transition(state, event).0 == ConnectionState::Closed,
        transition(state, event).1 is Close,
        transition(state, event).1->outcome is Err,
        transition(state, event).1->outcome->Err_0 is Protocol,
        state_after(state, seq![event] + rest) == ConnectionState::Closed,
        wire_output(state, seq![event] + rest) == Seq::<u8>::empty(),
{
    lemma_fails_closed(state, event, rest);
}

/// A well-formed request reaches the engine: after the prefix, a payload of
/// the announced length that is UTF-8, and a conversation of at least one
/// turn, the engine is called with the last turn as the one to answer and
/// all turns before it, in order, as context. With a single turn the context
/// is empty. Nothing has been written by then.
pub proof fn lemma_request_reaches_engine(header: Vec<u8>, payload: Vec<u8>, history: Vec<GptMessage>)
    requires
        header@.len() == 4,
        payload@.len() == be_value(header@) as usize,
        valid_utf8(payload@),
        history@.len() >= 1,
    ensures
        transition(ConnectionState::AwaitingHeader, ConnectionEvent::Read(header)) == (
            ConnectionState::AwaitingPayload { len: payload@.len() as usize },
            Action::Read { len: payload@.len() as usize },
        ),
        transition(
            ConnectionState::AwaitingPayload { len: payload@.len() as usize },
            ConnectionEvent::Read(payload),
        ).0 == ConnectionState::AwaitingConversation,
        transition(ConnectionState::AwaitingConversation, ConnectionEvent::Parsed(history)) == (
            ConnectionState::AwaitingEngine,
            Action::Stream { context: history@.drop_last(), newest: history@.last() },
        ),
        history@.len() == 1 ==> history@.drop_last() == Seq::<GptMessage>::empty(),
        state_after(
            ConnectionState::AwaitingHeader,
            seq![
                ConnectionEvent::Read(header),
                ConnectionEvent::Read(payload),
                ConnectionEvent::Parsed(history),
            ],
        ) == ConnectionState::AwaitingEngine,
        wire_output(
            ConnectionState::AwaitingHeader,
            seq![
                ConnectionEvent::Read(header),
                ConnectionEvent::Read(payload),
                ConnectionEvent::Parsed(history),
            ],
        ) == Seq::<u8>::empty(),
{
    let e1 = ConnectionEvent::Read(header);
    let e2 = ConnectionEvent::Read(payload);
    let e3 = ConnectionEvent::Parsed(history);
    let len = payload@.len() as usize;
    if history@.len() == 1 {
        assert(history@.drop_last() =~= Seq::<GptMessage>::empty());
    }
    let events = seq![e1, e2, e3];
    assert(events =~= seq![e1] + (seq![e2] + (seq![e3] + Seq::<ConnectionEvent>::empty())));
    lemma_run_unfolds(
        ConnectionState::AwaitingHeader,
        e1,
        seq![e2] + (seq![e3] + Seq::<ConnectionEvent>::empty()),
    );
    lemma_run_unfolds(
        ConnectionState::AwaitingPayload { len },
        e2,
        seq![e3] + Seq::<ConnectionEvent>::empty(),
    );
    lemma_run_unfolds(ConnectionState::AwaitingConversation, e3, Seq::<ConnectionEvent>::empty());
    assert(wire_output(ConnectionState::AwaitingHeader, events) =~= Seq::<u8>::empty());
}

/// What the owner of the socket reports while it relays `chunks`, when
/// every write succeeds: each item of the stream, and after each one that
/// carries text, that its frame was written.
pub open spec fn relay_events(chunks: Seq<ResponseChunk>) -> Seq<ConnectionEvent>
    decreases chunks.len(),
{
    if chunks.len() == 0 {
        Seq::empty()
    } else {
        (if chunk_delta(chunks[0]) is Some {
            seq![ConnectionEvent::Chunk(chunks[0]), ConnectionEvent::Written]
        } else {
            seq![ConnectionEvent::Chunk(chunks[0])]
        }) + relay_events(chunks.drop_first())
    }
}

/// The answer as it travels: one frame for each item that carries text, in
/// the order of the stream, and nothing for the others.
pub open spec fn answer_frames(chunks: Seq<ResponseChunk>) -> Seq<u8>
    decreases chunks.len(),
{
    if chunks.len() == 0 {
        Seq::empty()
    } else {
        (match chunk_delta(chunks[0]) {
            Some(delta) => text_frame(delta@),
            None => Seq::empty(),
        }) + answer_frames(chunks.drop_first())
    }
}

/// Whether every text in `chunks` fits in one frame.
pub open spec fn all_fit(chunks: Seq<ResponseChunk>) -> bool {
    forall|i: int|
        0 <= i < chunks.len() ==> match chunk_delta(#[trigger] chunks[i]) {
            Some(delta) => encode_utf8(delta@).len() <= u32::MAX,
            None => true,
        }
}

/// While it streams, a connection writes exactly the answer, frame by frame
/// in the order of the stream, and is ready for the next item afterwards.
pub proof fn lemma_relay_in_order(chunks: Seq<ResponseChunk>)
    requires
        all_fit(chunks),
    ensures
        state_after(ConnectionState::Streaming, relay_events(chunks)) == ConnectionState::Streaming,
        wire_output(ConnectionState::Streaming, relay_events(chunks)) == answer_frames(chunks),
    decreases chunks.len(),
{
    if chunks.len() > 0 {
        let rest = chunks.drop_first();
        assert(all_fit(rest)) by {
            assert forall|i: int| 0 <= i < rest.len() implies match chunk_delta(#[trigger] rest[i]) {
                Some(delta) => encode_utf8(delta@).len() <= u32::MAX,
                None => true,
            } by {
                assert(rest[i] == chunks[i + 1]);
            }
        }
        lemma_relay_in_order(rest);
        let first = ConnectionEvent::Chunk(chunks[0]);
        assert(chunk_delta(chunks[0]) is Some ==> encode_utf8(chunk_delta(chunks[0])->Some_0@).len()
            <= u32::MAX);
        if chunk_delta(chunks[0]) is Some {
            let tail = seq![ConnectionEvent::Written] + relay_events(rest);
            assert(relay_events(chunks) =~= seq![first] + tail);
            lemma_run_unfolds(ConnectionState::Streaming, first, tail);
            lemma_run_unfolds(ConnectionState::Writing, ConnectionEvent::Written, relay_events(rest));
            assert(wire_output(ConnectionState::Streaming, relay_events(chunks)) =~= answer_frames(
                chunks,
            ));
        } else {
            assert(relay_events(chunks) =~= seq![first] + relay_events(rest));
            lemma_run_unfolds(ConnectionState::Streaming, first, relay_events(rest));
            assert(wire_output(ConnectionState::Streaming, relay_events(chunks)) =~= answer_frames(
                chunks,
            ));
        }
    }
}

/// When the stream ends, by exhaustion or by an error, the connection
/// closes with what was written so far: the frames of the items that came
/// before, and not one byte more, whatever is reported afterwards. On the
/// wire the two endings look the same.
pub proof fn lemma_stream_end_closes(
    chunks: Seq<ResponseChunk>,
    end: ConnectionEvent,
    rest: Seq<ConnectionEvent>,
)
    requires
        all_fit(chunks),
        end is StreamEnded || end is StreamFailed,
    ensures
        state_after(ConnectionState::Streaming, relay_events(chunks) + (seq![end] + rest))
            == ConnectionState::Closed,
        wire_output(ConnectionState::Streaming, relay_events(chunks) + (seq![end] + rest))
            == answer_frames(chunks),
        transition(ConnectionState::Streaming, end) == closed(Ok(())),
{
    lemma_relay_in_order(chunks);
    lemma_run_splits(ConnectionState::Streaming, relay_events(chunks), seq![end] + rest);
    lemma_fails_closed(ConnectionState::Streaming, end, rest);
    assert(answer_frames(chunks) + Seq::<u8>::empty() =~= answer_frames(chunks));
}

/// The payloads of the answer: the UTF-8 form of each text in the stream,
/// in order.
pub open spec fn answer_payloads(chunks: Seq<ResponseChunk>) -> Seq<Seq<u8>>
    decreases chunks.len(),
{
    if chunks.len() == 0 {
        Seq::empty()
    } else {
        (match chunk_delta(chunks[0]) {
            Some(delta) => seq![encode_utf8(delta@)],
            None => Seq::empty(),
        }) + answer_payloads(chunks.drop_first())
    }
}

/// What the peer reads is what the engine said: the bytes of an answer
/// decode, frame by frame, to the texts of the stream in their order, each
/// one whole.
pub proof fn lemma_answer_decodes(chunks: Seq<ResponseChunk>)
    requires
        all_fit(chunks),
    ensures
        answer_frames(chunks) == frames_encoding(answer_payloads(chunks)),
        stream_payloads(answer_frames(chunks)) == Some(answer_payloads(chunks)),
        forall|i: int|
            0 <= i < answer_payloads(chunks).len() ==> (#[trigger] answer_payloads(chunks)[i]).len()
                <= u32::MAX,
    decreases chunks.len(),
{
    if chunks.len() > 0 {
        let rest = chunks.drop_first();
        assert(all_fit(rest)) by {
            assert forall|i: int| 0 <= i < rest.len() implies match chunk_delta(#[trigger] rest[i]) {
                Some(delta) => encode_utf8(delta@).len() <= u32::MAX,
                None => true,
            } by {
                assert(rest[i] == chunks[i + 1]);
            }
        }
        lemma_answer_decodes(rest);
        let payloads = answer_payloads(chunks);
        match chunk_delta(chunks[0]) {
            Some(delta) => {
                assert(encode_utf8(delta@).len() <= u32::MAX);
                assert(payloads[0] == encode_utf8(delta@));
                assert(payloads.drop_first() =~= answer_payloads(rest));
                assert forall|i: int| 0 <= i < payloads.len() implies (#[trigger] payloads[i]).len()
                    <= u32::MAX by {
                    if i > 0 {
                        assert(payloads[i] == answer_payloads(rest)[i - 1]);
                    }
                }
            },
            None => {
                assert(payloads =~= answer_payloads(rest));
                assert(answer_frames(chunks) =~= answer_frames(rest));
            },
        }
    }
    lemma_stream_round_trip(answer_payloads(chunks));
}

/// The reports that belong to one of two connections, in the order in
/// which they came. Each report is tagged with the connection it is for:
/// `false` for the first, `true` for the second.
pub open spec fn reports_for(tagged: Seq<(bool, ConnectionEvent)>, second: bool) -> Seq<
    ConnectionEvent,
>
    decreases tagged.len(),
{
    if tagged.len() == 0 {
        Seq::empty()
    } else if tagged[0].0 == second {
        seq![tagged[0].1] + reports_for(tagged.drop_first(), second)
    } else {
        reports_for(tagged.drop_first(), second)
    }
}

/// What two connections put on their wires when they are served side by
/// side, their reports arriving in any interleaving. Each report moves only
/// the connection it is for, and each connection writes to its own wire.
pub open spec fn side_by_side(
    first: ConnectionState,
    second: ConnectionState,
    tagged: Seq<(bool, ConnectionEvent)>,
) -> (Seq<u8>, Seq<u8>)
    decreases tagged.len(),
{
    if tagged.len() == 0 {
        (Seq::empty(), Seq::empty())
    } else if tagged[0].0 {
        let (next, action) = transition(second, tagged[0].1);
        let later = side_by_side(first, next, tagged.drop_first());
        (later.0, written(action) + later.1)
    } else {
        let (next, action) = transition(first, tagged[0].1);
        let later = side_by_side(next, second, tagged.drop_first());
        (written(action) + later.0, later.1)
    }
}

/// Connections do not mix: however the reports of two connections
/// interleave, each wire carries exactly what its connection would have
/// written had it been served alone.
pub proof fn lemma_connections_do_not_mix(
    first: ConnectionState,
    second: ConnectionState,
    tagged: Seq<(bool, ConnectionEvent)>,
)
    ensures
        side_by_side(first, second, tagged).0 == wire_output(first, reports_for(tagged, false)),
        side_by_side(first, second, tagged).1 == wire_output(second, reports_for(tagged, true)),
    decreases tagged.len(),
{
    if tagged.len() > 0 {
        let rest = tagged.drop_first();
        let event = tagged[0].1;
        if tagged[0].0 {
            lemma_connections_do_not_mix(first, transition(second, event).0, rest);
            lemma_run_unfolds(second, event, reports_for(rest, true));
        } else {
            lemma_connections_do_not_mix(transition(first, event).0, second, rest);
            lemma_run_unfolds(first, event, reports_for(rest, false));
        }
    }
}

} // verus!
