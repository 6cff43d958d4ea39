use chatgpt::types::{ResponseChunk, Role};
use gpt_for_uds::connection::{
    open, step, take_delta, ConnectionAction, ConnectionEvent, ConnectionState,
};
use gpt_for_uds::conversation::{GptActor, GptMessage};
use gpt_for_uds::error::{HandlerError, IoError, ProtocolError};
use gpt_for_uds::frame::decode_frame;
use gpt_for_uds::text::{decode_text, encode_text};

/// What a run of one connection left behind.
struct Run {
    /// Every byte that was written to the peer.
    wire: Vec<u8>,
    /// The call that reached the engine, if one did.
    call: Option<(Vec<GptMessage>, GptMessage)>,
    /// How the connection closed.
    outcome: Result<(), HandlerError>,
}

fn actor_named(name: &str) -> Option<GptActor> {
    match name {
        "System" => Some(GptActor::System),
        "User" => Some(GptActor::User),
        "Assistant" => Some(GptActor::Assistant),
        _ => None,
    }
}

/// Reads a JSON array of turns, as the owner of a socket does for the
/// connection.
fn parse(json: &str) -> Option<Vec<GptMessage>> {
    let value: serde_json::Value = serde_json::from_str(json).ok()?;
    let mut history = Vec::new();
    for item in value.as_array()? {
        let actor = actor_named(item.get("actor")?.as_str()?)?;
        let message = item.get("message")?.as_str()?.to_string();
        history.push(GptMessage::new(actor, message));
    }
    Some(history)
}

/// Plays the owner of the socket: `incoming` is what the peer sends before
/// it stops, `engine` what the engine's stream yields, item by item, with
/// `Err` for a stream that breaks off.
fn serve(incoming: &[u8], engine: Vec<Result<ResponseChunk, String>>) -> Run {
    let mut run = Run { wire: Vec::new(), call: None, outcome: Ok(()) };
    let mut unread = incoming;
    let mut stream = engine.into_iter();
    let (mut state, mut action) = open();
    loop {
        let event = match action {
            ConnectionAction::Read { len } => {
                if unread.len() < len {
                    ConnectionEvent::ReadFailed
                } else {
                    let (bytes, rest) = unread.split_at(len);
                    unread = rest;
                    ConnectionEvent::Read(bytes.to_vec())
                }
            }
            ConnectionAction::Parse { json } => match parse(&json) {
                Some(history) => ConnectionEvent::Parsed(history),
                None => ConnectionEvent::ParseFailed,
            },
            ConnectionAction::Stream { context, newest } => {
                run.call = Some((context, newest));
                ConnectionEvent::EngineStarted
            }
            ConnectionAction::NextChunk => match stream.next() {
                Some(Ok(chunk)) => ConnectionEvent::Chunk(chunk),
                Some(Err(_)) => ConnectionEvent::StreamFailed,
                None => ConnectionEvent::StreamEnded,
            },
            ConnectionAction::Write { frame } => {
                run.wire.extend(frame);
                ConnectionEvent::Written
            }
            ConnectionAction::Close { outcome } => {
                assert_eq!(state, ConnectionState::Closed);
                run.outcome = outcome;
                return run;
            }
        };
        (state, action) = step(state, event);
    }
}

fn request(json: &str) -> Vec<u8> {
    encode_text(json).unwrap()
}

fn content(delta: &str) -> Result<ResponseChunk, String> {
    Ok(ResponseChunk::Content { delta: delta.to_string(), response_index: 0 })
}

/// The frames on a wire, as the texts they carry.
fn frames(mut wire: &[u8]) -> Vec<String> {
    let mut texts = Vec::new();
    while !wire.is_empty() {
        let (payload, used) = decode_frame(wire).unwrap();
        texts.push(decode_text(payload).unwrap());
        wire = &wire[used..];
    }
    texts
}

#[test]
fn a_connection_first_asks_for_the_prefix() {
    let (state, action) = open();
    assert_eq!(state, ConnectionState::AwaitingHeader);
    assert!(matches!(action, ConnectionAction::Read { len: 4 }));
}

#[test]
fn the_prefix_says_how_much_to_read() {
    let (state, action) = step(ConnectionState::AwaitingHeader, ConnectionEvent::Read(vec![0, 0, 1, 2]));
    assert_eq!(state, ConnectionState::AwaitingPayload { len: 258 });
    assert!(matches!(action, ConnectionAction::Read { len: 258 }));
}

#[test]
fn end_to_end_two_deltas() {
    let json = r#"[{"actor":"System","message":"sys"},{"actor":"User","message":"hi"}]"#;
    let run = serve(&request(json), vec![content("He"), content("llo")]);
    assert_eq!(run.outcome, Ok(()));
    let (context, newest) = run.call.unwrap();
    assert_eq!(context, vec![GptMessage::new(GptActor::System, "sys".to_string())]);
    assert_eq!(newest, GptMessage::new(GptActor::User, "hi".to_string()));
    assert_eq!(run.wire, vec![0, 0, 0, 2, b'H', b'e', 0, 0, 0, 3, b'l', b'l', b'o']);
    let texts = frames(&run.wire);
    assert_eq!(texts, vec!["He".to_string(), "llo".to_string()]);
    assert_eq!(texts.concat(), "Hello");
}

#[test]
fn engine_failure_after_one_delta() {
    let json = r#"[{"actor":"User","message":"hi"}]"#;
    let run = serve(&request(json), vec![content("He"), Err("boom".to_string()), content("llo")]);
    assert_eq!(frames(&run.wire), vec!["He".to_string()]);
    assert_eq!(run.wire, vec![0, 0, 0, 2, b'H', b'e']);
    // The close is all the peer sees; the outcome does not tell the two
    // endings apart either.
    assert_eq!(run.outcome, Ok(()));
}

#[test]
fn a_single_turn_is_accepted_with_an_empty_context() {
    let run = serve(&request(r#"[{"actor":"User","message":"alone"}]"#), vec![content("ok")]);
    let (context, newest) = run.call.unwrap();
    assert!(context.is_empty());
    assert_eq!(newest, GptMessage::new(GptActor::User, "alone".to_string()));
    assert_eq!(frames(&run.wire), vec!["ok".to_string()]);
    assert_eq!(run.outcome, Ok(()));
}

#[test]
fn an_empty_conversation_gets_no_answer() {
    let run = serve(&request("[]"), vec![content("never")]);
    assert!(run.call.is_none());
    assert!(run.wire.is_empty());
    assert_eq!(run.outcome, Err(HandlerError::Protocol(ProtocolError::NoMessages)));
}

#[test]
fn a_payload_that_is_not_json_gets_no_answer() {
    for text in ["", "{", "not json", r#"{"actor":"User","message":"hi"}"#, r#"[{"actor":"Robot","message":"hi"}]"#] {
        let run = serve(&request(text), vec![content("never")]);
        assert!(run.call.is_none());
        assert!(run.wire.is_empty());
        assert_eq!(run.outcome, Err(HandlerError::Protocol(ProtocolError::InvalidJson)));
    }
}

#[test]
fn a_payload_that_is_not_utf8_gets_no_answer() {
    let run = serve(&[0, 0, 0, 3, b'[', 0xff, b']'], vec![content("never")]);
    assert!(run.call.is_none());
    assert!(run.wire.is_empty());
    assert_eq!(run.outcome, Err(HandlerError::Protocol(ProtocolError::InvalidUtf8)));
}

#[test]
fn a_short_read_drops_the_connection() {
    let run = serve(&[0, 0], Vec::new());
    assert!(run.wire.is_empty());
    assert_eq!(run.outcome, Err(HandlerError::Io(IoError::ReadFailed)));
    let run = serve(&[0, 0, 0, 9, b'['], Vec::new());
    assert!(run.wire.is_empty());
    assert_eq!(run.outcome, Err(HandlerError::Io(IoError::ReadFailed)));
}

#[test]
fn fewer_or_more_bytes_than_asked_for_close_the_connection() {
    let (state, action) = step(ConnectionState::AwaitingHeader, ConnectionEvent::Read(vec![0, 0, 1]));
    assert_eq!(state, ConnectionState::Closed);
    assert!(matches!(action, ConnectionAction::Close { outcome: Err(HandlerError::Io(IoError::ShortHeader)) }));
    let (state, action) = step(ConnectionState::AwaitingPayload { len: 3 }, ConnectionEvent::Read(vec![b'[', b']']));
    assert_eq!(state, ConnectionState::Closed);
    assert!(matches!(action, ConnectionAction::Close { outcome: Err(HandlerError::Io(IoError::ShortPayload)) }));
    let (state, action) = step(ConnectionState::AwaitingPayload { len: 1 }, ConnectionEvent::Read(vec![b'[', b']']));
    assert_eq!(state, ConnectionState::Closed);
    assert!(matches!(action, ConnectionAction::Close { outcome: Err(HandlerError::Unexpected) }));
}

#[test]
fn an_engine_that_refuses_the_call_closes_the_connection() {
    let (state, action) = step(ConnectionState::AwaitingEngine, ConnectionEvent::EngineFailed);
    assert_eq!(state, ConnectionState::Closed);
    assert!(matches!(action, ConnectionAction::Close { outcome: Err(HandlerError::Engine) }));
}

#[test]
fn a_failed_write_closes_the_connection() {
    let (state, action) = step(ConnectionState::Writing, ConnectionEvent::WriteFailed);
    assert_eq!(state, ConnectionState::Closed);
    assert!(matches!(action, ConnectionAction::Close { outcome: Err(HandlerError::Io(IoError::WriteFailed)) }));
}

#[test]
fn only_content_is_relayed() {
    let json = r#"[{"actor":"User","message":"hi"}]"#;
    let stream = vec![
        Ok(ResponseChunk::BeginResponse { role: Role::Assistant, response_index: 0 }),
        content("a"),
        content(""),
        Ok(ResponseChunk::CloseResponse { response_index: 0 }),
        content("b"),
        Ok(ResponseChunk::Done),
    ];
    let run = serve(&request(json), stream);
    assert_eq!(frames(&run.wire), vec!["a".to_string(), String::new(), "b".to_string()]);
    assert_eq!(take_delta(ResponseChunk::Done), None);
    assert_eq!(take_delta(ResponseChunk::CloseResponse { response_index: 3 }), None);
    assert_eq!(
        take_delta(ResponseChunk::Content { delta: "x".to_string(), response_index: 1 }),
        Some("x".to_string())
    );
}

#[test]
fn an_engine_with_nothing_to_say_sends_no_frame() {
    let run = serve(&request(r#"[{"actor":"User","message":"hi"}]"#), Vec::new());
    assert!(run.call.is_some());
    assert!(run.wire.is_empty());
    assert_eq!(run.outcome, Ok(()));
}

#[test]
fn a_closed_connection_stays_closed() {
    let events = vec![
        ConnectionEvent::Read(vec![0, 0, 0, 0]),
        ConnectionEvent::Parsed(vec![GptMessage::new(GptActor::User, "hi".to_string())]),
        ConnectionEvent::EngineStarted,
        ConnectionEvent::Chunk(ResponseChunk::Content { delta: "x".to_string(), response_index: 0 }),
        ConnectionEvent::Written,
        ConnectionEvent::StreamEnded,
    ];
    for event in events {
        let (state, action) = step(ConnectionState::Closed, event);
        assert_eq!(state, ConnectionState::Closed);
        assert!(matches!(action, ConnectionAction::Close { outcome: Err(HandlerError::Unexpected) }));
    }
}

#[test]
fn two_connections_keep_their_answers_apart() {
    // Two connections are stepped in turn, as two tasks on one socket would
    // be; each is told only of its own request and its own stream.
    let requests = [
        request(r#"[{"actor":"User","message":"first"}]"#),
        request(r#"[{"actor":"User","message":"second"}]"#),
    ];
    let mut streams = [
        vec!["al", "pha"].into_iter(),
        vec!["b", "e", "ta"].into_iter(),
    ];
    let mut unread: [&[u8]; 2] = [&requests[0], &requests[1]];
    let mut wires: [Vec<u8>; 2] = [Vec::new(), Vec::new()];
    let mut asked: [Option<String>; 2] = [None, None];
    let mut machines = [Some(open()), Some(open())];
    while machines.iter().any(|m| m.is_some()) {
        for i in 0..2 {
            let Some((state, action)) = machines[i].take() else { continue };
            let event = match action {
                ConnectionAction::Read { len } => {
                    let (bytes, rest) = unread[i].split_at(len);
                    unread[i] = rest;
                    ConnectionEvent::Read(bytes.to_vec())
                }
                ConnectionAction::Parse { json } => ConnectionEvent::Parsed(parse(&json).unwrap()),
                ConnectionAction::Stream { newest, .. } => {
                    asked[i] = Some(newest.message);
                    ConnectionEvent::EngineStarted
                }
                ConnectionAction::NextChunk => match streams[i].next() {
                    Some(delta) => ConnectionEvent::Chunk(ResponseChunk::Content {
                        delta: delta.to_string(),
                        response_index: 0,
                    }),
                    None => ConnectionEvent::StreamEnded,
                },
                ConnectionAction::Write { frame } => {
                    wires[i].extend(frame);
                    ConnectionEvent::Written
                }
                ConnectionAction::Close { outcome } => {
                    assert_eq!(outcome, Ok(()));
                    continue;
                }
            };
            machines[i] = Some(step(state, event));
        }
    }
    assert_eq!(asked, [Some("first".to_string()), Some("second".to_string())]);
    assert_eq!(frames(&wires[0]), vec!["al".to_string(), "pha".to_string()]);
    assert_eq!(frames(&wires[1]), vec!["b".to_string(), "e".to_string(), "ta".to_string()]);
    assert_eq!(frames(&wires[0]).concat(), "alpha");
    assert_eq!(frames(&wires[1]).concat(), "beta");
}
