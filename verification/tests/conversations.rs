use chatgpt::config::ChatGPTEngine;
use chatgpt::types::{ChatMessage, Role};
use gpt_for_uds::conversation::{split_conversation, GptActor, GptMessage};
use gpt_for_uds::engine::{get_client_actor, get_client_engine, get_client_messages, GptEngine};
use gpt_for_uds::error::ProtocolError;

fn turn(actor: GptActor, text: &str) -> GptMessage {
    GptMessage::new(actor, text.to_string())
}

#[test]
fn an_empty_conversation_is_refused() {
    assert_eq!(split_conversation(Vec::new()), Err(ProtocolError::NoMessages));
}

#[test]
fn a_single_turn_has_an_empty_context() {
    let (context, newest) = split_conversation(vec![turn(GptActor::User, "hi")]).unwrap();
    assert!(context.is_empty());
    assert_eq!(newest, turn(GptActor::User, "hi"));
}

#[test]
fn the_last_turn_is_the_newest_and_order_is_kept() {
    let history = vec![
        turn(GptActor::System, "sys"),
        turn(GptActor::User, "one"),
        turn(GptActor::Assistant, "two"),
        turn(GptActor::User, "three"),
    ];
    let (context, newest) = split_conversation(history).unwrap();
    assert_eq!(
        context,
        vec![
            turn(GptActor::System, "sys"),
            turn(GptActor::User, "one"),
            turn(GptActor::Assistant, "two"),
        ]
    );
    assert_eq!(newest, turn(GptActor::User, "three"));
}

#[test]
fn messages_compare_by_speaker_and_text() {
    assert_eq!(turn(GptActor::User, "a"), turn(GptActor::User, "a"));
    assert_ne!(turn(GptActor::User, "a"), turn(GptActor::Assistant, "a"));
    assert_ne!(turn(GptActor::User, "a"), turn(GptActor::User, "b"));
}

#[test]
fn each_variant_selects_its_backend() {
    assert_eq!(get_client_engine(&GptEngine::Gpt35Turbo("t".to_string())), ChatGPTEngine::Gpt35Turbo);
    assert_eq!(get_client_engine(&GptEngine::Gpt4("t".to_string())), ChatGPTEngine::Gpt4);
    assert_eq!(get_client_engine(&GptEngine::Gpt4_32k("t".to_string())), ChatGPTEngine::Gpt4_32k);
}

#[test]
fn each_variant_carries_its_credential() {
    assert_eq!(GptEngine::Gpt35Turbo("a".to_string()).token(), "a");
    assert_eq!(GptEngine::Gpt4("b".to_string()).token(), "b");
    assert_eq!(GptEngine::Gpt4_32k("c".to_string()).token(), "c");
}

#[test]
fn actors_map_to_the_roles_of_the_engine() {
    assert_eq!(get_client_actor(GptActor::System), Role::System);
    assert_eq!(get_client_actor(GptActor::User), Role::User);
    assert_eq!(get_client_actor(GptActor::Assistant), Role::Assistant);
}

#[test]
fn a_context_is_handed_over_turn_by_turn() {
    let history = vec![
        turn(GptActor::System, "sys"),
        turn(GptActor::User, "hi"),
        turn(GptActor::Assistant, "hello"),
    ];
    assert_eq!(
        get_client_messages(&history),
        vec![
            ChatMessage { role: Role::System, content: "sys".to_string() },
            ChatMessage { role: Role::User, content: "hi".to_string() },
            ChatMessage { role: Role::Assistant, content: "hello".to_string() },
        ]
    );
    assert!(get_client_messages(&Vec::new()).is_empty());
}
