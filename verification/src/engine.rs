//! Engine variants, and how this crate's values are handed to the completion
//! engine.

use chatgpt::config::ChatGPTEngine;
use chatgpt::types::{ChatMessage, Role};
use vstd::prelude::*;

use crate::conversation::{GptActor, GptMessage};

verus! {

/// `chatgpt::types::Role`, with its variants as the engine declares them.
#[verifier::external_type_specification]
pub struct ExRole(Role);

/// `chatgpt::types::ChatMessage`, with its two public fields: the role and
/// the content.
#[verifier::external_type_specification]
pub struct ExChatMessage(ChatMessage);

/// `chatgpt::config::ChatGPTEngine`, with its variants as the engine
/// declares them.
#[verifier::external_type_specification]
pub struct ExChatGPTEngine(ChatGPTEngine);

/// One backend that clients can reach, with the credential it is called
/// with. Each variant is served on a socket of its own.
#[derive(Clone, Debug)]
#[allow(non_camel_case_types)]
pub enum GptEngine {
    Gpt35Turbo(String),
    Gpt4(String),
    Gpt4_32k(String),
}

impl GptEngine {
    /// The credential that this variant carries.
    pub open spec fn spec_token(&self) -> String {
        match *self {
            GptEngine::Gpt35Turbo(token) => token,
            GptEngine::Gpt4(token) => token,
            GptEngine::Gpt4_32k(token) => token,
        }
    }

    /// The credential that this variant carries.
    pub fn token(&self) -> (r: &String)
        ensures
            *r == self.spec_token(),
    {
        match self {
            GptEngine::Gpt35Turbo(token) => token,
            GptEngine::Gpt4(token) => token,
            GptEngine::Gpt4_32k(token) => token,
        }
    }
}

/// The backend model that a variant selects.
pub open spec fn client_engine(engine: GptEngine) -> ChatGPTEngine {
    match engine {
        GptEngine::Gpt35Turbo(_) => ChatGPTEngine::Gpt35Turbo,
        GptEngine::Gpt4(_) => ChatGPTEngine::Gpt4,
        GptEngine::Gpt4_32k(_) => ChatGPTEngine::Gpt4_32k,
    }
}

/// The role under which the engine knows an actor.
pub open spec fn client_actor(actor: GptActor) -> Role {
    match actor {
        GptActor::System => Role::System,
        GptActor::User => Role::User,
        GptActor::Assistant => Role::Assistant,
    }
}

/// The backend model that `engine` selects.
pub fn get_client_engine(engine: &GptEngine) -> (r: ChatGPTEngine)
    ensures
        r == client_engine(*engine),
{
    match engine {
        GptEngine::Gpt35Turbo(_) => ChatGPTEngine::Gpt35Turbo,
        GptEngine::Gpt4(_) => ChatGPTEngine::Gpt4,
        GptEngine::Gpt4_32k(_) => ChatGPTEngine::Gpt4_32k,
    }
}

/// The role under which the engine knows `actor`.
pub fn get_client_actor(actor: GptActor) -> (r: Role)
    ensures
        r == client_actor(actor),
{
    match actor {
        GptActor::System => Role::System,
        GptActor::User => Role::User,
        GptActor::Assistant => Role::Assistant,
    }
}

/// Hands a context to the engine's own message type: one message for each
/// turn, in the same order, with the same speaker and the same text.
pub fn get_client_messages(history: &Vec<GptMessage>) -> (r: Vec<ChatMessage>)
    ensures
        r@.len() == history@.len(),
        forall|i: int|
            0 <= i < history@.len() ==> (#[trigger] r@[i]).role == client_actor(history@[i].actor)
                && r@[i].content@ == history@[i].message@,
{
    let mut messages: Vec<ChatMessage> = Vec::new();
    let mut i: usize = 0;
    while i < history.len()
        invariant
            i <= history@.len(),
            messages@.len() == i,
            forall|k: int|
                0 <= k < i ==> (#[trigger] messages@[k]).role == client_actor(history@[k].actor)
                    && messages@[k].content@ == history@[k].message@,
        decreases history@.len() - i,
    {
        let turn = &history[i];
        messages.push(
            ChatMessage { role: get_client_actor(turn.actor), content: turn.message.clone() },
        );
        i += 1;
    }
    messages
}

} // verus!
