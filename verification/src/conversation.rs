//! Turns and conversations. A conversation is a list of turns in dialogue
//! order; its last turn is the one that still waits for an answer.

use vstd::prelude::*;

use crate::error::ProtocolError;

verus! {

/// Who speaks in a turn.
#[derive(Clone, Copy, Debug, PartialEq, Eq, Structural)]
pub enum GptActor {
    System,
    User,
    Assistant,
}

/// One turn of a dialogue.
#[derive(Clone, Debug)]
pub struct GptMessage {
    pub actor: GptActor,
    pub message: String,
}

/// A turn as contracts speak of it: who spoke, and the text as characters.
pub struct Turn {
    pub actor: GptActor,
    pub message: Seq<char>,
}

impl View for GptMessage {
    type V = Turn;

    open spec fn view(&self) -> Turn {
        Turn { actor: self.actor, message: self.message@ }
    }
}

/// A list of messages as the turns they stand for, in the same order.
pub open spec fn turns(history: Seq<GptMessage>) -> Seq<Turn> {
    Seq::new(history.len(), |i: int| history[i]@)
}

impl PartialEq for GptMessage {
    fn eq(&self, other: &GptMessage) -> (r: bool) {
        self.actor == other.actor && self.message == other.message
    }
}

impl vstd::std_specs::cmp::PartialEqSpecImpl for GptMessage {
    open spec fn obeys_eq_spec() -> bool {
        true
    }

    open spec fn eq_spec(&self, other: &GptMessage) -> bool {
        self.actor == other.actor && self.message@ == other.message@
    }
}

impl GptMessage {
    pub fn new(actor: GptActor, message: String) -> (r: GptMessage)
        ensures
            r.actor == actor,
            r.message == message,
    {
        GptMessage { actor, message }
    }
}

/// Splits a conversation into what was said before and the newest turn. The
/// order of the earlier turns is kept. A conversation of one turn has an
/// empty context and is accepted; only an empty conversation is refused.
pub fn split_conversation(history: Vec<GptMessage>) -> (r: Result<
    (Vec<GptMessage>, GptMessage),
    ProtocolError,
>)
    ensures
        history@.len() > 0 ==> r is Ok && r->Ok_0.0@ == history@.drop_last() && r->Ok_0.1
            == history@.last(),
        history@.len() == 0 ==> r == Err::<(Vec<GptMessage>, GptMessage), ProtocolError>(
            ProtocolError::NoMessages,
        ),
{
    let mut context = history;
    match context.pop() {
        Some(newest) => Ok((context, newest)),
        None => Err(ProtocolError::NoMessages),
    }
}

/// The context of a split never holds the newest turn twice over: context and
/// newest together are the conversation again.
pub proof fn lemma_split_rejoins(history: Seq<GptMessage>)
    requires
        history.len() > 0,
    ensures
        history.drop_last().push(history.last()) == history,
        turns(history.drop_last()).push(history.last()@) == turns(history),
{
    assert(history.drop_last().push(history.last()) =~= history);
    assert(turns(history.drop_last()).push(history.last()@) =~= turns(history));
}

} // verus!
