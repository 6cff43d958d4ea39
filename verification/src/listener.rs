//! The loop that owns one bound socket. It reads the shutdown flag, then
//! waits a bounded time for a connection, and so on; once it has seen the
//! flag raised it returns, without waiting for the handlers it spawned.
//! Whoever owns the socket performs each action and reports what came of
//! it; what to do next is decided here.

use vstd::prelude::*;

verus! {

/// How long one wait for a connection may last, in seconds. The flag is
/// read again after every wait, so a raised flag is seen within this time.
pub const ACCEPT_TIMEOUT_SECS: u64 = 2;

/// Where a listener stands.
#[derive(Clone, Copy, Debug, PartialEq, Eq, Structural)]
pub enum ListenerState {
    /// The loop runs. `accepting` says whether a wait for a connection is
    /// under way; if not, the flag is read next.
    Running { accepting: bool },
    /// The flag was seen raised; the loop is returning.
    Draining,
    /// The loop has returned. Nothing follows.
    Stopped,
}

/// What came of the last action.
#[derive(Clone, Copy, Debug, PartialEq, Eq, Structural)]
pub enum ListenerEvent {
    /// The shutdown flag was read.
    FlagRead { raised: bool },
    /// A connection arrived within the wait.
    Accepted,
    /// The wait ended with an error.
    AcceptFailed,
    /// The wait ran out with no connection.
    TimedOut,
    /// The loop has returned.
    Returned,
}

/// What the owner of the socket is to do next.
#[derive(Clone, Copy, Debug, PartialEq, Eq, Structural)]
pub enum ListenerAction {
    /// Read the shutdown flag.
    ReadFlag,
    /// Sweep the record of handlers, then wait for a connection, for at
    /// most `timeout_secs` seconds.
    Accept { timeout_secs: u64 },
    /// Spawn a handler for the connection that arrived and record its
    /// handle, then read the flag.
    Spawn,
    /// Log the error, then read the flag. The loop goes on.
    Report,
    /// Return from the loop, leaving the handlers to themselves.
    Return,
    /// Nothing: go on with what is under way, if anything is.
    Nothing,
}

/// The rule of the listener: from a state and what was reported, the next
/// state and what to do.
pub open spec fn transition(state: ListenerState, event: ListenerEvent) -> (
    ListenerState,
    ListenerAction,
) {
    match (state, event) {
        (ListenerState::Running { accepting: false }, ListenerEvent::FlagRead { raised: false }) => (
            ListenerState::Running { accepting: true },
            ListenerAction::Accept { timeout_secs: ACCEPT_TIMEOUT_SECS },
        ),
        (ListenerState::Running { accepting: false }, ListenerEvent::FlagRead { raised: true }) => (
            ListenerState::Draining,
            ListenerAction::Return,
        ),
        (ListenerState::Running { accepting: false }, _) => (state, ListenerAction::ReadFlag),
        (ListenerState::Running { accepting: true }, ListenerEvent::Accepted) => (
            ListenerState::Running { accepting: false },
            ListenerAction::Spawn,
        ),
        (ListenerState::Running { accepting: true }, ListenerEvent::AcceptFailed) => (
            ListenerState::Running { accepting: false },
            ListenerAction::Report,
        ),
        (ListenerState::Running { accepting: true }, ListenerEvent::TimedOut) => (
            ListenerState::Running { accepting: false },
            ListenerAction::ReadFlag,
        ),
        (ListenerState::Running { accepting: true }, _) => (state, ListenerAction::Nothing),
        (ListenerState::Draining, ListenerEvent::Returned) => (
            ListenerState::Stopped,
            ListenerAction::Nothing,
        ),
        (ListenerState::Draining, _) => (ListenerState::Draining, ListenerAction::Return),
        (ListenerState::Stopped, _) => (ListenerState::Stopped, ListenerAction::Nothing),
    }
}

/// A listener whose socket was just bound: it runs, and reads the flag
/// first.
pub fn start() -> (r: (ListenerState, ListenerAction))
    ensures
        r == (ListenerState::Running { accepting: false }, ListenerAction::ReadFlag),
{
    (ListenerState::Running { accepting: false }, ListenerAction::ReadFlag)
}

/// Takes one step of a listener, as `transition` rules.
pub fn step(state: ListenerState, event: ListenerEvent) -> (r: (ListenerState, ListenerAction))
    ensures
        r == transition(state, event),
{
    match state {
        ListenerState::Running { accepting: false } => match event {
            ListenerEvent::FlagRead { raised: false } => (
                ListenerState::Running { accepting: true },
                ListenerAction::Accept { timeout_secs: ACCEPT_TIMEOUT_SECS },
            ),
            ListenerEvent::FlagRead { raised: true } => (
                ListenerState::Draining,
                ListenerAction::Return,
            ),
            _ => (state, ListenerAction::ReadFlag),
        },
        ListenerState::Running { accepting: true } => match event {
            ListenerEvent::Accepted => (
                ListenerState::Running { accepting: false },
                ListenerAction::Spawn,
            ),
            ListenerEvent::AcceptFailed => (
                ListenerState::Running { accepting: false },
                ListenerAction::Report,
            ),
            ListenerEvent::TimedOut => (
                ListenerState::Running { accepting: false },
                ListenerAction::ReadFlag,
            ),
            _ => (state, ListenerAction::Nothing),
        },
        ListenerState::Draining => match event {
            ListenerEvent::Returned => (ListenerState::Stopped, ListenerAction::Nothing),
            _ => (ListenerState::Draining, ListenerAction::Return),
        },
        ListenerState::Stopped => (ListenerState::Stopped, ListenerAction::Nothing),
    }
}

/// The state of a listener after it was told `events`, one after the other,
/// starting in `state`.
pub open spec fn state_after(state: ListenerState, events: Seq<ListenerEvent>) -> ListenerState
    decreases events.len(),
{
    if events.len() == 0 {
        state
    } else {
        state_after(transition(state, events[0]).0, events.drop_first())
    }
}

/// How many waits for a connection a listener begins while it is told
/// `events`.
pub open spec fn accepts_begun(state: ListenerState, events: Seq<ListenerEvent>) -> nat
    decreases events.len(),
{
    if events.len() == 0 {
        0
    } else {
        let (next, action) = transition(state, events[0]);
        (if action is Accept {
            1nat
        } else {
            0nat
        }) + accepts_begun(next, events.drop_first())
    }
}

/// How many handlers a listener spawns while it is told `events`.
pub open spec fn handlers_spawned(state: ListenerState, events: Seq<ListenerEvent>) -> nat
    decreases events.len(),
{
    if events.len() == 0 {
        0
    } else {
        let (next, action) = transition(state, events[0]);
        (if action is Spawn {
            1nat
        } else {
            0nat
        }) + handlers_spawned(next, events.drop_first())
    }
}

/// A wait for a connection begins only right after the flag was read and
/// found down, and it is bounded. A handler is spawned only for a
/// connection that such a wait brought.
pub proof fn lemma_accept_follows_flag(state: ListenerState, event: ListenerEvent)
    ensures
        transition(state, event).1 is Accept ==> state == (ListenerState::Running {
            accepting: false,
        }) && event == (ListenerEvent::FlagRead { raised: false }) && transition(state, event).1
            == (ListenerAction::Accept { timeout_secs: ACCEPT_TIMEOUT_SECS }),
        transition(state, event).1 is Spawn ==> state == (ListenerState::Running {
            accepting: true,
        }) && event == ListenerEvent::Accepted,
{
}

/// Only the flag ends the loop. A running listener keeps running whatever
/// its socket does, be it a connection, an error or a timeout; it drains on
/// the reading that finds the flag raised, and on nothing else.
pub proof fn lemma_only_the_flag_ends_the_loop(state: ListenerState, event: ListenerEvent)
    requires
        state is Running,
    ensures
        transition(state, event).0 is Running || transition(state, event).0 is Draining,
        transition(state, event).0 is Draining <==> !state->accepting && event == (
            ListenerEvent::FlagRead { raised: true }
        ),
        transition(state, event).0 is Draining ==> transition(state, event).1
            == ListenerAction::Return,
{
}

/// Once a listener drains it never runs again: it begins no wait and spawns
/// no handler, whatever it is told, and once stopped it stays stopped.
pub proof fn lemma_draining_is_final(state: ListenerState, events: Seq<ListenerEvent>)
    requires
        state is Draining || state is Stopped,
    ensures
        state_after(state, events) is Draining || state_after(state, events) is Stopped,
        state is Stopped ==> state_after(state, events) is Stopped,
        accepts_begun(state, events) == 0,
        handlers_spawned(state, events) == 0,
    decreases events.len(),
{
    if events.len() > 0 {
        lemma_draining_is_final(transition(state, events[0]).0, events.drop_first());
    }
}

/// Whether every reading of the flag in `events` found it raised.
pub open spec fn flag_stays_raised(events: Seq<ListenerEvent>) -> bool {
    forall|i: int|
        0 <= i < events.len() && (#[trigger] events[i]) is FlagRead ==> events[i]->raised
}

/// After the flag is raised, no new wait for a connection begins. At most
/// the wait that was under way runs out, within its bound, and the one
/// connection it may still bring gets its handler; a listener that was not
/// waiting spawns none.
pub proof fn lemma_shutdown_stops_accepting(state: ListenerState, events: Seq<ListenerEvent>)
    requires
        flag_stays_raised(events),
    ensures
        accepts_begun(state, events) == 0,
        handlers_spawned(state, events) <= 1,
        state != (ListenerState::Running { accepting: true }) ==> handlers_spawned(state, events)
            == 0,
    decreases events.len(),
{
    if events.len() > 0 {
        let rest = events.drop_first();
        assert(events[0] is FlagRead ==> events[0]->raised);
        assert(flag_stays_raised(rest)) by {
            assert forall|i: int| 0 <= i < rest.len() && (#[trigger] rest[i]) is FlagRead implies rest[i]->raised by {
                assert(rest[i] == events[i + 1]);
            }
        }
        lemma_shutdown_stops_accepting(transition(state, events[0]).0, rest);
    }
}

/// A listener that has been told to return stops when it has.
pub proof fn lemma_return_stops(events: Seq<ListenerEvent>)
    ensures
        state_after(ListenerState::Draining, seq![ListenerEvent::Returned] + events)
            == ListenerState::Stopped,
{
    let all = seq![ListenerEvent::Returned] + events;
    assert(all[0] == ListenerEvent::Returned);
    assert(all.drop_first() =~= events);
    lemma_draining_is_final(ListenerState::Stopped, events);
}

} // verus!
