//! The connection status to Steam's servers, as Steam's events report it.
use vstd::prelude::*;

verus! {

/// Where the connection to Steam's servers stands.
#[derive(PartialEq, Eq, Structural, Clone, Copy, Debug)]
pub enum State {
    CONNECTED,
    DISCONNECTED,
    FAILURE,
}

/// The status shown to the user: the state and the message that came with it.
pub struct SteamStatus {
    state: State,
    message: String,
}

/// What Steam reports about the connection.
pub enum StateEvent {
    /// The client was logged on, or not, when events were first hooked up.
    Initial { logged_on: bool },
    /// The servers are connected.
    ServersConnected,
    /// The servers were disconnected, for the given reason.
    ServersDisconnected(String),
    /// Connecting to the servers failed, for the given reason.
    ConnectFailure(String),
}

impl SteamStatus {
    /// The current state.
    pub closed spec fn state_spec(&self) -> State {
        self.state
    }

    /// The current message.
    pub closed spec fn message_spec(&self) -> Seq<char> {
        self.message@
    }

    /// The status before Steam has reported anything: disconnected, with no message.
    pub fn new() -> (s: Self)
        ensures
            s.state_spec() == State::DISCONNECTED,
            s.message_spec() == Seq::<char>::empty(),
    {
        SteamStatus { state: State::DISCONNECTED, message: String::new() }
    }
}

impl State {
    /// The message that came with the current status.
    pub fn message(&self, status: &SteamStatus) -> (r: String)
        ensures
            r@ == status.message_spec(),
    {
        status.message.clone()
    }
}

/// Records a new state together with its message.
pub fn set_state(status: &mut SteamStatus, state: State, message: String)
    ensures
        final(status).state_spec() == state,
        final(status).message_spec() == message@,
{
    status.state = state;
    status.message = message;
}

/// The current state.
pub fn get_state(status: &SteamStatus) -> (r: State)
    ensures
        r == status.state_spec(),
{
    status.state
}

/// The state and message that an event leads to.
pub open spec fn event_outcome(event: StateEvent) -> (State, Seq<char>) {
    match event {
        StateEvent::Initial { logged_on } => if logged_on {
            (State::CONNECTED, "Connected"@)
        } else {
            (State::DISCONNECTED, "Disconnected from Steam servers"@)
        },
        StateEvent::ServersConnected => (State::CONNECTED, "Connected"@),
        StateEvent::ServersDisconnected(reason) => (State::DISCONNECTED, reason@),
        StateEvent::ConnectFailure(reason) => (State::FAILURE, reason@),
    }
}

/// Updates the status for an event that Steam reported.
pub fn on_state_event(status: &mut SteamStatus, event: StateEvent)
    ensures
        final(status).state_spec() == event_outcome(event).0,
        final(status).message_spec() == event_outcome(event).1,
{
    match event {
        StateEvent::Initial { logged_on } => {
            if logged_on {
                set_state(status, State::CONNECTED, "Connected".to_owned());
            } else {
                set_state(status, State::DISCONNECTED, "Disconnected from Steam servers".to_owned());
            }
        },
        StateEvent::ServersConnected => set_state(status, State::CONNECTED, "Connected".to_owned()),
        StateEvent::ServersDisconnected(reason) => set_state(status, State::DISCONNECTED, reason),
        StateEvent::ConnectFailure(reason) => set_state(status, State::FAILURE, reason),
    }
}

} // verus!
