//! The life of one client connection, as the decisions that its handler
//! takes: what to do on each thing that happens, and what state follows.

use vstd::prelude::*;
use crate::net::{EventModel, Signal, SnakeEvent, SnakeEventType};

verus! {

/// Where a connection stands. The states follow one another in this
/// order, and `Closed` is final.
#[derive(Debug, Clone, Copy, PartialEq, Eq, Structural)]
pub enum ConnectionState {
    Connecting,
    Active,
    Closing,
    Closed,
}

/// What can happen to a connection.
#[derive(Debug)]
pub enum ConnectionInput {
    /// The transport has accepted the connection.
    Accepted,
    /// The simulation has published a new snapshot.
    SnapshotReady,
    /// A framed message of the peer has been read and decoded.
    Request(SnakeEvent),
    /// A read or a write failed, a message could not be read, or the peer
    /// closed the stream.
    Failed,
    /// The resources of the connection have been released.
    Released,
}

/// A [`ConnectionInput`] as a plain mathematical value.
pub enum InputModel {
    Accepted,
    SnapshotReady,
    Request(EventModel),
    Failed,
    Released,
}

impl View for ConnectionInput {
    type V = InputModel;

    open spec fn view(&self) -> InputModel {
        match self {
            ConnectionInput::Accepted => InputModel::Accepted,
            ConnectionInput::SnapshotReady => InputModel::SnapshotReady,
            ConnectionInput::Request(e) => InputModel::Request(e@),
            ConnectionInput::Failed => InputModel::Failed,
            ConnectionInput::Released => InputModel::Released,
        }
    }
}

/// What the handler has to do next.
#[derive(Debug)]
pub enum ConnectionOutput {
    Nothing,
    /// Frame the newest snapshot and write it to the peer.
    SendSnapshot,
    /// Put this event into the queue of the simulation.
    Forward(SnakeEvent),
}

/// A [`ConnectionOutput`] as a plain mathematical value.
pub enum OutputModel {
    Nothing,
    SendSnapshot,
    Forward(EventModel),
}

impl View for ConnectionOutput {
    type V = OutputModel;

    open spec fn view(&self) -> OutputModel {
        match self {
            ConnectionOutput::Nothing => OutputModel::Nothing,
            ConnectionOutput::SendSnapshot => OutputModel::SendSnapshot,
            ConnectionOutput::Forward(e) => OutputModel::Forward(e@),
        }
    }
}

/// One connection: its state and the name of its player, once that is
/// known.
#[derive(Debug)]
pub struct Connection {
    pub state: ConnectionState,
    pub player: Option<String>,
}

/// A [`Connection`] as a plain mathematical value.
pub struct ConnectionModel {
    pub state: ConnectionState,
    pub player: Option<Seq<char>>,
}

impl View for Connection {
    type V = ConnectionModel;

    open spec fn view(&self) -> ConnectionModel {
        ConnectionModel {
            state: self.state,
            player: match self.player {
                Some(name) => Some(name@),
                None => None,
            },
        }
    }
}

/// The event of kind `event_type` in the name of `player`.
pub open spec fn tagged(event_type: SnakeEventType, player: Seq<char>) -> OutputModel {
    OutputModel::Forward(EventModel { event_type, owner: player })
}

impl ConnectionModel {
    /// The state that follows on `input`. An accepted connection becomes
    /// active. An active one starts closing on a failure and on the peer's
    /// own disconnect request. A closing one is closed once its resources
    /// are released. A connection that fails before it was accepted is
    /// closed at once. Everything else leaves the state as it is.
    pub open spec fn next_state(self, input: InputModel) -> ConnectionState {
        match (self.state, input) {
            (ConnectionState::Connecting, InputModel::Accepted) => ConnectionState::Active,
            (ConnectionState::Connecting, InputModel::Failed) => ConnectionState::Closed,
            (ConnectionState::Active, InputModel::Failed) => ConnectionState::Closing,
            (ConnectionState::Active, InputModel::Request(e)) => if e.event_type
                == SnakeEventType::Signal(Signal::Disconnect) {
                ConnectionState::Closing
            } else {
                ConnectionState::Active
            },
            (ConnectionState::Closing, InputModel::Released) => ConnectionState::Closed,
            _ => self.state,
        }
    }

    /// The player after `input`. A connection that knows its player keeps
    /// it. One that does not takes the owner of the first request that it
    /// receives while it is active.
    pub open spec fn next_player(self, input: InputModel) -> Option<Seq<char>> {
        match (self.state, self.player, input) {
            (ConnectionState::Active, None, InputModel::Request(e)) => Some(e.owner),
            _ => self.player,
        }
    }

    /// The connection after `input`.
    pub open spec fn next(self, input: InputModel) -> ConnectionModel {
        ConnectionModel { state: self.next_state(input), player: self.next_player(input) }
    }

    /// What the handler does on `input`. An accepted connection announces
    /// its player with a connect event, if it knows the player. An active
    /// one sends each new snapshot, forwards each request of the peer in
    /// the name of its player, and on a failure forwards a disconnect
    /// event in the peer's stead, if it knows the player. In every other
    /// case there is nothing to do.
    pub open spec fn reaction(self, input: InputModel) -> OutputModel {
        match (self.state, input) {
            (ConnectionState::Connecting, InputModel::Accepted) => match self.player {
                Some(name) => tagged(SnakeEventType::Signal(Signal::Connect), name),
                None => OutputModel::Nothing,
            },
            (ConnectionState::Active, InputModel::SnapshotReady) => OutputModel::SendSnapshot,
            (ConnectionState::Active, InputModel::Request(e)) => tagged(
                e.event_type,
                self.next_player(input).unwrap(),
            ),
            (ConnectionState::Active, InputModel::Failed) => match self.player {
                Some(name) => tagged(SnakeEventType::Signal(Signal::Disconnect), name),
                None => OutputModel::Nothing,
            },
            _ => OutputModel::Nothing,
        }
    }
}

/// The place of a state in the life of a connection.
pub open spec fn rank(state: ConnectionState) -> nat {
    match state {
        ConnectionState::Connecting => 0,
        ConnectionState::Active => 1,
        ConnectionState::Closing => 2,
        ConnectionState::Closed => 3,
    }
}

impl Connection {
    /// A connection of `player` that has not been accepted yet.
    pub fn new(player: String) -> (c: Self)
        ensures
            c@ == (ConnectionModel {
                state: ConnectionState::Connecting,
                player: Some(player@),
            }),
    {
        Connection { state: ConnectionState::Connecting, player: Some(player) }
    }

    /// A connection that has not been accepted yet and whose player will
    /// be named by the first request of the peer.
    pub fn unnamed() -> (c: Self)
        ensures
            c@ == (ConnectionModel { state: ConnectionState::Connecting, player: None }),
    {
        Connection { state: ConnectionState::Connecting, player: None }
    }

    /// Whether the connection has reached its final state.
    pub fn is_closed(&self) -> (b: bool)
        ensures
            b == (self.state == ConnectionState::Closed),
    {
        match self.state {
            ConnectionState::Closed => true,
            _ => false,
        }
    }

    /// Whether the connection has started to close, or is closed.
    pub fn is_ending(&self) -> (b: bool)
        ensures
            b == (self.state == ConnectionState::Closing || self.state == ConnectionState::Closed),
    {
        match self.state {
            ConnectionState::Closing => true,
            ConnectionState::Closed => true,
            _ => false,
        }
    }

    /// The event of kind `event_type` in the name of this connection's
    /// player, and nothing if the player is not known.
    fn tag(&self, event_type: SnakeEventType) -> (out: ConnectionOutput)
        ensures
            out@ == match self@.player {
                Some(name) => tagged(event_type, name),
                None => OutputModel::Nothing,
            },
    {
        match &self.player {
            Some(name) => ConnectionOutput::Forward(
                SnakeEvent { event_type: event_type, event_owner: name.clone() },
            ),
            None => ConnectionOutput::Nothing,
        }
    }

    /// Takes note of `input`, moves to the state that follows, and says
    /// what the handler has to do.
    pub fn handle(&mut self, input: ConnectionInput) -> (out: ConnectionOutput)
        ensures
            final(self)@ == old(self)@.next(input@),
            out@ == old(self)@.reaction(input@),
    {
        match self.state {
            ConnectionState::Connecting => match input {
                ConnectionInput::Accepted => {
                    self.state = ConnectionState::Active;
                    self.tag(SnakeEventType::Signal(Signal::Connect))
                },
                ConnectionInput::Failed => {
                    self.state = ConnectionState::Closed;
                    ConnectionOutput::Nothing
                },
                _ => ConnectionOutput::Nothing,
            },
            ConnectionState::Active => match input {
                ConnectionInput::SnapshotReady => ConnectionOutput::SendSnapshot,
                ConnectionInput::Request(event) => {
                    let event_type = event.event_type;
                    if self.player.is_none() {
                        self.player = Some(event.event_owner);
                    }
                    match event_type {
                        SnakeEventType::Signal(Signal::Disconnect) => {
                            self.state = ConnectionState::Closing;
                        },
                        _ => {},
                    }
                    self.tag(event_type)
                },
                ConnectionInput::Failed => {
                    self.state = ConnectionState::Closing;
                    self.tag(SnakeEventType::Signal(Signal::Disconnect))
                },
                _ => ConnectionOutput::Nothing,
            },
            ConnectionState::Closing => match input {
                ConnectionInput::Released => {
                    self.state = ConnectionState::Closed;
                    ConnectionOutput::Nothing
                },
                _ => ConnectionOutput::Nothing,
            },
            ConnectionState::Closed => ConnectionOutput::Nothing,
        }
    }
}

/// A connection never goes back to an earlier state, and a closed one
/// stays closed and silent.
pub proof fn law_connection_moves_forward(c: ConnectionModel, input: InputModel)
    ensures
        rank(c.next_state(input)) >= rank(c.state),
        rank(c.next_state(input)) <= rank(c.state) + 1 || (c.state == ConnectionState::Connecting
            && input == InputModel::Failed),
        c.state == ConnectionState::Closed ==> c.next(input) == c && c.reaction(input)
            == OutputModel::Nothing,
{
}

/// A connection that knows its player keeps it, and every event that it
/// forwards bears that player's name, whoever the request says it is from.
pub proof fn law_connection_keeps_its_player(c: ConnectionModel, input: InputModel)
    requires
        c.player is Some,
    ensures
        c.next_player(input) == c.player,
        c.reaction(input) matches OutputModel::Forward(e) ==> e.owner == c.player.unwrap(),
{
}

/// A connection without a player takes the owner of its first request, and
/// is silent about connecting and disconnecting until then.
pub proof fn law_first_request_names_player(c: ConnectionModel, input: InputModel)
    requires
        c.player is None,
    ensures
        c.state == ConnectionState::Active && input is Request ==> c.next_player(input) == Some(
            input->Request_0.owner,
        ) && c.reaction(input) == tagged(input->Request_0.event_type, input->Request_0.owner),
        !(c.state == ConnectionState::Active && input is Request) ==> c.next_player(input) is None
            && !(c.reaction(input) is Forward),
{
}

/// A disconnect event goes to the simulation exactly when an active
/// connection of a known player starts closing, so that every player who
/// was announced is also taken away, once.
pub proof fn law_disconnect_on_closing(c: ConnectionModel, input: InputModel)
    requires
        c.player is Some,
    ensures
        c.reaction(input) == tagged(SnakeEventType::Signal(Signal::Disconnect), c.player.unwrap())
            <==> c.state == ConnectionState::Active && c.next_state(input)
            == ConnectionState::Closing,
        c.reaction(input) == tagged(SnakeEventType::Signal(Signal::Connect), c.player.unwrap())
            ==> (c.state == ConnectionState::Connecting && c.next_state(input)
            == ConnectionState::Active) || (c.state == ConnectionState::Active && input is Request
            && input->Request_0.event_type == SnakeEventType::Signal(Signal::Connect)),
{
}

} // verus!
