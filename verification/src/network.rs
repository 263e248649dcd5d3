//! The connection's side: what a connection does, step by step, with what
//! it reads and hears. The connection itself only performs the actions.

use crate::components::PlayerId;
use crate::events::{CommandEvent, CommandView, DisconnectEvent};
use crate::text::{eq_ignore_ascii_case, eq_ignore_ascii_case_spec, trim_end, trim_end_spec};
use vstd::prelude::*;

verus! {

/// The word that ends a connection, whatever its case.
pub const QUIT: &'static str = "quit";

/// What a client that quits is told.
pub const GOODBYE: &'static str = "Goodbye!\r\n";

/// Where a connection stands.
#[derive(Clone, Copy, Debug, PartialEq, Eq, Structural)]
pub enum ConnectionState {
    /// The registration was sent; the world has not answered yet.
    Registering,
    /// The world gave the connection this identity; lines are read.
    Open(PlayerId),
    /// The connection is over.
    Closed,
}

/// What happened on a connection.
pub enum ConnectionEvent {
    /// The world answered the registration with an identity.
    Registered(PlayerId),
    /// The answer to the registration will never come.
    RegistrationDropped,
    /// A line was read.
    Line(String),
    /// The client closed the stream.
    EndOfStream,
    /// The world's queues are closed.
    QueuesClosed,
}

/// What happened on a connection, as contracts see it.
pub enum ConnectionEventView {
    Registered(PlayerId),
    RegistrationDropped,
    Line(Seq<char>),
    EndOfStream,
    QueuesClosed,
}

impl View for ConnectionEvent {
    type V = ConnectionEventView;

    open spec fn view(&self) -> ConnectionEventView {
        match self {
            ConnectionEvent::Registered(id) => ConnectionEventView::Registered(*id),
            ConnectionEvent::RegistrationDropped => ConnectionEventView::RegistrationDropped,
            ConnectionEvent::Line(l) => ConnectionEventView::Line(l@),
            ConnectionEvent::EndOfStream => ConnectionEventView::EndOfStream,
            ConnectionEvent::QueuesClosed => ConnectionEventView::QueuesClosed,
        }
    }
}

/// What a connection is to do next.
pub enum ConnectionAction {
    /// Write the banner and the first prompt, then read lines.
    Greet,
    /// Hand the line to the world.
    Forward(CommandEvent),
    /// Tell the world that the player is gone, and stop.
    Leave(DisconnectEvent),
    /// Write the goodbye line, tell the world that the player is gone, and stop.
    SayGoodbye(DisconnectEvent),
    /// Stop with an error: the world never answered.
    Fail,
    /// Stop.
    Stop,
    /// Do nothing.
    Ignore,
}

/// What a connection is to do next, as contracts see it.
pub enum ConnectionActionView {
    Greet,
    Forward(CommandView),
    Leave(DisconnectEvent),
    SayGoodbye(DisconnectEvent),
    Fail,
    Stop,
    Ignore,
}

impl View for ConnectionAction {
    type V = ConnectionActionView;

    open spec fn view(&self) -> ConnectionActionView {
        match self {
            ConnectionAction::Greet => ConnectionActionView::Greet,
            ConnectionAction::Forward(c) => ConnectionActionView::Forward(c@),
            ConnectionAction::Leave(d) => ConnectionActionView::Leave(*d),
            ConnectionAction::SayGoodbye(d) => ConnectionActionView::SayGoodbye(*d),
            ConnectionAction::Fail => ConnectionActionView::Fail,
            ConnectionAction::Stop => ConnectionActionView::Stop,
            ConnectionAction::Ignore => ConnectionActionView::Ignore,
        }
    }
}

/// Whether a line, without the whitespace at its end, is the word that
/// ends the connection.
pub open spec fn is_quit(line: Seq<char>) -> bool {
    eq_ignore_ascii_case_spec(trim_end_spec(line), QUIT@)
}

/// What an open connection does with a line that it read: the quit word
/// ends it with a goodbye; anything else goes to the world without the
/// whitespace at its end.
pub open spec fn line_action(player: PlayerId, line: Seq<char>) -> ConnectionActionView {
    if is_quit(line) {
        ConnectionActionView::SayGoodbye(DisconnectEvent { player })
    } else {
        ConnectionActionView::Forward(CommandView { player, input: trim_end_spec(line) })
    }
}

/// The state after an event, and what the connection is to do. Before the
/// world has answered, nothing is read and nothing goes to the world. An
/// open connection forwards its lines under its own identity until the
/// stream ends, the client quits or the world's queues close. A closed
/// connection does nothing.
pub open spec fn connection_step_spec(state: ConnectionState, event: ConnectionEventView) -> (
    ConnectionState,
    ConnectionActionView,
) {
    match state {
        ConnectionState::Registering => match event {
            ConnectionEventView::Registered(id) => (
                ConnectionState::Open(id),
                ConnectionActionView::Greet,
            ),
            ConnectionEventView::RegistrationDropped => (
                ConnectionState::Closed,
                ConnectionActionView::Fail,
            ),
            ConnectionEventView::QueuesClosed => (
                ConnectionState::Closed,
                ConnectionActionView::Fail,
            ),
            _ => (ConnectionState::Registering, ConnectionActionView::Ignore),
        },
        ConnectionState::Open(player) => match event {
            ConnectionEventView::Line(line) => (
                if is_quit(line) {
                    ConnectionState::Closed
                } else {
                    ConnectionState::Open(player)
                },
                line_action(player, line),
            ),
            ConnectionEventView::EndOfStream => (
                ConnectionState::Closed,
                ConnectionActionView::Leave(DisconnectEvent { player }),
            ),
            ConnectionEventView::QueuesClosed => (
                ConnectionState::Closed,
                ConnectionActionView::Stop,
            ),
            _ => (ConnectionState::Open(player), ConnectionActionView::Ignore),
        },
        ConnectionState::Closed => (ConnectionState::Closed, ConnectionActionView::Ignore),
    }
}

/// Decides what a connection in `state` does on `event`, and where it
/// stands afterwards.
pub fn connection_step(state: ConnectionState, event: ConnectionEvent) -> (r: (
    ConnectionState,
    ConnectionAction,
))
    ensures
        r.0 == connection_step_spec(state, event@).0,
        r.1@ == connection_step_spec(state, event@).1,
{
    match state {
        ConnectionState::Registering => match event {
            ConnectionEvent::Registered(id) => (ConnectionState::Open(id), ConnectionAction::Greet),
            ConnectionEvent::RegistrationDropped => (
                ConnectionState::Closed,
                ConnectionAction::Fail,
            ),
            ConnectionEvent::QueuesClosed => (ConnectionState::Closed, ConnectionAction::Fail),
            _ => (ConnectionState::Registering, ConnectionAction::Ignore),
        },
        ConnectionState::Open(player) => match event {
            ConnectionEvent::Line(line) => {
                let input = trim_end(line.as_str());
                if eq_ignore_ascii_case(input.as_str(), QUIT) {
                    (
                        ConnectionState::Closed,
                        ConnectionAction::SayGoodbye(DisconnectEvent { player }),
                    )
                } else {
                    (
                        ConnectionState::Open(player),
                        ConnectionAction::Forward(CommandEvent { player, input }),
                    )
                }
            },
            ConnectionEvent::EndOfStream => (
                ConnectionState::Closed,
                ConnectionAction::Leave(DisconnectEvent { player }),
            ),
            ConnectionEvent::QueuesClosed => (ConnectionState::Closed, ConnectionAction::Stop),
            _ => (ConnectionState::Open(player), ConnectionAction::Ignore),
        },
        ConnectionState::Closed => (ConnectionState::Closed, ConnectionAction::Ignore),
    }
}

/// A connection hands the world nothing but lines under the identity that
/// the world gave it: none before the answer to its registration, and
/// none after it was closed.
pub proof fn lemma_forward_needs_identity(state: ConnectionState, event: ConnectionEventView)
    ensures
        connection_step_spec(state, event).1 matches ConnectionActionView::Forward(c)
            ==> state == ConnectionState::Open(c.player),
        (connection_step_spec(state, event).1 matches ConnectionActionView::Leave(d) ==> state
            == ConnectionState::Open(d.player)),
        (connection_step_spec(state, event).1 matches ConnectionActionView::SayGoodbye(d)
            ==> state == ConnectionState::Open(d.player)),
        state == ConnectionState::Closed ==> connection_step_spec(state, event).0
            == ConnectionState::Closed,
{
}

} // verus!
