//! The messages that pass through the world within a tick.

use crate::components::{PlayerId, RoomId};
use vstd::prelude::*;

verus! {

/// The end of every line that goes out to a client.
pub const LINE_SUFFIX: &'static str = "\r\n> ";

/// A line for everybody but its sender.
#[derive(Clone, Debug, PartialEq, Eq)]
pub struct BroadcastEvent {
    pub from: PlayerId,
    pub text: String,
}

/// A line for everybody in one room but its sender.
#[derive(Clone, Debug, PartialEq, Eq)]
pub struct BroadcastRoomEvent {
    pub from: PlayerId,
    pub room: RoomId,
    pub text: String,
}

/// A line for everybody in one zone but its sender.
#[derive(Clone, Debug, PartialEq, Eq)]
pub struct BroadcastZoneEvent {
    pub from: PlayerId,
    pub zone: String,
    pub text: String,
}

/// A line of input from a player.
#[derive(Clone, Debug, PartialEq, Eq)]
pub struct CommandEvent {
    pub player: PlayerId,
    pub input: String,
}

/// The end of a player's connection.
#[derive(Clone, Copy, Debug, PartialEq, Eq, Structural)]
pub struct DisconnectEvent {
    pub player: PlayerId,
}

/// A line for one player.
#[derive(Clone, Debug, PartialEq, Eq)]
pub struct OutputEvent {
    pub player: PlayerId,
    pub text: String,
}

/// What is to be put on one player's output channel.
#[derive(Clone, Debug, PartialEq, Eq)]
pub struct Delivery {
    pub player: PlayerId,
    pub line: String,
}

/// A line for everybody, as contracts see it.
pub struct BroadcastView {
    pub from: PlayerId,
    pub text: Seq<char>,
}

/// A line for a room, as contracts see it.
pub struct BroadcastRoomView {
    pub from: PlayerId,
    pub room: RoomId,
    pub text: Seq<char>,
}

/// A line for a zone, as contracts see it.
pub struct BroadcastZoneView {
    pub from: PlayerId,
    pub zone: Seq<char>,
    pub text: Seq<char>,
}

/// A line of input, as contracts see it.
pub struct CommandView {
    pub player: PlayerId,
    pub input: Seq<char>,
}

/// A line for one player, as contracts see it.
pub struct OutputView {
    pub player: PlayerId,
    pub text: Seq<char>,
}

/// A delivery, as contracts see it.
pub struct DeliveryView {
    pub player: PlayerId,
    pub line: Seq<char>,
}

impl View for BroadcastEvent {
    type V = BroadcastView;

    open spec fn view(&self) -> BroadcastView {
        BroadcastView { from: self.from, text: self.text@ }
    }
}

impl DeepView for BroadcastEvent {
    type V = BroadcastView;

    open spec fn deep_view(&self) -> BroadcastView {
        self@
    }
}

impl View for BroadcastRoomEvent {
    type V = BroadcastRoomView;

    open spec fn view(&self) -> BroadcastRoomView {
        BroadcastRoomView { from: self.from, room: self.room, text: self.text@ }
    }
}

impl DeepView for BroadcastRoomEvent {
    type V = BroadcastRoomView;

    open spec fn deep_view(&self) -> BroadcastRoomView {
        self@
    }
}

impl View for BroadcastZoneEvent {
    type V = BroadcastZoneView;

    open spec fn view(&self) -> BroadcastZoneView {
        BroadcastZoneView { from: self.from, zone: self.zone@, text: self.text@ }
    }
}

impl DeepView for BroadcastZoneEvent {
    type V = BroadcastZoneView;

    open spec fn deep_view(&self) -> BroadcastZoneView {
        self@
    }
}

impl View for CommandEvent {
    type V = CommandView;

    open spec fn view(&self) -> CommandView {
        CommandView { player: self.player, input: self.input@ }
    }
}

impl DeepView for CommandEvent {
    type V = CommandView;

    open spec fn deep_view(&self) -> CommandView {
        self@
    }
}

impl DeepView for DisconnectEvent {
    type V = DisconnectEvent;

    open spec fn deep_view(&self) -> DisconnectEvent {
        *self
    }
}

impl View for OutputEvent {
    type V = OutputView;

    open spec fn view(&self) -> OutputView {
        OutputView { player: self.player, text: self.text@ }
    }
}

impl DeepView for OutputEvent {
    type V = OutputView;

    open spec fn deep_view(&self) -> OutputView {
        self@
    }
}

impl View for Delivery {
    type V = DeliveryView;

    open spec fn view(&self) -> DeliveryView {
        DeliveryView { player: self.player, line: self.line@ }
    }
}

impl DeepView for Delivery {
    type V = DeliveryView;

    open spec fn deep_view(&self) -> DeliveryView {
        self@
    }
}

} // verus!
