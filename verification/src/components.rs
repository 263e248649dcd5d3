//! What a player and a room are made of.

use vstd::hash_map::StringHashMap;
use vstd::prelude::*;

verus! {

/// The identity of a player: a handle that the world hands out when a
/// connection registers and never hands out again.
#[derive(Clone, Copy, Debug, PartialEq, Eq, Structural)]
pub struct PlayerId(pub u64);

/// The handle of a room: its place in the world's table of rooms.
#[derive(Clone, Copy, Debug, PartialEq, Eq, Structural)]
pub struct RoomId(pub usize);

/// How far a player has come on the way into the game.
#[derive(Clone, Copy, Debug, PartialEq, Eq, Structural)]
pub enum PlayerState {
    ChoosingName,
    ChoosingPassword,
    ChoosingRace,
    Active,
}

impl PlayerState {
    /// The place of the state in the order of onboarding.
    pub open spec fn rank(self) -> nat {
        match self {
            PlayerState::ChoosingName => 0,
            PlayerState::ChoosingPassword => 1,
            PlayerState::ChoosingRace => 2,
            PlayerState::Active => 3,
        }
    }
}

/// The race that a player chose.
#[derive(Clone, Copy, Debug, PartialEq, Eq, Structural)]
pub enum Race {
    Alien,
    Human,
    Predator,
    SyntheticHuman,
}

/// A player's display name.
#[derive(Clone, Debug)]
pub struct Name(pub String);

impl View for Name {
    type V = Seq<char>;

    open spec fn view(&self) -> Seq<char> {
        self.0@
    }
}

impl Name {
    /// The name as a string.
    pub fn as_string(&self) -> (r: String)
        ensures
            r@ == self@,
    {
        self.0.clone()
    }
}

/// The room that a player is in.
#[derive(Clone, Copy, Debug, PartialEq, Eq, Structural)]
pub struct Location(pub RoomId);

/// The id of the zone that a room belongs to.
#[derive(Clone, Debug)]
pub struct Zone(pub String);

impl View for Zone {
    type V = Seq<char>;

    open spec fn view(&self) -> Seq<char> {
        self.0@
    }
}

/// What a player has chosen so far while onboarding.
#[derive(Clone, Debug)]
pub struct RegistrationData {
    pub chosen_name: Option<String>,
    pub password_hash: Option<String>,
}

/// The view of an optional string.
pub open spec fn opt_view(s: Option<String>) -> Option<Seq<char>> {
    match s {
        Some(t) => Some(t@),
        None => None,
    }
}

/// One connected participant.
#[derive(Clone, Debug)]
pub struct Player {
    pub id: PlayerId,
    pub state: PlayerState,
    pub name: Option<Name>,
    pub race: Option<Race>,
    pub location: Option<Location>,
    pub registration: RegistrationData,
}

/// A player as contracts see it.
pub struct PlayerView {
    pub id: PlayerId,
    pub state: PlayerState,
    pub name: Option<Seq<char>>,
    pub race: Option<Race>,
    pub location: Option<RoomId>,
    pub chosen_name: Option<Seq<char>>,
    pub password_hash: Option<Seq<char>>,
}

impl View for Player {
    type V = PlayerView;

    open spec fn view(&self) -> PlayerView {
        PlayerView {
            id: self.id,
            state: self.state,
            name: match self.name {
                Some(n) => Some(n@),
                None => None,
            },
            race: self.race,
            location: match self.location {
                Some(l) => Some(l.0),
                None => None,
            },
            chosen_name: opt_view(self.registration.chosen_name),
            password_hash: opt_view(self.registration.password_hash),
        }
    }
}

impl DeepView for Player {
    type V = PlayerView;

    open spec fn deep_view(&self) -> PlayerView {
        self@
    }
}

/// A place in the world.
pub struct Room {
    pub name: String,
    pub description: String,
    pub exits: StringHashMap<RoomId>,
    pub zone: Option<Zone>,
}

/// A room as contracts see it.
pub struct RoomView {
    pub name: Seq<char>,
    pub description: Seq<char>,
    pub exits: Map<Seq<char>, RoomId>,
    pub zone: Option<Seq<char>>,
}

impl View for Room {
    type V = RoomView;

    open spec fn view(&self) -> RoomView {
        RoomView {
            name: self.name@,
            description: self.description@,
            exits: self.exits@,
            zone: match self.zone {
                Some(z) => Some(z@),
                None => None,
            },
        }
    }
}

impl DeepView for Room {
    type V = RoomView;

    open spec fn deep_view(&self) -> RoomView {
        self@
    }
}

} // verus!
