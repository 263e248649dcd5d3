//! Drakors: the core of a multi-player text world.
//!
//! Many clients connect, give text commands, and watch one shared world
//! that moves in ticks. This library is everything that decides: the world
//! and its invariant, the way into the game, the commands, the order of a
//! tick and who gets which line. It does no input or output; the server
//! around it reads and writes, and calls the library in between.
//!
//! - [`model`]: the world as a mathematical value, over which every
//!   contract is stated, and the invariant that every operation keeps.
//! - [`world`]: the world itself, with the registries of rooms and zones.
//! - [`components`], [`events`]: what players and rooms are made of, and
//!   the messages that pass through a tick.
//! - [`commands`]: the table of commands, dispatch, the handlers for
//!   moving, looking and speaking, and what the help text shows.
//! - [`server`]: onboarding, disconnects, registrations and the tick.
//! - [`systems`]: the flush that turns queued lines into deliveries.
//! - [`network`]: what a connection does with what it reads.
//! - [`zones`]: how the definition of a zone becomes rooms of the world.
//! - [`password`]: password rules and salted hashes.
//! - [`invariants`]: what holds of every step of the world.
//! - [`text`], [`order`]: strings as sequences of characters.

pub mod commands;
pub mod components;
pub mod events;
pub mod invariants;
pub mod model;
pub mod network;
pub mod order;
pub mod password;
pub mod server;
pub mod systems;
pub mod text;
pub mod world;
pub mod zones;
