//! Moving about and looking around.

use crate::components::{PlayerId, RoomId};
use crate::model::WorldView;
use crate::text::{concat2, concat3};
use crate::world::World;
use vstd::prelude::*;

verus! {

/// What a player that is in no room is told.
pub const MSG_NOWHERE: &'static str = "You are nowhere. (no location set)";

/// What a player is told whose zone cannot be named.
pub const MSG_ZONE_UNKNOWN: &'static str = "You are nowhere. (zone unknown)";

/// The four directions in which every room may have an exit.
#[derive(Copy, Clone, Debug, PartialEq, Eq, Structural)]
pub enum StdExits {
    North,
    South,
    East,
    West,
}

impl StdExits {
    /// The direction's name, which is also the key of the exit.
    pub open spec fn name(self) -> Seq<char> {
        match self {
            StdExits::North => "north"@,
            StdExits::South => "south"@,
            StdExits::East => "east"@,
            StdExits::West => "west"@,
        }
    }

    /// The direction as the place that somebody comes from.
    pub open spec fn noun(self) -> Seq<char> {
        match self {
            StdExits::North => "the north"@,
            StdExits::South => "the south"@,
            StdExits::East => "the east"@,
            StdExits::West => "the west"@,
        }
    }

    /// The direction that leads back.
    pub open spec fn reverse(self) -> StdExits {
        match self {
            StdExits::North => StdExits::South,
            StdExits::South => StdExits::North,
            StdExits::East => StdExits::West,
            StdExits::West => StdExits::East,
        }
    }

    /// The direction's name: `north`, `south`, `east` or `west`.
    pub fn as_str(&self) -> (r: &'static str)
        ensures
            r@ == self.name(),
    {
        match self {
            StdExits::North => "north",
            StdExits::South => "south",
            StdExits::East => "east",
            StdExits::West => "west",
        }
    }

    /// The direction with its article, as in "arrives from the south".
    pub fn as_str_noun(&self) -> (r: &'static str)
        ensures
            r@ == self.noun(),
    {
        match self {
            StdExits::North => "the north",
            StdExits::South => "the south",
            StdExits::East => "the east",
            StdExits::West => "the west",
        }
    }

    /// The direction that leads back.
    pub fn opposite(&self) -> (r: StdExits)
        ensures
            r == self.reverse(),
    {
        match self {
            StdExits::North => StdExits::South,
            StdExits::South => StdExits::North,
            StdExits::East => StdExits::West,
            StdExits::West => StdExits::East,
        }
    }
}

/// The line that confirms a move to the mover.
pub open spec fn go_line(dir: StdExits) -> Seq<char> {
    "You go "@ + dir.name() + "."@
}

/// The line that the room that was left hears.
pub open spec fn leave_line(name: Seq<char>, dir: StdExits) -> Seq<char> {
    name + " leaves "@ + dir.name() + "."@
}

/// The line that the room that was entered hears.
pub open spec fn arrive_line(name: Seq<char>, dir: StdExits) -> Seq<char> {
    name + " arrives from "@ + dir.reverse().noun() + "."@
}

/// The line that says that there is no exit in that direction.
pub open spec fn blocked_line(dir: StdExits) -> Seq<char> {
    "You can't go "@ + dir.name() + " from here."@
}

/// What an attempt to move in a direction does to the world. A player that
/// is nowhere is told so. Where the player's room has no exit in that
/// direction the player is told so and stays. Else the player stands in
/// the room behind the exit, is told so, and the two rooms hear of it.
pub open spec fn move_step(w: WorldView, player: PlayerId, dir: StdExits) -> WorldView {
    match w.location_of(player) {
        None => w.with_output(player, MSG_NOWHERE@),
        Some(loc) => match w.exit_of(loc, dir.name()) {
            None => w.with_output(player, blocked_line(dir)),
            Some(target) => w.moved(player, target).with_output(
                player,
                go_line(dir),
            ).with_room_broadcast(
                player,
                loc,
                leave_line(w.display_name(player), dir),
            ).with_room_broadcast(player, target, arrive_line(w.display_name(player), dir)),
        },
    }
}

/// Moves the player one room in a direction, if there is an exit.
pub fn cmd_move(dir: StdExits, player: PlayerId, world: &mut World, _full: &str, _args: &[&str])
    requires
        old(world).wf(),
    ensures
        final(world).wf(),
        final(world)@ == move_step(old(world)@, player, dir),
{
    let loc = match world.location_of(player) {
        Some(l) => l,
        None => {
            world.write_output(player, String::from_str(MSG_NOWHERE));
            return ;
        },
    };
    let dir_key = dir.as_str();
    match world.exit_of(loc, dir_key) {
        Some(target) => {
            let name = world.display_name(player);
            world.set_location(player, target);
            world.write_output(player, concat3("You go ", dir_key, "."));
            let left = concat2(name.as_str(), concat3(" leaves ", dir_key, ".").as_str());
            assert(left@ =~= leave_line(name@, dir));
            world.write_room_broadcast(player, loc, left);
            let arrived = concat2(
                name.as_str(),
                concat3(" arrives from ", dir.opposite().as_str_noun(), ".").as_str(),
            );
            assert(arrived@ =~= arrive_line(name@, dir));
            world.write_room_broadcast(player, target, arrived);
        },
        None => {
            world.write_output(player, concat3("You can't go ", dir_key, " from here."));
        },
    }
}

/// Moves the player north, if there is an exit.
pub fn cmd_north(player: PlayerId, world: &mut World, full: &str, args: &[&str])
    requires
        old(world).wf(),
    ensures
        final(world).wf(),
        final(world)@ == move_step(old(world)@, player, StdExits::North),
{
    cmd_move(StdExits::North, player, world, full, args);
}

/// Moves the player south, if there is an exit.
pub fn cmd_south(player: PlayerId, world: &mut World, full: &str, args: &[&str])
    requires
        old(world).wf(),
    ensures
        final(world).wf(),
        final(world)@ == move_step(old(world)@, player, StdExits::South),
{
    cmd_move(StdExits::South, player, world, full, args);
}

/// Moves the player east, if there is an exit.
pub fn cmd_east(player: PlayerId, world: &mut World, full: &str, args: &[&str])
    requires
        old(world).wf(),
    ensures
        final(world).wf(),
        final(world)@ == move_step(old(world)@, player, StdExits::East),
{
    cmd_move(StdExits::East, player, world, full, args);
}

/// Moves the player west, if there is an exit.
pub fn cmd_west(player: PlayerId, world: &mut World, full: &str, args: &[&str])
    requires
        old(world).wf(),
    ensures
        final(world).wf(),
        final(world)@ == move_step(old(world)@, player, StdExits::West),
{
    cmd_move(StdExits::West, player, world, full, args);
}

/// The line that describes a room.
pub open spec fn room_line(w: WorldView, room: RoomId) -> Seq<char> {
    w.rooms[room.0 as int].name + "\n\n"@ + w.rooms[room.0 as int].description
}

/// What looking around does: the player is shown the room that it is in,
/// or told that it is nowhere.
pub open spec fn look_step(w: WorldView, player: PlayerId) -> WorldView {
    match w.location_of(player) {
        Some(loc) => w.with_output(player, room_line(w, loc)),
        None => w.with_output(player, MSG_NOWHERE@),
    }
}

/// Shows the player the room that it is in.
pub fn cmd_look(player: PlayerId, world: &mut World, _full: &str, _args: &[&str])
    requires
        old(world).wf(),
    ensures
        final(world).wf(),
        final(world)@ == look_step(old(world)@, player),
{
    if let Some(loc) = world.location_of(player) {
        if let Some(name) = world.room_name(loc) {
            if let Some(description) = world.room_description(loc) {
                let text = concat3(name.as_str(), "\n\n", description.as_str());
                world.write_output(player, text);
                return ;
            }
        }
    }
    world.write_output(player, String::from_str(MSG_NOWHERE));
}

/// The name of the zone that the player is in, if the player is in a room
/// of a zone whose name the registry knows.
pub open spec fn zone_name_of(w: WorldView, player: PlayerId) -> Option<Seq<char>> {
    match w.location_of(player) {
        Some(loc) => match w.zone_of_room(loc) {
            Some(zone) => if w.zone_registry.contains_key(zone) {
                Some(w.zone_registry[zone])
            } else {
                None
            },
            None => None,
        },
        None => None,
    }
}

/// What asking for the zone does: the player is told the zone's name, or
/// that the zone is unknown.
pub open spec fn where_step(w: WorldView, player: PlayerId) -> WorldView {
    match zone_name_of(w, player) {
        Some(name) => w.with_output(player, "You are in: "@ + name),
        None => w.with_output(player, MSG_ZONE_UNKNOWN@),
    }
}

/// Tells the player which zone it is in.
pub fn cmd_where(player: PlayerId, world: &mut World, _full: &str, _args: &[&str])
    requires
        old(world).wf(),
    ensures
        final(world).wf(),
        final(world)@ == where_step(old(world)@, player),
{
    if let Some(loc) = world.location_of(player) {
        if let Some(zone_id) = world.zone_of_room(loc) {
            if let Some(zone_name) = world.zone_name(zone_id.as_str()) {
                let text = concat2("You are in: ", zone_name.as_str());
                world.write_output(player, text);
                return ;
            }
        }
    }
    world.write_output(player, String::from_str(MSG_ZONE_UNKNOWN));
}

} // verus!
