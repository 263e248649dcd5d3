//! Speaking to the room and shouting to the zone.

use crate::components::PlayerId;
use crate::model::WorldView;
use crate::text::{concat2, concat3, join, join_spec};
use crate::world::World;
use vstd::prelude::*;

verus! {

/// What a player is asked that says nothing.
pub const MSG_SAY_WHAT: &'static str = "Say what?";

/// What a player is asked that shouts nothing.
pub const MSG_SHOUT_WHAT: &'static str = "Shout what?";

/// What a player is told that speaks while it is in no room.
pub const MSG_VOID: &'static str =
    "Your words echo into the void... there is no one around to hear them.";

/// The words of a speech command, with single spaces between them.
pub open spec fn message_of(args: Seq<Seq<char>>) -> Seq<char> {
    join_spec(args, " "@)
}

/// What the others in the room hear.
pub open spec fn says_line(name: Seq<char>, message: Seq<char>) -> Seq<char> {
    name + " says: "@ + message
}

/// What the speaker hears back.
pub open spec fn you_say_line(message: Seq<char>) -> Seq<char> {
    "You say: "@ + message
}

/// What the others in the zone hear.
pub open spec fn shouts_line(name: Seq<char>, message: Seq<char>) -> Seq<char> {
    name + " shouts: "@ + message
}

/// What the shouter hears back.
pub open spec fn you_shout_line(message: Seq<char>) -> Seq<char> {
    "You shout: "@ + message
}

/// What saying something does. Without words the player is asked what to
/// say. A player that is nowhere is told that nobody hears. Else the
/// player's room hears the words, and the player hears them back.
pub open spec fn say_step(w: WorldView, player: PlayerId, args: Seq<Seq<char>>) -> WorldView {
    if args.len() == 0 {
        w.with_output(player, MSG_SAY_WHAT@)
    } else {
        match w.location_of(player) {
            Some(loc) => w.with_room_broadcast(
                player,
                loc,
                says_line(w.display_name(player), message_of(args)),
            ).with_output(player, you_say_line(message_of(args))),
            None => w.with_output(player, MSG_VOID@),
        }
    }
}

/// What shouting something does. Without words the player is asked what
/// to shout. Else the player's zone hears the words, and the player hears
/// them back.
pub open spec fn shout_step(w: WorldView, player: PlayerId, args: Seq<Seq<char>>) -> WorldView {
    if args.len() == 0 {
        w.with_output(player, MSG_SHOUT_WHAT@)
    } else {
        w.with_zone_broadcast(
            player,
            w.zone_id_of(player),
            shouts_line(w.display_name(player), message_of(args)),
        ).with_output(player, you_shout_line(message_of(args)))
    }
}

/// Speaks the words to the player's room.
pub fn cmd_say(player: PlayerId, world: &mut World, _full: &str, args: &[&str])
    requires
        old(world).wf(),
    ensures
        final(world).wf(),
        final(world)@ == say_step(old(world)@, player, args.deep_view()),
{
    if args.len() == 0 {
        world.write_output(player, String::from_str(MSG_SAY_WHAT));
        return ;
    }
    let message = join(args, " ");
    let name = world.display_name(player);
    match world.location_of(player) {
        Some(loc) => {
            let heard = concat3(name.as_str(), " says: ", message.as_str());
            world.write_room_broadcast(player, loc, heard);
        },
        None => {
            world.write_output(player, String::from_str(MSG_VOID));
            return ;
        },
    }
    world.write_output(player, concat2("You say: ", message.as_str()));
}

/// Shouts the words to the player's zone.
pub fn cmd_shout(player: PlayerId, world: &mut World, _full: &str, args: &[&str])
    requires
        old(world).wf(),
    ensures
        final(world).wf(),
        final(world)@ == shout_step(old(world)@, player, args.deep_view()),
{
    if args.len() == 0 {
        world.write_output(player, String::from_str(MSG_SHOUT_WHAT));
        return ;
    }
    let message = join(args, " ");
    let player_zone = world.zone_id_of(player);
    let name = world.display_name(player);
    let heard = concat3(name.as_str(), " shouts: ", message.as_str());
    world.write_zone_broadcast(player, player_zone, heard);
    world.write_output(player, concat2("You shout: ", message.as_str()));
}

} // verus!
