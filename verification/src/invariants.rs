//! What holds of every step of the world: players only move forward
//! through onboarding, no name is held twice, and a player that is gone
//! stays gone.

use crate::commands::movement::{move_step, StdExits};
use crate::commands::{
    allowed, command_name_of, dispatch_step, scope_of, CommandHandler, CommandMapView,
};
use crate::components::{PlayerId, PlayerState, PlayerView};
use crate::events::{CommandView, DisconnectEvent};
use crate::model::{
    claimed, lemma_despawned_wf, lemma_player_index, lemma_spawned_wf, lemma_wf_frame,
    lemma_with_player_wf, player_wf, WorldView,
};
use crate::password::validate_spec;
use crate::server::{
    before_flush, command_step, commands_result, disconnect_step, disconnects_result, left_line,
    race_of, register_step, registered_id, registration_replies, registrations_result,
    MSG_NAME_IN_USE, RACE_PROMPT,
};
use crate::text::{str_to_lowercase, tokens_spec, trim_spec};
use vstd::prelude::*;

verus! {

/// What a step may do to the players: every player stays, no player but
/// `actor` changes, and `actor` stays in its state or goes on to the next
/// and, once it is in a room, is never without one.
pub open spec fn moves_forward(w: WorldView, w2: WorldView, actor: PlayerId) -> bool {
    &&& forall|q: PlayerId| w2.has_player(q) == w.has_player(q)
    &&& forall|q: PlayerId|
        q != actor && w.has_player(q) ==> #[trigger] w2.player(q) == w.player(q)
    &&& w.has_player(actor) ==> w.player(actor).state.rank() <= w2.player(actor).state.rank()
        <= w.player(actor).state.rank() + 1
    &&& w.has_player(actor) && w.player(actor).location is Some ==> w2.player(
        actor,
    ).location is Some
}

/// What no step of a tick touches: the rooms with their exits, the two
/// registries, and the identities that were handed out.
pub open spec fn keeps_rooms(w: WorldView, w2: WorldView) -> bool {
    &&& w2.rooms == w.rooms
    &&& w2.room_registry == w.room_registry
    &&& w2.zone_registry == w.zone_registry
    &&& w2.next_player == w.next_player
}

/// A change to the queues alone changes no player.
proof fn lemma_queues_only(w: WorldView, w2: WorldView, actor: PlayerId)
    requires
        w.wf(),
        w2.players == w.players,
        w2.next_player == w.next_player,
        w2.rooms == w.rooms,
        w2.room_registry == w.room_registry,
    ensures
        w2.wf(),
        moves_forward(w, w2, actor),
{
    lemma_wf_frame(w, w2);
}

/// A well-formed world has no player with an identity that is still to be
/// handed out.
pub proof fn lemma_no_future_player(w: WorldView, id: PlayerId)
    requires
        w.wf(),
        id.0 >= w.next_player,
    ensures
        !w.has_player(id),
{
    if w.has_player(id) {
        lemma_player_index(w, id);
        assert(w.id_at(w.index_of(id)).0 < w.next_player);
    }
}

/// A step that replaces `actor` by a value in its state or the next, and
/// changes no other player, moves forward.
proof fn lemma_replaced(w: WorldView, w2: WorldView, actor: PlayerId, p: PlayerView)
    requires
        w.wf(),
        w.has_player(actor),
        p.id == actor,
        player_wf(p),
        p.location matches Some(r) ==> w.valid_room(r),
        claimed(p) is None || claimed(p) == claimed(w.player(actor)) || !w.name_in_use(
            claimed(p)->0,
        ),
        w.player(actor).state.rank() <= p.state.rank() <= w.player(actor).state.rank() + 1,
        w.player(actor).location is Some ==> p.location is Some,
        w2.players == w.with_player(actor, p).players,
        w2.next_player == w.next_player,
        w2.rooms == w.rooms,
        w2.room_registry == w.room_registry,
    ensures
        w2.wf(),
        moves_forward(w, w2, actor),
        w2.player(actor) == p,
{
    let w1 = w.with_player(actor, p);
    lemma_with_player_wf(w, actor, p);
    lemma_wf_frame(w1, w2);
    assert forall|q: PlayerId| w2.has_player(q) == w.has_player(q) by {
        assert(w2.has_player(q) == w1.has_player(q));
    }
    assert forall|q: PlayerId| q != actor && w.has_player(q) implies #[trigger] w2.player(q)
        == w.player(q) by {
        assert(w2.player(q) == w1.player(q));
    }
    assert(w2.player(actor) == w1.player(actor));
}

/// A move changes nothing of a player but its room.
proof fn lemma_move_step(w: WorldView, player: PlayerId, dir: StdExits)
    requires
        w.wf(),
    ensures
        move_step(w, player, dir).wf(),
        moves_forward(w, move_step(w, player, dir), player),
        keeps_rooms(w, move_step(w, player, dir)),
{
    let w2 = move_step(w, player, dir);
    match w.location_of(player) {
        None => {
            lemma_queues_only(w, w2, player);
        },
        Some(loc) => {
            lemma_player_index(w, player);
            assert(w.valid_room(loc));
            match w.exit_of(loc, dir.name()) {
                None => {
                    lemma_queues_only(w, w2, player);
                },
                Some(target) => {
                    assert(w.rooms[loc.0 as int].exits.contains_key(dir.name()));
                    let p = PlayerView { location: Some(target), ..w.player(player) };
                    assert(player_wf(w.players[w.index_of(player)]));
                    lemma_replaced(w, w2, player, p);
                },
            }
        },
    }
}

/// A command of an onboarded player keeps the world well-formed and
/// changes no player's state.
proof fn lemma_dispatch_step(w: WorldView, map: CommandMapView, player: PlayerId, line: Seq<char>)
    requires
        w.wf(),
    ensures
        dispatch_step(w, map, player, line).wf(),
        moves_forward(w, dispatch_step(w, map, player, line), player),
        keeps_rooms(w, dispatch_step(w, map, player, line)),
{
    let w2 = dispatch_step(w, map, player, line);
    let name = command_name_of(tokens_spec(line));
    if map.handlers.contains_key(name) && allowed(scope_of(map, name), w.state_of(player)) {
        match map.handlers[name] {
            CommandHandler::East => lemma_move_step(w, player, StdExits::East),
            CommandHandler::North => lemma_move_step(w, player, StdExits::North),
            CommandHandler::South => lemma_move_step(w, player, StdExits::South),
            CommandHandler::West => lemma_move_step(w, player, StdExits::West),
            _ => lemma_queues_only(w, w2, player),
        }
    } else {
        lemma_queues_only(w, w2, player);
    }
}

/// Every input line keeps the world well-formed, and with it the rule that
/// no two players hold or have chosen the same name. It changes no player
/// but its own, and that one stays in its onboarding state or goes on to
/// the next: no state is ever left for an earlier one. No line creates or
/// destroys a player, hands out an identity, or changes a room, an exit or
/// a registry.
pub proof fn lemma_command_step(
    w: WorldView,
    map: CommandMapView,
    event: CommandView,
    hash: Seq<char>,
)
    requires
        w.wf(),
    ensures
        command_step(w, map, event, hash).wf(),
        moves_forward(w, command_step(w, map, event, hash), event.player),
        keeps_rooms(w, command_step(w, map, event, hash)),
{
    let player = event.player;
    let line = trim_spec(event.input);
    let w2 = command_step(w, map, event, hash);
    if w.has_player(player) {
        lemma_player_index(w, player);
        let old_p = w.player(player);
        assert(player_wf(w.players[w.index_of(player)]));
        assert(w.players[w.index_of(player)].location matches Some(r) ==> w.valid_room(r));
        match old_p.state {
            PlayerState::ChoosingName => {
                if w.name_in_use(line) {
                    lemma_queues_only(w, w2, player);
                } else {
                    let p = PlayerView {
                        state: PlayerState::ChoosingPassword,
                        chosen_name: Some(line),
                        ..old_p
                    };
                    lemma_replaced(w, w2, player, p);
                }
            },
            PlayerState::ChoosingPassword => {
                if validate_spec(line) is Ok {
                    let p = PlayerView {
                        state: PlayerState::ChoosingRace,
                        password_hash: Some(hash),
                        ..old_p
                    };
                    lemma_replaced(w, w2, player, p);
                } else {
                    lemma_queues_only(w, w2, player);
                }
            },
            PlayerState::ChoosingRace => {
                match race_of(str_to_lowercase(line)) {
                    Some(race) => {
                        let p = PlayerView {
                            state: PlayerState::Active,
                            name: old_p.chosen_name,
                            race: Some(race),
                            chosen_name: None,
                            password_hash: None,
                            ..old_p
                        };
                        lemma_replaced(w, w2, player, p);
                    },
                    None => {
                        lemma_queues_only(w, w2, player);
                    },
                }
            },
            PlayerState::Active => {
                lemma_dispatch_step(w, map, player, line);
            },
        }
    }
}

/// Input that a state does not accept leaves every player as it is and
/// brings the prompt of that state again: a name that is in use, a
/// password that breaks a rule, a token that names no race.
pub proof fn lemma_invalid_input_reprompts(
    w: WorldView,
    map: CommandMapView,
    event: CommandView,
    hash: Seq<char>,
)
    requires
        w.has_player(event.player),
    ensures
        ({
            let line = trim_spec(event.input);
            let w2 = command_step(w, map, event, hash);
            match w.player(event.player).state {
                PlayerState::ChoosingName => w.name_in_use(line) ==> w2 == w.with_output(
                    event.player,
                    MSG_NAME_IN_USE@,
                ),
                PlayerState::ChoosingPassword => validate_spec(line) matches Err(msg) ==> w2
                    == w.with_output(event.player, msg + " "@),
                PlayerState::ChoosingRace => race_of(str_to_lowercase(line)) is None ==> w2
                    == w.with_output(event.player, RACE_PROMPT@),
                PlayerState::Active => true,
            }
        }),
{
}

/// Of two players that choose the same free name one after the other, the
/// first gets it and goes on; the second is told that the name is in use
/// and stays where it was.
pub proof fn lemma_first_name_wins(
    w: WorldView,
    map: CommandMapView,
    first: CommandView,
    second: CommandView,
    hash1: Seq<char>,
    hash2: Seq<char>,
)
    requires
        w.wf(),
        first.player != second.player,
        w.state_of(first.player) == Some(PlayerState::ChoosingName),
        w.state_of(second.player) == Some(PlayerState::ChoosingName),
        trim_spec(first.input) == trim_spec(second.input),
        !w.name_in_use(trim_spec(first.input)),
    ensures
        ({
            let name = trim_spec(first.input);
            let w1 = command_step(w, map, first, hash1);
            let w2 = command_step(w1, map, second, hash2);
            &&& w1.wf() && w2.wf()
            &&& w1.state_of(first.player) == Some(PlayerState::ChoosingPassword)
            &&& w1.player(first.player).chosen_name == Some(name)
            &&& w2 == w1.with_output(second.player, MSG_NAME_IN_USE@)
            &&& w2.state_of(second.player) == Some(PlayerState::ChoosingName)
            &&& w2.player(first.player) == w1.player(first.player)
        }),
{
    let name = trim_spec(first.input);
    let w1 = command_step(w, map, first, hash1);
    lemma_command_step(w, map, first, hash1);
    lemma_player_index(w, first.player);
    let p = PlayerView {
        state: PlayerState::ChoosingPassword,
        chosen_name: Some(name),
        ..w.player(first.player)
    };
    assert(player_wf(w.players[w.index_of(first.player)]));
    assert(w.players[w.index_of(first.player)].location matches Some(r) ==> w.valid_room(r));
    lemma_replaced(w, w1, first.player, p);
    lemma_player_index(w1, first.player);
    assert(w1.claimed_at(w1.index_of(first.player)) == Some(name));
    assert(w1.name_in_use(name));
    assert(w1.player(second.player) == w.player(second.player));
    let w2 = command_step(w1, map, second, hash2);
    lemma_command_step(w1, map, second, hash2);
    lemma_wf_frame(w1, w2);
}

/// In a well-formed world two different players never have the same name.
pub proof fn lemma_names_differ(w: WorldView, a: PlayerId, b: PlayerId)
    requires
        w.wf(),
        w.has_player(a),
        w.has_player(b),
        a != b,
        w.name_of(a) is Some,
    ensures
        w.name_of(a) != w.name_of(b),
{
    lemma_player_index(w, a);
    lemma_player_index(w, b);
    let i = w.index_of(a);
    let j = w.index_of(b);
    assert(w.claimed_at(i) == w.name_of(a));
    assert(player_wf(w.players[j]));
    if w.name_of(b) is Some {
        assert(w.claimed_at(j) == w.name_of(b));
        if i < j {
            assert(w.claimed_at(j) != w.claimed_at(i));
        } else {
            assert(w.claimed_at(i) != w.claimed_at(j));
        }
    }
}

/// A line for an identity that no player has changes nothing.
pub proof fn lemma_unknown_player_ignored(
    w: WorldView,
    map: CommandMapView,
    event: CommandView,
    hash: Seq<char>,
)
    requires
        !w.has_player(event.player),
    ensures
        command_step(w, map, event, hash) == w,
{
}

/// After a disconnect the player is gone, and a line that still comes in
/// for it changes nothing: it brings no player back and queues no line.
pub proof fn lemma_command_after_disconnect(
    w: WorldView,
    map: CommandMapView,
    event: CommandView,
    hash: Seq<char>,
)
    requires
        w.wf(),
    ensures
        disconnect_step(w, event.player).wf(),
        !disconnect_step(w, event.player).has_player(event.player),
        command_step(disconnect_step(w, event.player), map, event, hash) == disconnect_step(
            w,
            event.player,
        ),
{
    let player = event.player;
    if w.has_player(player) {
        match w.name_of(player) {
            Some(name) => {
                let w1 = w.with_broadcast(player, left_line(name));
                lemma_wf_frame(w, w1);
                lemma_despawned_wf(w1, player);
            },
            None => {
                lemma_despawned_wf(w, player);
            },
        }
    }
}

/// A disconnect and a registration keep the world well-formed; a
/// registration creates a player with an identity that none had before.
pub proof fn lemma_connect_disconnect(w: WorldView, player: PlayerId)
    requires
        w.wf(),
    ensures
        disconnect_step(w, player).wf(),
        register_step(w).wf(),
        w.can_register() ==> !w.has_player(PlayerId(w.next_player as u64)) && register_step(
            w,
        ).has_player(PlayerId(w.next_player as u64)),
{
    lemma_command_after_disconnect(
        w,
        CommandMapView { handlers: Map::empty(), scopes: Map::empty(), help_text: Seq::empty() },
        CommandView { player, input: Seq::empty() },
        Seq::empty(),
    );
    if w.can_register() {
        lemma_spawned_wf(w);
    }
}

/// Registrations keep the world well-formed. Each is answered with the
/// next identity, which is none that was handed out before, and the player
/// of that identity exists afterwards.
pub proof fn lemma_registrations_result(w: WorldView, n: nat, k: int)
    requires
        w.wf(),
        0 <= k < n,
    ensures
        registrations_result(w, n).wf(),
        registrations_result(w, n).next_player >= w.next_player,
        registration_replies(w, n).len() == n,
        registration_replies(w, n)[k] matches Some(id) ==> id.0 == w.next_player + k
            && registrations_result(w, n).has_player(id),
    decreases n,
{
    let before = registrations_result(w, (n - 1) as nat);
    lemma_registrations_count(w, (n - 1) as nat);
    lemma_connect_disconnect(before, PlayerId(0));
    if k < n - 1 {
        lemma_registrations_result(w, (n - 1) as nat, k);
        if before.can_register() {
            lemma_spawned_wf(before);
        }
    }
}

/// What `n` registrations leave behind: a well-formed world, and as many
/// answers. As long as identities are left, the counter of identities has
/// gone up by one for each.
pub proof fn lemma_registrations_count(w: WorldView, n: nat)
    requires
        w.wf(),
    ensures
        registrations_result(w, n).wf(),
        registration_replies(w, n).len() == n,
        w.next_player <= registrations_result(w, n).next_player <= w.next_player + n,
        registrations_result(w, n).can_register() ==> registrations_result(w, n).next_player
            == w.next_player + n,
    decreases n,
{
    if n > 0 {
        lemma_registrations_count(w, (n - 1) as nat);
        lemma_connect_disconnect(registrations_result(w, (n - 1) as nat), PlayerId(0));
    }
}

/// An identity that a tick hands out belonged to no player while the
/// tick's input lines and disconnects were worked in: it is none that the
/// world had handed out before the registrations, so a line of the same
/// tick under that identity found no player and did nothing.
pub proof fn lemma_new_identity_is_fresh(
    w: WorldView,
    map: CommandMapView,
    commands: Seq<CommandView>,
    hashes: Seq<Seq<char>>,
    disconnects: Seq<DisconnectEvent>,
    registrations: nat,
    k: int,
)
    requires
        w.wf(),
        0 <= k < registrations,
        registration_replies(
            disconnects_result(commands_result(w, map, commands, hashes), disconnects),
            registrations,
        )[k] is Some,
    ensures
        ({
            let id = registration_replies(
                disconnects_result(commands_result(w, map, commands, hashes), disconnects),
                registrations,
            )[k]->0;
            &&& id.0 >= w.next_player
            &&& !w.has_player(id)
            &&& forall|j: int|
                0 <= j <= commands.len() ==> !(#[trigger] commands_result(
                    w,
                    map,
                    commands.take(j),
                    hashes.take(j),
                )).has_player(id)
            &&& before_flush(w, map, commands, hashes, disconnects, registrations).has_player(id)
        }),
{
    let w1 = commands_result(w, map, commands, hashes);
    let w2 = disconnects_result(w1, disconnects);
    lemma_commands_forward(w, map, commands, hashes);
    lemma_disconnects_forward(w1, disconnects);
    lemma_registrations_result(w2, registrations, k);
    let id = registration_replies(w2, registrations)[k]->0;
    lemma_no_future_player(w, id);
    assert forall|j: int| 0 <= j <= commands.len() implies !(#[trigger] commands_result(
        w,
        map,
        commands.take(j),
        hashes.take(j),
    )).has_player(id) by {
        lemma_commands_forward(w, map, commands.take(j), hashes.take(j));
        lemma_no_future_player(commands_result(w, map, commands.take(j), hashes.take(j)), id);
    }
}

/// Whether no player that is in both worlds has in the second an earlier
/// onboarding state than in the first.
pub open spec fn none_went_back(w: WorldView, w2: WorldView) -> bool {
    forall|q: PlayerId|
        w.has_player(q) && #[trigger] w2.has_player(q) ==> w.player(q).state.rank()
            <= w2.player(q).state.rank()
}

/// A batch of input lines creates and destroys no player, and no player
/// goes back in onboarding over the whole batch.
pub proof fn lemma_commands_forward(
    w: WorldView,
    map: CommandMapView,
    events: Seq<CommandView>,
    hashes: Seq<Seq<char>>,
)
    requires
        w.wf(),
    ensures
        commands_result(w, map, events, hashes).wf(),
        keeps_rooms(w, commands_result(w, map, events, hashes)),
        forall|q: PlayerId| #[trigger]
            commands_result(w, map, events, hashes).has_player(q) == w.has_player(q),
        none_went_back(w, commands_result(w, map, events, hashes)),
    decreases events.len(),
{
    if events.len() > 0 {
        let mid = commands_result(w, map, events.drop_last(), hashes.drop_last());
        let w2 = commands_result(w, map, events, hashes);
        let actor = events.last().player;
        lemma_commands_forward(w, map, events.drop_last(), hashes.drop_last());
        lemma_command_step(mid, map, events.last(), hashes.last());
        assert forall|q: PlayerId| #[trigger] w2.has_player(q) == w.has_player(q) by {
            assert(mid.has_player(q) == w.has_player(q));
        }
        assert forall|q: PlayerId| w.has_player(q) && #[trigger] w2.has_player(q) implies w.player(
            q,
        ).state.rank() <= w2.player(q).state.rank() by {
            assert(mid.has_player(q));
            if q != actor {
                assert(w2.player(q) == mid.player(q));
            }
        }
    }
}

/// A disconnect destroys its player and no other, and changes none of the
/// others.
pub proof fn lemma_disconnect_step(w: WorldView, player: PlayerId)
    requires
        w.wf(),
    ensures
        disconnect_step(w, player).wf(),
        keeps_rooms(w, disconnect_step(w, player)),
        forall|q: PlayerId| #[trigger]
            disconnect_step(w, player).has_player(q) == (w.has_player(q) && q != player),
        forall|q: PlayerId|
            disconnect_step(w, player).has_player(q) ==> #[trigger] disconnect_step(
                w,
                player,
            ).player(q) == w.player(q),
{
    let w2 = disconnect_step(w, player);
    if w.has_player(player) {
        let w1 = match w.name_of(player) {
            Some(name) => w.with_broadcast(player, left_line(name)),
            None => w,
        };
        lemma_wf_frame(w, w1);
        lemma_despawned_wf(w1, player);
        assert forall|q: PlayerId| #[trigger] w2.has_player(q) == (w.has_player(q) && q
            != player) by {
            assert(w1.has_player(q) == w.has_player(q));
        }
        assert forall|q: PlayerId| w2.has_player(q) implies #[trigger] w2.player(q) == w.player(
            q,
        ) by {
            assert(w1.has_player(q));
            assert(w1.player(q) == w.player(q));
        }
    }
}

/// A batch of disconnects creates no player and changes none of those
/// that stay.
pub proof fn lemma_disconnects_forward(w: WorldView, events: Seq<DisconnectEvent>)
    requires
        w.wf(),
    ensures
        disconnects_result(w, events).wf(),
        keeps_rooms(w, disconnects_result(w, events)),
        forall|q: PlayerId| #[trigger]
            disconnects_result(w, events).has_player(q) ==> w.has_player(q)
                && disconnects_result(w, events).player(q) == w.player(q),
    decreases events.len(),
{
    if events.len() > 0 {
        let mid = disconnects_result(w, events.drop_last());
        let w2 = disconnects_result(w, events);
        lemma_disconnects_forward(w, events.drop_last());
        lemma_disconnect_step(mid, events.last().player);
        assert forall|q: PlayerId| #[trigger] w2.has_player(q) implies w.has_player(q)
            && w2.player(q) == w.player(q) by {
            assert(mid.has_player(q));
            assert(w2.player(q) == mid.player(q));
        }
    }
}

/// A registration changes no player that was there. It adds at most one
/// player: the one of the identity that it is answered with, in the first
/// onboarding state.
pub proof fn lemma_register_step(w: WorldView)
    requires
        w.wf(),
    ensures
        register_step(w).wf(),
        register_step(w).rooms == w.rooms,
        register_step(w).room_registry == w.room_registry,
        register_step(w).zone_registry == w.zone_registry,
        register_step(w).next_player >= w.next_player,
        forall|q: PlayerId|
            w.has_player(q) ==> #[trigger] register_step(w).has_player(q) && register_step(
                w,
            ).player(q) == w.player(q),
        forall|q: PlayerId|
            #[trigger] register_step(w).has_player(q) && !w.has_player(q) ==> registered_id(w)
                == Some(q) && q.0 == w.next_player && register_step(w).player(q).state
                == PlayerState::ChoosingName,
{
    if w.can_register() {
        let w2 = w.spawned();
        let n = w.players.len() as int;
        lemma_spawned_wf(w);
        assert forall|q: PlayerId| #[trigger] w2.has_player(q) && !w.has_player(
            q,
        ) implies registered_id(w) == Some(q) && q.0 == w.next_player && w2.player(q).state
            == PlayerState::ChoosingName by {
            lemma_player_index(w2, q);
            let k = w2.index_of(q);
            if k < n {
                assert(w.players[k].id == q);
            }
            assert(k == n);
        }
    }
}

/// Registrations change no player that was there. Every player that they
/// add has an identity that the world had not handed out before, is the
/// answer to one of the registrations, and is in the first onboarding state.
pub proof fn lemma_registrations_forward(w: WorldView, n: nat)
    requires
        w.wf(),
    ensures
        registrations_result(w, n).wf(),
        registrations_result(w, n).rooms == w.rooms,
        registrations_result(w, n).room_registry == w.room_registry,
        registrations_result(w, n).zone_registry == w.zone_registry,
        registrations_result(w, n).next_player >= w.next_player,
        forall|q: PlayerId|
            w.has_player(q) ==> #[trigger] registrations_result(w, n).has_player(q)
                && registrations_result(w, n).player(q) == w.player(q),
        forall|q: PlayerId|
            #[trigger] registrations_result(w, n).has_player(q) && !w.has_player(q) ==> q.0
                >= w.next_player && registration_replies(w, n).contains(Some(q))
                && registrations_result(w, n).player(q).state == PlayerState::ChoosingName,
    decreases n,
{
    if n > 0 {
        let mid = registrations_result(w, (n - 1) as nat);
        let w2 = registrations_result(w, n);
        let replies = registration_replies(w, n);
        let before = registration_replies(w, (n - 1) as nat);
        lemma_registrations_forward(w, (n - 1) as nat);
        lemma_register_step(mid);
        assert forall|q: PlayerId| w.has_player(q) implies #[trigger] w2.has_player(q)
            && w2.player(q) == w.player(q) by {
            assert(mid.has_player(q));
            assert(w2.has_player(q));
        }
        assert forall|q: PlayerId| #[trigger] w2.has_player(q) && !w.has_player(q) implies q.0
            >= w.next_player && replies.contains(Some(q)) && w2.player(q).state
            == PlayerState::ChoosingName by {
            if mid.has_player(q) {
                assert(before.contains(Some(q)));
                let k = choose|k: int| 0 <= k < before.len() && before[k] == Some(q);
                assert(replies[k] == Some(q));
                assert(w2.has_player(q) && w2.player(q) == mid.player(q));
            } else {
                assert(replies[replies.len() - 1] == Some(q));
            }
        }
    }
}

/// What a whole tick does to the players, up to the flush, which changes
/// none. The world stays well-formed, and its rooms, exits and registries
/// stay as they are. No player that is there before and after has gone
/// back in onboarding. Every player that is new has an identity that the
/// world had not handed out before, is the answer to one of the tick's
/// registrations, and is in the first onboarding state: a tick adds no
/// identity but those of its registrations.
pub proof fn lemma_tick_forward(
    w: WorldView,
    map: CommandMapView,
    commands: Seq<CommandView>,
    hashes: Seq<Seq<char>>,
    disconnects: Seq<DisconnectEvent>,
    registrations: nat,
)
    requires
        w.wf(),
    ensures
        ({
            let w3 = before_flush(w, map, commands, hashes, disconnects, registrations);
            let replies = registration_replies(
                disconnects_result(commands_result(w, map, commands, hashes), disconnects),
                registrations,
            );
            &&& w3.wf() && w3.flushed().wf()
            &&& w3.flushed().players == w3.players
            &&& w3.rooms == w.rooms
            &&& w3.room_registry == w.room_registry
            &&& w3.zone_registry == w.zone_registry
            &&& none_went_back(w, w3)
            &&& forall|q: PlayerId|
                #[trigger] w3.has_player(q) && !w.has_player(q) ==> q.0 >= w.next_player
                    && replies.contains(Some(q)) && w3.player(q).state
                    == PlayerState::ChoosingName
        }),
{
    let w1 = commands_result(w, map, commands, hashes);
    let w2 = disconnects_result(w1, disconnects);
    let w3 = registrations_result(w2, registrations);
    lemma_commands_forward(w, map, commands, hashes);
    lemma_disconnects_forward(w1, disconnects);
    lemma_registrations_forward(w2, registrations);
    lemma_wf_frame(w3, w3.flushed());
    assert forall|q: PlayerId| w.has_player(q) && #[trigger] w3.has_player(q) implies w.player(
        q,
    ).state.rank() <= w3.player(q).state.rank() by {
        assert(w1.has_player(q) == w.has_player(q));
        if w2.has_player(q) {
            assert(w2.player(q) == w1.player(q));
            assert(w3.has_player(q) && w3.player(q) == w2.player(q));
        } else {
            lemma_no_future_player(w, q);
        }
    }
    assert forall|q: PlayerId| #[trigger] w3.has_player(q) && !w.has_player(q) implies q.0
        >= w.next_player && registration_replies(w2, registrations).contains(Some(q))
        && w3.player(q).state == PlayerState::ChoosingName by {
        assert(w1.has_player(q) == w.has_player(q));
        if w2.has_player(q) {
            assert(w1.has_player(q));
        }
    }
}

} // verus!
