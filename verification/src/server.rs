//! The owner's side of a tick: what an input line means for a player in
//! each onboarding state, what a disconnect and a registration do, and the
//! order in which a tick works through its queues.

use crate::commands::social::{message_of, say_step, says_line, you_say_line};
use crate::commands::{dispatch, dispatch_step, CommandMap, CommandMapView};
use crate::components::{PlayerId, PlayerState, Race};
use crate::events::{
    CommandEvent, CommandView, Delivery, DeliveryView, DisconnectEvent, OutputView,
};
use crate::model::{lemma_index_of, WorldView, ANONYMOUS};
use crate::password::{hash_password, validate_password, validate_spec, verify_spec, HashError};
use crate::systems::{
    broadcast_deliveries, deliveries_to, flush_broadcasts, flush_output, line_of,
    output_deliveries, room_audience, room_deliveries, without_broadcasts,
};
use crate::text::{concat2, concat3, str_eq, str_to_lowercase, to_lowercase, trim, trim_spec};
use crate::world::World;
use vstd::prelude::*;

verus! {

/// What a player is told that chose a name that is in use.
pub const MSG_NAME_IN_USE: &'static str = "Name already in use, please pick another: ";

/// What a player is asked whose name was accepted.
pub const MSG_ENTER_PASSWORD: &'static str = "Please enter a password: ";

/// What a player is asked whose password was accepted.
pub const RACE_PROMPT: &'static str = "Choose your race:

[A]lien (Xenomorph) — A perfect organism born of acid and nightmare, stealthy and relentless. Strike from the darkness with lethal claws, corrosive blood, and an insatiable drive to hunt and infest.

[H]uman — Versatile survivors of a fragile world, masters of ingenuity and adaptation. Rely on cunning tools, unbreakable will, and the raw ambition that conquered the void.

[P]redator (Yautja) — Honorable warriors from the stars, clad in cloaks and armed with plasma casters. Live for the thrill of the hunt, bound by a sacred code of trophies, strength, and glory.

[S]ynthetic Human (Android) — Engineered perfection without the weakness of flesh. Immune to fear or fatigue, gifted with superior intellect, strength, and loyalty programmed... or perhaps self-forged.

Your choice [A/H/P/S]: ";

/// The race that a token in lower case stands for.
pub open spec fn race_of(token: Seq<char>) -> Option<Race> {
    if token == "a"@ {
        Some(Race::Alien)
    } else if token == "h"@ {
        Some(Race::Human)
    } else if token == "p"@ {
        Some(Race::Predator)
    } else if token == "s"@ {
        Some(Race::SyntheticHuman)
    } else {
        None
    }
}

/// The race that a token in lower case stands for.
pub fn parse_race(token: &str) -> (r: Option<Race>)
    ensures
        r == race_of(token@),
{
    if str_eq(token, "a") {
        Some(Race::Alien)
    } else if str_eq(token, "h") {
        Some(Race::Human)
    } else if str_eq(token, "p") {
        Some(Race::Predator)
    } else if str_eq(token, "s") {
        Some(Race::SyntheticHuman)
    } else {
        None
    }
}

/// What a candidate name does for a player that is choosing a name: a name
/// that some player holds or has chosen is refused and the player asked
/// again; any other becomes the player's chosen name, and the player is
/// asked for a password.
pub open spec fn name_step(w: WorldView, player: PlayerId, name: Seq<char>) -> WorldView {
    if w.name_in_use(name) {
        w.with_output(player, MSG_NAME_IN_USE@)
    } else {
        w.name_chosen(player, name).with_output(player, MSG_ENTER_PASSWORD@)
    }
}

/// What a candidate password does for a player that is choosing a
/// password: one that breaks a rule is refused with the rule's message; for
/// any other `hash` is stored and the player is asked for a race.
pub open spec fn password_step(
    w: WorldView,
    player: PlayerId,
    password: Seq<char>,
    hash: Seq<char>,
) -> WorldView {
    match validate_spec(password) {
        Ok(_) => w.password_stored(player, hash).with_output(player, RACE_PROMPT@),
        Err(msg) => w.with_output(player, msg + " "@),
    }
}

/// The name that a player has chosen; the name for the nameless if none.
pub open spec fn pending_name(w: WorldView, player: PlayerId) -> Seq<char> {
    match w.player(player).chosen_name {
        Some(n) => n,
        None => ANONYMOUS@,
    }
}

/// What everybody hears when a player becomes active.
pub open spec fn joined_line(name: Seq<char>) -> Seq<char> {
    name + " has joined the game."@
}

/// What the room sees when a player becomes active in it.
pub open spec fn appears_line(name: Seq<char>) -> Seq<char> {
    name + " appears in a bright flash of light."@
}

/// What a player is told that became active.
pub open spec fn welcome_line(name: Seq<char>) -> Seq<char> {
    "Welcome, "@ + name + "!"@
}

/// What everybody hears when a player with a name is gone.
pub open spec fn left_line(name: Seq<char>) -> Seq<char> {
    name + " has left the game."@
}

/// The world after a player became active as `race`: everybody hears that
/// the player joined, the player's room sees it appear, and the player is
/// welcomed.
pub open spec fn joined(w: WorldView, player: PlayerId, race: Race) -> WorldView {
    let name = pending_name(w, player);
    let announced = w.activated(player, race).with_broadcast(player, joined_line(name));
    let shown = match w.location_of(player) {
        Some(room) => announced.with_room_broadcast(player, room, appears_line(name)),
        None => announced,
    };
    shown.with_output(player, welcome_line(name))
}

/// What a token in lower case does for a player that is choosing a race:
/// one of the four letters makes the player active, anything else brings
/// the prompt again.
pub open spec fn race_step(w: WorldView, player: PlayerId, token: Seq<char>) -> WorldView {
    match race_of(token) {
        Some(race) => joined(w, player, race),
        None => w.with_output(player, RACE_PROMPT@),
    }
}

/// What one line of input does to the world. A line for a player that
/// does not exist does nothing. Else the line, without the whitespace at
/// its ends, is what the player's state makes of it: a candidate name, a
/// candidate password (for which `hash` is stored if it is accepted), a
/// race token, or a command.
pub open spec fn command_step(
    w: WorldView,
    map: CommandMapView,
    event: CommandView,
    hash: Seq<char>,
) -> WorldView {
    let line = trim_spec(event.input);
    match w.state_of(event.player) {
        None => w,
        Some(PlayerState::ChoosingName) => name_step(w, event.player, line),
        Some(PlayerState::ChoosingPassword) => password_step(w, event.player, line, hash),
        Some(PlayerState::ChoosingRace) => race_step(w, event.player, str_to_lowercase(line)),
        Some(PlayerState::Active) => dispatch_step(w, map, event.player, line),
    }
}

/// Whether the line is a password that the world has to hash: its player
/// is choosing a password, and the line keeps the rules.
pub open spec fn needs_hash(w: WorldView, event: CommandView) -> bool {
    w.state_of(event.player) == Some(PlayerState::ChoosingPassword) && validate_spec(
        trim_spec(event.input),
    ) is Ok
}

/// Whether `hash` will do for the line: where the line is a password to
/// be hashed, `hash` verifies against it.
pub open spec fn hash_fits(w: WorldView, event: CommandView, hash: Seq<char>) -> bool {
    needs_hash(w, event) ==> verify_spec(trim_spec(event.input), hash)
}

/// Takes a candidate name from a player that is choosing a name. Does
/// nothing, and says so, for a player that is not.
pub fn submit_name(world: &mut World, player: PlayerId, name: String) -> (done: bool)
    requires
        old(world).wf(),
    ensures
        final(world).wf(),
        done == (old(world)@.state_of(player) == Some(PlayerState::ChoosingName)),
        final(world)@ == (if done {
            name_step(old(world)@, player, name@)
        } else {
            old(world)@
        }),
{
    match world.state_of(player) {
        Some(PlayerState::ChoosingName) => {},
        _ => {
            return false;
        },
    }
    if world.name_in_use(name.as_str()) {
        world.write_output(player, String::from_str(MSG_NAME_IN_USE));
    } else {
        world.choose_name(player, name);
        world.write_output(player, String::from_str(MSG_ENTER_PASSWORD));
    }
    true
}

/// Stores the hash of an accepted password for a player that is choosing
/// a password, and asks the player for a race. Does nothing, and says so,
/// for a player that is not.
pub fn accept_password(world: &mut World, player: PlayerId, hash: String) -> (done: bool)
    requires
        old(world).wf(),
    ensures
        final(world).wf(),
        done == (old(world)@.state_of(player) == Some(PlayerState::ChoosingPassword)),
        final(world)@ == (if done {
            old(world)@.password_stored(player, hash@).with_output(player, RACE_PROMPT@)
        } else {
            old(world)@
        }),
{
    if world.store_password(player, hash) {
        world.write_output(player, String::from_str(RACE_PROMPT));
        true
    } else {
        false
    }
}

/// Takes a candidate password from a player that is choosing a password:
/// refuses one that breaks a rule, hashes any other under a fresh salt and
/// stores the hash. Does nothing, and says so with `Ok(false)`, for a
/// player that is not choosing a password. Fails, and changes nothing,
/// only where a password was to be hashed and the system gave no salt.
pub fn submit_password(world: &mut World, player: PlayerId, password: &str) -> (r: Result<
    bool,
    HashError,
>)
    requires
        old(world).wf(),
    ensures
        final(world).wf(),
        r matches Ok(done) ==> done == (old(world)@.state_of(player) == Some(
            PlayerState::ChoosingPassword,
        )),
        r == Ok::<bool, HashError>(true) ==> exists|hash: Seq<char>|
            (validate_spec(password@) is Ok ==> verify_spec(password@, hash)) && final(world)@
                == #[trigger] password_step(old(world)@, player, password@, hash),
        r == Ok::<bool, HashError>(false) ==> final(world)@ == old(world)@,
        r is Err ==> old(world)@.state_of(player) == Some(PlayerState::ChoosingPassword)
            && validate_spec(password@) is Ok && final(world)@ == old(world)@,
{
    match world.state_of(player) {
        Some(PlayerState::ChoosingPassword) => {},
        _ => {
            return Ok(false);
        },
    }
    match validate_password(password) {
        Ok(()) => match hash_password(password) {
            Ok(hash) => {
                let ghost h = hash@;
                accept_password(world, player, hash);
                assert(world@ == password_step(old(world)@, player, password@, h));
                Ok(true)
            },
            Err(e) => Err(e),
        },
        Err(msg) => {
            world.write_output(player, concat2(msg, " "));
            assert(world@ == password_step(old(world)@, player, password@, Seq::empty()));
            Ok(true)
        },
    }
}

/// Takes a race token in lower case from a player that is choosing a
/// race. Does nothing, and says so, for a player that is not.
pub fn submit_race(world: &mut World, player: PlayerId, token: &str) -> (done: bool)
    requires
        old(world).wf(),
    ensures
        final(world).wf(),
        done == (old(world)@.state_of(player) == Some(PlayerState::ChoosingRace)),
        final(world)@ == (if done {
            race_step(old(world)@, player, token@)
        } else {
            old(world)@
        }),
{
    match world.state_of(player) {
        Some(PlayerState::ChoosingRace) => {},
        _ => {
            return false;
        },
    }
    match parse_race(token) {
        Some(race) => {
            let name = match world.chosen_name_of(player) {
                Some(n) => n,
                None => String::from_str(ANONYMOUS),
            };
            let maybe_room = world.location_of(player);
            world.activate(player, race);
            world.write_broadcast(player, concat2(name.as_str(), " has joined the game."));
            if let Some(room) = maybe_room {
                world.write_room_broadcast(
                    player,
                    room,
                    concat2(name.as_str(), " appears in a bright flash of light."),
                );
            }
            world.write_output(player, concat3("Welcome, ", name.as_str(), "!"));
        },
        None => {
            world.write_output(player, String::from_str(RACE_PROMPT));
        },
    }
    true
}

/// Works one line of input into the world. Fails, and changes nothing,
/// only where a password was to be hashed and the system gave no salt.
pub fn handle_command(world: &mut World, map: &CommandMap, event: &CommandEvent) -> (r: Result<
    (),
    HashError,
>)
    requires
        old(world).wf(),
    ensures
        final(world).wf(),
        r is Ok ==> exists|hash: Seq<char>|
            hash_fits(old(world)@, event@, hash) && final(world)@ == #[trigger] command_step(
                old(world)@,
                map@,
                event@,
                hash,
            ),
        r is Err ==> needs_hash(old(world)@, event@) && final(world)@ == old(world)@,
{
    let input = trim(event.input.as_str());
    let player = event.player;
    match world.state_of(player) {
        None => {
            assert(world@ == command_step(old(world)@, map@, event@, Seq::empty()));
            Ok(())
        },
        Some(PlayerState::ChoosingName) => {
            submit_name(world, player, input);
            assert(world@ == command_step(old(world)@, map@, event@, Seq::empty()));
            Ok(())
        },
        Some(PlayerState::ChoosingPassword) => {
            match submit_password(world, player, input.as_str()) {
                Ok(_) => {
                    proof {
                        let hash = choose|hash: Seq<char>|
                            (validate_spec(input@) is Ok ==> verify_spec(input@, hash))
                                && world@ == #[trigger] password_step(
                                old(world)@,
                                player,
                                input@,
                                hash,
                            );
                        assert(world@ == command_step(old(world)@, map@, event@, hash));
                    }
                    Ok(())
                },
                Err(e) => Err(e),
            }
        },
        Some(PlayerState::ChoosingRace) => {
            let token = to_lowercase(input.as_str());
            submit_race(world, player, token.as_str());
            assert(world@ == command_step(old(world)@, map@, event@, Seq::empty()));
            Ok(())
        },
        Some(PlayerState::Active) => {
            dispatch(map, player, world, input.as_str());
            assert(world@ == command_step(old(world)@, map@, event@, Seq::empty()));
            Ok(())
        },
    }
}

/// What the end of a player's connection does: everybody hears that a
/// player with a name left, and the player is destroyed. For an identity
/// that no player has, nothing happens.
pub open spec fn disconnect_step(w: WorldView, player: PlayerId) -> WorldView {
    if !w.has_player(player) {
        w
    } else {
        match w.name_of(player) {
            Some(name) => w.with_broadcast(player, left_line(name)).despawned(player),
            None => w.despawned(player),
        }
    }
}

/// Works the end of a player's connection into the world.
pub fn handle_disconnect(world: &mut World, event: &DisconnectEvent)
    requires
        old(world).wf(),
    ensures
        final(world).wf(),
        final(world)@ == disconnect_step(old(world)@, event.player),
        !final(world)@.has_player(event.player),
{
    if !world.contains(event.player) {
        return ;
    }
    if let Some(name) = world.name_of(event.player) {
        world.write_broadcast(event.player, concat2(name.as_str(), " has left the game."));
    }
    world.despawn(event.player);
}

/// What a registration does: a new player in the first onboarding state,
/// at the start room if there is one; nothing if the identities have run out.
pub open spec fn register_step(w: WorldView) -> WorldView {
    if w.can_register() {
        w.spawned()
    } else {
        w
    }
}

/// The identity that a registration is answered with.
pub open spec fn registered_id(w: WorldView) -> Option<PlayerId> {
    if w.can_register() {
        Some(PlayerId(w.next_player as u64))
    } else {
        None
    }
}

/// Works a registration into the world and returns the new player's
/// identity, which no player has had before. Gives `None`, and changes
/// nothing, only when the identities have run out.
pub fn handle_registration(world: &mut World) -> (r: Option<PlayerId>)
    requires
        old(world).wf(),
    ensures
        final(world).wf(),
        final(world)@ == register_step(old(world)@),
        r == registered_id(old(world)@),
        r matches Some(id) ==> !old(world)@.has_player(id) && final(world)@.state_of(id) == Some(
            PlayerState::ChoosingName,
        ),
{
    let r = world.spawn();
    proof {
        if let Some(id) = r {
            let w = old(world)@;
            let n = w.players.len() as int;
            assert(w.spawned().players[n].id == id);
            lemma_index_of(w.spawned(), n);
        }
    }
    r
}

/// The world after a batch of input lines, worked in one after the other
/// in their order; `hashes` holds for each line the hash that is stored if
/// the line is an accepted password.
pub open spec fn commands_result(
    w: WorldView,
    map: CommandMapView,
    events: Seq<CommandView>,
    hashes: Seq<Seq<char>>,
) -> WorldView
    decreases events.len(),
{
    if events.len() == 0 {
        w
    } else {
        command_step(
            commands_result(w, map, events.drop_last(), hashes.drop_last()),
            map,
            events.last(),
            hashes.last(),
        )
    }
}

/// Whether each hash fits its line, in the world in which the line is
/// worked in.
pub open spec fn hashes_fit(
    w: WorldView,
    map: CommandMapView,
    events: Seq<CommandView>,
    hashes: Seq<Seq<char>>,
) -> bool
    decreases events.len(),
{
    &&& hashes.len() == events.len()
    &&& events.len() > 0 ==> hashes_fit(w, map, events.drop_last(), hashes.drop_last())
        && hash_fits(
        commands_result(w, map, events.drop_last(), hashes.drop_last()),
        events.last(),
        hashes.last(),
    )
}

/// The world after a batch of disconnects, in their order.
pub open spec fn disconnects_result(w: WorldView, events: Seq<DisconnectEvent>) -> WorldView
    decreases events.len(),
{
    if events.len() == 0 {
        w
    } else {
        disconnect_step(disconnects_result(w, events.drop_last()), events.last().player)
    }
}

/// The world after `n` registrations.
pub open spec fn registrations_result(w: WorldView, n: nat) -> WorldView
    decreases n,
{
    if n == 0 {
        w
    } else {
        register_step(registrations_result(w, (n - 1) as nat))
    }
}

/// The answers to `n` registrations, in their order.
pub open spec fn registration_replies(w: WorldView, n: nat) -> Seq<Option<PlayerId>>
    decreases n,
{
    if n == 0 {
        Seq::empty()
    } else {
        registration_replies(w, (n - 1) as nat).push(
            registered_id(registrations_result(w, (n - 1) as nat)),
        )
    }
}

/// Works a batch of input lines into the world, in their order. Stops
/// and fails only at a password that was to be hashed when the system gave
/// no salt; the lines before it are worked in then, that line and those
/// after it are not.
pub fn handle_commands(world: &mut World, map: &CommandMap, events: &Vec<CommandEvent>) -> (r:
    Result<(), HashError>)
    requires
        old(world).wf(),
    ensures
        final(world).wf(),
        r is Ok ==> exists|hashes: Seq<Seq<char>>|
            hashes_fit(old(world)@, map@, events.deep_view(), hashes) && final(world)@
                == #[trigger] commands_result(old(world)@, map@, events.deep_view(), hashes),
        r is Err ==> exists|k: int, hashes: Seq<Seq<char>>|
            0 <= k < events.len() && hashes_fit(
                old(world)@,
                map@,
                events.deep_view().take(k),
                hashes,
            ) && needs_hash(final(world)@, events.deep_view()[k]) && final(world)@
                == #[trigger] commands_result(
                old(world)@,
                map@,
                events.deep_view().take(k),
                hashes,
            ),
{
    let ghost w0 = old(world)@;
    let ghost all = events.deep_view();
    let ghost mut hashes: Seq<Seq<char>> = Seq::empty();
    let mut i: usize = 0;
    assert(all.take(0) =~= Seq::<CommandView>::empty());
    while i < events.len()
        invariant
            i <= events.len(),
            world.wf(),
            w0 == old(world)@,
            all == events.deep_view(),
            hashes_fit(w0, map@, all.take(i as int), hashes),
            world@ == commands_result(w0, map@, all.take(i as int), hashes),
        decreases events.len() - i,
    {
        let ghost before = world@;
        let r = handle_command(world, map, &events[i]);
        proof {
            assert(all[i as int] == events@[i as int]@);
        }
        match r {
            Ok(()) => {
                proof {
                    let hash = choose|hash: Seq<char>|
                        hash_fits(before, all[i as int], hash) && world@
                            == #[trigger] command_step(before, map@, all[i as int], hash);
                    let next = all.take(i + 1);
                    assert(next.drop_last() =~= all.take(i as int));
                    assert(next.last() == all[i as int]);
                    assert(hashes.push(hash).drop_last() =~= hashes);
                    hashes = hashes.push(hash);
                }
            },
            Err(e) => {
                return Err(e);
            },
        }
        i += 1;
    }
    assert(all.take(i as int) =~= all);
    Ok(())
}

/// Works a batch of disconnects into the world, in their order.
pub fn handle_disconnects(world: &mut World, events: &Vec<DisconnectEvent>)
    requires
        old(world).wf(),
    ensures
        final(world).wf(),
        final(world)@ == disconnects_result(old(world)@, events@),
{
    let ghost w0 = old(world)@;
    let mut i: usize = 0;
    assert(events@.take(0) =~= Seq::<DisconnectEvent>::empty());
    while i < events.len()
        invariant
            i <= events.len(),
            world.wf(),
            world@ == disconnects_result(w0, events@.take(i as int)),
        decreases events.len() - i,
    {
        handle_disconnect(world, &events[i]);
        proof {
            assert(events@.take(i + 1).drop_last() =~= events@.take(i as int));
            assert(events@.take(i + 1).last() == events@[i as int]);
        }
        i += 1;
    }
    assert(events@.take(i as int) =~= events@);
}

/// Works `n` registrations into the world and returns the answers in
/// their order: for each its fresh identity, or `None` once the identities
/// have run out.
pub fn handle_registrations(world: &mut World, n: usize) -> (replies: Vec<Option<PlayerId>>)
    requires
        old(world).wf(),
    ensures
        final(world).wf(),
        final(world)@ == registrations_result(old(world)@, n as nat),
        replies@ == registration_replies(old(world)@, n as nat),
{
    let ghost w0 = old(world)@;
    let mut replies: Vec<Option<PlayerId>> = Vec::new();
    let mut i: usize = 0;
    while i < n
        invariant
            i <= n,
            world.wf(),
            world@ == registrations_result(w0, i as nat),
            replies@ == registration_replies(w0, i as nat),
        decreases n - i,
    {
        let r = handle_registration(world);
        replies.push(r);
        i += 1;
    }
    replies
}

/// What a tick hands back to the connections.
#[derive(Clone, Debug, PartialEq, Eq)]
pub struct TickOutput {
    /// The answer to each registration, in the order of the requests.
    pub registered: Vec<Option<PlayerId>>,
    /// The lines to put on the players' output channels, in order.
    pub deliveries: Vec<Delivery>,
}

/// The world of a tick just before its queued lines are flushed: the
/// input lines are worked in first, then the disconnects, then the
/// registrations.
pub open spec fn before_flush(
    w: WorldView,
    map: CommandMapView,
    commands: Seq<CommandView>,
    hashes: Seq<Seq<char>>,
    disconnects: Seq<DisconnectEvent>,
    registrations: nat,
) -> WorldView {
    registrations_result(
        disconnects_result(commands_result(w, map, commands, hashes), disconnects),
        registrations,
    )
}

/// The deliveries of a flush: those of the broadcasts, then those of the
/// lines for single players.
pub open spec fn flush_deliveries(w: WorldView) -> Seq<DeliveryView> {
    broadcast_deliveries(w) + output_deliveries(w, w.outputs)
}

/// Turns all queued lines into deliveries, broadcasts first.
pub fn flush(world: &mut World) -> (out: Vec<Delivery>)
    requires
        old(world).wf(),
    ensures
        final(world).wf(),
        out.deep_view() == flush_deliveries(old(world)@),
        final(world)@ == old(world)@.flushed(),
{
    let mut out = flush_broadcasts(world);
    let ghost first = out.deep_view();
    let mut direct = flush_output(world);
    let ghost second = direct.deep_view();
    proof {
        let w = old(world)@;
        let w1 = without_broadcasts(w);
        lemma_output_deliveries_frame(w, w1, w.outputs);
    }
    out.append(&mut direct);
    assert(out.deep_view() =~= first + second);
    out
}

/// Which lines for single players are delivered depends on the players only.
pub proof fn lemma_output_deliveries_frame(
    w: WorldView,
    w2: WorldView,
    events: Seq<OutputView>,
)
    requires
        w2.players == w.players,
    ensures
        output_deliveries(w2, events) == output_deliveries(w, events),
    decreases events.len(),
{
    if events.len() > 0 {
        lemma_output_deliveries_frame(w, w2, events.drop_last());
    }
}

/// One tick of the world: works in the input lines, then the disconnects,
/// then the registrations, each batch in its order, and then flushes the
/// queued lines. Fails only at a password that was to be hashed when the
/// system gave no salt; the tick stops there.
pub fn tick(
    world: &mut World,
    map: &CommandMap,
    commands: &Vec<CommandEvent>,
    disconnects: &Vec<DisconnectEvent>,
    registrations: usize,
) -> (r: Result<TickOutput, HashError>)
    requires
        old(world).wf(),
    ensures
        final(world).wf(),
        r matches Ok(out) ==> exists|hashes: Seq<Seq<char>>|
            hashes_fit(old(world)@, map@, commands.deep_view(), hashes) && final(world)@ == (
            #[trigger] before_flush(
                old(world)@,
                map@,
                commands.deep_view(),
                hashes,
                disconnects@,
                registrations as nat,
            )).flushed() && out.deliveries.deep_view() == flush_deliveries(
                before_flush(
                    old(world)@,
                    map@,
                    commands.deep_view(),
                    hashes,
                    disconnects@,
                    registrations as nat,
                ),
            ) && out.registered@ == registration_replies(
                disconnects_result(
                    commands_result(old(world)@, map@, commands.deep_view(), hashes),
                    disconnects@,
                ),
                registrations as nat,
            ),
        r is Err ==> exists|k: int, hashes: Seq<Seq<char>>|
            0 <= k < commands.len() && hashes_fit(
                old(world)@,
                map@,
                commands.deep_view().take(k),
                hashes,
            ) && needs_hash(final(world)@, commands.deep_view()[k]) && final(world)@
                == #[trigger] commands_result(
                old(world)@,
                map@,
                commands.deep_view().take(k),
                hashes,
            ),
{
    match handle_commands(world, map, commands) {
        Ok(()) => {},
        Err(e) => {
            return Err(e);
        },
    }
    let ghost w0 = old(world)@;
    let ghost w1 = world@;
    let ghost hashes = choose|hashes: Seq<Seq<char>>|
        hashes_fit(w0, map@, commands.deep_view(), hashes) && w1 == #[trigger] commands_result(
            w0,
            map@,
            commands.deep_view(),
            hashes,
        );
    handle_disconnects(world, disconnects);
    let registered = handle_registrations(world, registrations);
    let deliveries = flush(world);
    assert(world@ == before_flush(
        w0,
        map@,
        commands.deep_view(),
        hashes,
        disconnects@,
        registrations as nat,
    ).flushed());
    Ok(TickOutput { registered, deliveries })
}

/// What comes of saying something in a room when nothing else is queued:
/// the words go to the other active, named players in the room, and the
/// speaker gets its own confirmation and nothing else.
pub proof fn lemma_say_is_heard(w: WorldView, player: PlayerId, args: Seq<Seq<char>>)
    requires
        w.has_player(player),
        w.location_of(player) is Some,
        args.len() > 0,
        w == w.flushed(),
    ensures
        flush_deliveries(say_step(w, player, args)) == deliveries_to(
            w.players,
            room_audience(player, w.location_of(player)->0),
            line_of(says_line(w.display_name(player), message_of(args))),
        ).push(DeliveryView { player, line: line_of(you_say_line(message_of(args))) }),
{
    let w2 = say_step(w, player, args);
    let loc = w.location_of(player)->0;
    let heard = deliveries_to(
        w.players,
        room_audience(player, loc),
        line_of(says_line(w.display_name(player), message_of(args))),
    );
    assert(w2.broadcasts =~= Seq::empty());
    assert(w2.zone_broadcasts =~= Seq::empty());
    assert(w2.room_broadcasts.drop_last() =~= Seq::empty());
    assert(w2.outputs.drop_last() =~= Seq::empty());
    assert(w2.players == w.players);
    assert(room_deliveries(w2, w2.room_broadcasts.drop_last()) =~= Seq::empty());
    assert(output_deliveries(w2, w2.outputs.drop_last()) =~= Seq::empty());
    assert(w2.has_player(player));
    assert(room_deliveries(w2, w2.room_broadcasts) =~= heard);
    assert(output_deliveries(w2, w2.outputs) =~= seq![
        DeliveryView { player, line: line_of(you_say_line(message_of(args))) },
    ]);
    assert(flush_deliveries(w2) =~= heard.push(
        DeliveryView { player, line: line_of(you_say_line(message_of(args))) },
    ));
}

} // verus!
