//! The end of a tick: the queued lines become deliveries to the players'
//! output channels.

use crate::components::{Player, PlayerId, PlayerState, PlayerView, RoomId, RoomView};
use crate::events::{
    BroadcastRoomView, BroadcastView, BroadcastZoneView, Delivery, DeliveryView, OutputView,
    LINE_SUFFIX,
};
use crate::model::WorldView;
use crate::text::{concat2, str_eq};
use crate::world::World;
use vstd::prelude::*;

verus! {

/// A queued text as it goes out: with the prompt behind it.
pub open spec fn line_of(text: Seq<char>) -> Seq<char> {
    text + LINE_SUFFIX@
}

/// Whether a player gets what `from` broadcasts: it is another player, and
/// it is active and has a name.
pub open spec fn hears(p: PlayerView, from: PlayerId) -> bool {
    p.id != from && p.state == PlayerState::Active && p.name is Some
}

/// Who gets a line that is broadcast to everybody.
pub open spec fn global_audience(from: PlayerId) -> spec_fn(PlayerView) -> bool {
    |p: PlayerView| hears(p, from)
}

/// Who gets a line that is broadcast to a room.
pub open spec fn room_audience(from: PlayerId, room: RoomId) -> spec_fn(PlayerView) -> bool {
    |p: PlayerView| hears(p, from) && p.location == Some(room)
}

/// Whether room `r` is one of `rooms` and belongs to the zone with this id.
pub open spec fn room_in_zone(rooms: Seq<RoomView>, r: RoomId, zone: Seq<char>) -> bool {
    r.0 < rooms.len() && rooms[r.0 as int].zone == Some(zone)
}

/// Who gets a line that is broadcast to a zone: the players in a room of
/// that zone. A player that is in no room, or in a room without a zone, is
/// in no zone and gets no such line, whatever the zone id.
pub open spec fn zone_audience(rooms: Seq<RoomView>, from: PlayerId, zone: Seq<char>) -> spec_fn(
    PlayerView,
) -> bool {
    |p: PlayerView|
        hears(p, from) && (p.location matches Some(r) && room_in_zone(rooms, r, zone))
}

/// One delivery of the line to each player of the audience, in the order
/// of the players.
pub open spec fn deliveries_to(
    players: Seq<PlayerView>,
    audience: spec_fn(PlayerView) -> bool,
    line: Seq<char>,
) -> Seq<DeliveryView>
    decreases players.len(),
{
    if players.len() == 0 {
        Seq::empty()
    } else if audience(players.last()) {
        deliveries_to(players.drop_last(), audience, line).push(
            DeliveryView { player: players.last().id, line },
        )
    } else {
        deliveries_to(players.drop_last(), audience, line)
    }
}

/// The deliveries of the lines queued for everybody, event after event.
pub open spec fn global_deliveries(w: WorldView, events: Seq<BroadcastView>) -> Seq<DeliveryView>
    decreases events.len(),
{
    if events.len() == 0 {
        Seq::empty()
    } else {
        global_deliveries(w, events.drop_last()) + deliveries_to(
            w.players,
            global_audience(events.last().from),
            line_of(events.last().text),
        )
    }
}

/// The deliveries of the lines queued for rooms, event after event.
pub open spec fn room_deliveries(w: WorldView, events: Seq<BroadcastRoomView>) -> Seq<
    DeliveryView,
>
    decreases events.len(),
{
    if events.len() == 0 {
        Seq::empty()
    } else {
        room_deliveries(w, events.drop_last()) + deliveries_to(
            w.players,
            room_audience(events.last().from, events.last().room),
            line_of(events.last().text),
        )
    }
}

/// The deliveries of the lines queued for zones, event after event.
pub open spec fn zone_deliveries(w: WorldView, events: Seq<BroadcastZoneView>) -> Seq<
    DeliveryView,
>
    decreases events.len(),
{
    if events.len() == 0 {
        Seq::empty()
    } else {
        zone_deliveries(w, events.drop_last()) + deliveries_to(
            w.players,
            zone_audience(w.rooms, events.last().from, events.last().zone),
            line_of(events.last().text),
        )
    }
}

/// The deliveries of the lines queued for single players, event after
/// event: one for each line whose player exists.
pub open spec fn output_deliveries(w: WorldView, events: Seq<OutputView>) -> Seq<DeliveryView>
    decreases events.len(),
{
    if events.len() == 0 {
        Seq::empty()
    } else if w.has_player(events.last().player) {
        output_deliveries(w, events.drop_last()).push(
            DeliveryView { player: events.last().player, line: line_of(events.last().text) },
        )
    } else {
        output_deliveries(w, events.drop_last())
    }
}

/// All deliveries of broadcasts: those to everybody first, then those to
/// rooms, then those to zones.
pub open spec fn broadcast_deliveries(w: WorldView) -> Seq<DeliveryView> {
    global_deliveries(w, w.broadcasts) + room_deliveries(w, w.room_broadcasts) + zone_deliveries(
        w,
        w.zone_broadcasts,
    )
}

/// The world with the queues of broadcasts empty.
pub open spec fn without_broadcasts(w: WorldView) -> WorldView {
    WorldView {
        broadcasts: Seq::empty(),
        room_broadcasts: Seq::empty(),
        zone_broadcasts: Seq::empty(),
        ..w
    }
}

/// The world with the queue of lines for single players empty.
pub open spec fn without_outputs(w: WorldView) -> WorldView {
    WorldView { outputs: Seq::empty(), ..w }
}

/// Whom a broadcast is for.
enum Scope<'a> {
    Everybody,
    Room(RoomId),
    Zone(&'a str),
}

/// The audience of a broadcast from `from` with this scope.
spec fn scope_audience(rooms: Seq<RoomView>, from: PlayerId, scope: Scope) -> spec_fn(
    PlayerView,
) -> bool {
    match scope {
        Scope::Everybody => global_audience(from),
        Scope::Room(room) => room_audience(from, room),
        Scope::Zone(zone) => zone_audience(rooms, from, zone@),
    }
}

/// Whether the player gets what `from` broadcasts.
fn player_hears(p: &Player, from: PlayerId) -> (r: bool)
    ensures
        r == hears(p@, from),
{
    p.id != from && match p.state {
        PlayerState::Active => p.name.is_some(),
        _ => false,
    }
}

/// Whether the player is in a room of the zone with this id.
fn player_in_zone(world: &World, p: &Player, zone: &str) -> (r: bool)
    ensures
        r == (p@.location matches Some(room) && room_in_zone(world@.rooms, room, zone@)),
{
    match p.location {
        Some(l) => match world.zone_of_room(l.0) {
            Some(z) => str_eq(z.as_str(), zone),
            None => false,
        },
        None => false,
    }
}

/// Whether the player belongs to the audience of a broadcast.
fn in_audience(world: &World, p: &Player, from: PlayerId, scope: &Scope) -> (r: bool)
    ensures
        r == scope_audience(world@.rooms, from, *scope)(p@),
{
    player_hears(p, from) && match scope {
        Scope::Everybody => true,
        Scope::Room(room) => match p.location {
            Some(l) => l.0 == *room,
            None => false,
        },
        Scope::Zone(zone) => player_in_zone(world, p, zone),
    }
}

/// Adds to `out` one delivery of the text, with the prompt behind it, for
/// each player of the audience, in the order of the players.
fn deliver(world: &World, from: PlayerId, scope: &Scope, text: &str, out: &mut Vec<Delivery>)
    ensures
        final(out).deep_view() == old(out).deep_view() + deliveries_to(
            world@.players,
            scope_audience(world@.rooms, from, *scope),
            line_of(text@),
        ),
{
    let players = world.players();
    let ghost all = world@.players;
    let ghost audience = scope_audience(world@.rooms, from, *scope);
    let ghost line = line_of(text@);
    let ghost before = out.deep_view();
    let mut i: usize = 0;
    assert(all.take(0) =~= Seq::<PlayerView>::empty());
    assert(before + Seq::<DeliveryView>::empty() =~= before);
    while i < players.len()
        invariant
            i <= players.len(),
            players.deep_view() == all,
            all == world@.players,
            audience == scope_audience(world@.rooms, from, *scope),
            line == line_of(text@),
            out.deep_view() == before + deliveries_to(all.take(i as int), audience, line),
        decreases players.len() - i,
    {
        let p = &players[i];
        let ghost sofar = deliveries_to(all.take(i as int), audience, line);
        proof {
            assert(all.take(i + 1).drop_last() =~= all.take(i as int));
            assert(all.take(i + 1).last() == p@);
        }
        if in_audience(world, p, from, scope) {
            let d = Delivery { player: p.id, line: concat2(text, LINE_SUFFIX) };
            let ghost dv = d@;
            let ghost prev = out.deep_view();
            out.push(d);
            assert(out.deep_view() =~= prev.push(dv));
            assert(out.deep_view() =~= before + sofar.push(dv));
        }
        i += 1;
    }
    assert(all.take(i as int) =~= all);
}

/// Turns the queued broadcasts into deliveries: each line, with the prompt
/// behind it, goes to every active, named player that the broadcast is
/// for, but never to the player that it comes from. The queues are empty
/// afterwards.
pub fn flush_broadcasts(world: &mut World) -> (out: Vec<Delivery>)
    requires
        old(world).wf(),
    ensures
        final(world).wf(),
        out.deep_view() == broadcast_deliveries(old(world)@),
        final(world)@ == without_broadcasts(old(world)@),
{
    let globals = world.take_broadcasts();
    let rooms = world.take_room_broadcasts();
    let zones = world.take_zone_broadcasts();
    let ghost w = old(world)@;
    let mut out: Vec<Delivery> = Vec::new();
    assert(out.deep_view() =~= Seq::<DeliveryView>::empty());

    let mut e: usize = 0;
    assert(w.broadcasts.take(0) =~= Seq::<BroadcastView>::empty());
    while e < globals.len()
        invariant
            e <= globals.len(),
            globals.deep_view() == w.broadcasts,
            world@.players == w.players,
            out.deep_view() == global_deliveries(w, w.broadcasts.take(e as int)),
        decreases globals.len() - e,
    {
        let event = &globals[e];
        proof {
            assert(w.broadcasts.take(e + 1).drop_last() =~= w.broadcasts.take(e as int));
            assert(w.broadcasts.take(e + 1).last() == event@);
        }
        deliver(world, event.from, &Scope::Everybody, event.text.as_str(), &mut out);
        e += 1;
    }
    assert(w.broadcasts.take(e as int) =~= w.broadcasts);
    let ghost after_globals = out.deep_view();

    let mut e: usize = 0;
    assert(w.room_broadcasts.take(0) =~= Seq::<BroadcastRoomView>::empty());
    assert(after_globals + Seq::<DeliveryView>::empty() =~= after_globals);
    while e < rooms.len()
        invariant
            e <= rooms.len(),
            rooms.deep_view() == w.room_broadcasts,
            world@.players == w.players,
            out.deep_view() == after_globals + room_deliveries(
                w,
                w.room_broadcasts.take(e as int),
            ),
        decreases rooms.len() - e,
    {
        let event = &rooms[e];
        let ghost sofar = room_deliveries(w, w.room_broadcasts.take(e as int));
        proof {
            assert(w.room_broadcasts.take(e + 1).drop_last() =~= w.room_broadcasts.take(
                e as int,
            ));
            assert(w.room_broadcasts.take(e + 1).last() == event@);
        }
        deliver(world, event.from, &Scope::Room(event.room), event.text.as_str(), &mut out);
        assert(out.deep_view() =~= after_globals + room_deliveries(
            w,
            w.room_broadcasts.take(e + 1),
        ));
        e += 1;
    }
    assert(w.room_broadcasts.take(e as int) =~= w.room_broadcasts);
    let ghost after_rooms = out.deep_view();

    let mut e: usize = 0;
    assert(w.zone_broadcasts.take(0) =~= Seq::<BroadcastZoneView>::empty());
    assert(after_rooms + Seq::<DeliveryView>::empty() =~= after_rooms);
    while e < zones.len()
        invariant
            e <= zones.len(),
            zones.deep_view() == w.zone_broadcasts,
            world@.players == w.players,
            world@.rooms == w.rooms,
            out.deep_view() == after_rooms + zone_deliveries(w, w.zone_broadcasts.take(e as int)),
        decreases zones.len() - e,
    {
        let event = &zones[e];
        proof {
            assert(w.zone_broadcasts.take(e + 1).drop_last() =~= w.zone_broadcasts.take(
                e as int,
            ));
            assert(w.zone_broadcasts.take(e + 1).last() == event@);
        }
        deliver(
            world,
            event.from,
            &Scope::Zone(event.zone.as_str()),
            event.text.as_str(),
            &mut out,
        );
        assert(out.deep_view() =~= after_rooms + zone_deliveries(
            w,
            w.zone_broadcasts.take(e + 1),
        ));
        e += 1;
    }
    assert(w.zone_broadcasts.take(e as int) =~= w.zone_broadcasts);
    out
}

/// Turns the lines queued for single players into deliveries: each line,
/// with the prompt behind it, goes to its player if that player exists,
/// and is dropped if not. The queue is empty afterwards.
pub fn flush_output(world: &mut World) -> (out: Vec<Delivery>)
    requires
        old(world).wf(),
    ensures
        final(world).wf(),
        out.deep_view() == output_deliveries(old(world)@, old(world)@.outputs),
        final(world)@ == without_outputs(old(world)@),
{
    let events = world.take_outputs();
    let ghost w = old(world)@;
    let mut out: Vec<Delivery> = Vec::new();
    let mut e: usize = 0;
    assert(out.deep_view() =~= Seq::<DeliveryView>::empty());
    assert(w.outputs.take(0) =~= Seq::<OutputView>::empty());
    while e < events.len()
        invariant
            e <= events.len(),
            world.wf(),
            events.deep_view() == w.outputs,
            world@.players == w.players,
            out.deep_view() == output_deliveries(w, w.outputs.take(e as int)),
        decreases events.len() - e,
    {
        let event = &events[e];
        proof {
            assert(w.outputs.take(e + 1).drop_last() =~= w.outputs.take(e as int));
            assert(w.outputs.take(e + 1).last() == event@);
        }
        if world.contains(event.player) {
            let d = Delivery {
                player: event.player,
                line: concat2(event.text.as_str(), LINE_SUFFIX),
            };
            let ghost before = out.deep_view();
            let ghost dv = d@;
            out.push(d);
            assert(out.deep_view() =~= before.push(dv));
        }
        e += 1;
    }
    assert(w.outputs.take(e as int) =~= w.outputs);
    out
}

/// A line goes to its audience and to nobody else: every delivery holds
/// the line and the identity of a player of the audience, and every
/// player of the audience has its delivery.
pub proof fn lemma_deliveries_to(
    players: Seq<PlayerView>,
    audience: spec_fn(PlayerView) -> bool,
    line: Seq<char>,
)
    ensures
        forall|k: int|
            0 <= k < deliveries_to(players, audience, line).len() ==> (#[trigger] deliveries_to(
                players,
                audience,
                line,
            )[k]).line == line && exists|i: int|
                0 <= i < players.len() && audience(#[trigger] players[i]) && players[i].id
                    == deliveries_to(players, audience, line)[k].player,
        forall|i: int|
            0 <= i < players.len() && audience(#[trigger] players[i]) ==> deliveries_to(
                players,
                audience,
                line,
            ).contains(DeliveryView { player: players[i].id, line }),
        deliveries_to(players, audience, line).len() <= players.len(),
    decreases players.len(),
{
    if players.len() > 0 {
        let rest = players.drop_last();
        let out = deliveries_to(players, audience, line);
        let prev = deliveries_to(rest, audience, line);
        lemma_deliveries_to(rest, audience, line);
        assert forall|k: int| 0 <= k < out.len() implies (#[trigger] out[k]).line == line
            && exists|i: int|
            0 <= i < players.len() && audience(#[trigger] players[i]) && players[i].id
                == out[k].player by {
            if k < prev.len() {
                assert(out[k] == prev[k]);
                let i = choose|i: int|
                    0 <= i < rest.len() && audience(#[trigger] rest[i]) && rest[i].id
                        == prev[k].player;
                assert(players[i] == rest[i]);
            } else {
                assert(audience(players[players.len() - 1]));
            }
        }
        assert forall|i: int| 0 <= i < players.len() && audience(
            #[trigger] players[i],
        ) implies out.contains(DeliveryView { player: players[i].id, line }) by {
            let d = DeliveryView { player: players[i].id, line };
            if i < rest.len() {
                assert(rest[i] == players[i]);
                assert(prev.contains(d));
                let k = choose|k: int| 0 <= k < prev.len() && prev[k] == d;
                assert(out[k] == d);
            } else {
                assert(out[out.len() - 1] == d);
            }
        }
    }
}

/// A line that is broadcast to a room reaches every other player in that
/// room that is active and has a name, and nobody else: never its sender,
/// nobody elsewhere, nobody who is still onboarding.
pub proof fn lemma_room_broadcast(
    players: Seq<PlayerView>,
    from: PlayerId,
    room: RoomId,
    text: Seq<char>,
)
    ensures
        ({
            let out = deliveries_to(players, room_audience(from, room), line_of(text));
            &&& forall|k: int|
                0 <= k < out.len() ==> (#[trigger] out[k]).player != from && out[k].line
                    == line_of(text) && exists|i: int|
                    0 <= i < players.len() && (#[trigger] players[i]).id == out[k].player
                        && players[i].state == PlayerState::Active && players[i].name is Some
                        && players[i].location == Some(room)
            &&& forall|i: int|
                0 <= i < players.len() && (#[trigger] players[i]).id != from && players[i].state
                    == PlayerState::Active && players[i].name is Some && players[i].location
                    == Some(room) ==> out.contains(
                    DeliveryView { player: players[i].id, line: line_of(text) },
                )
        }),
{
    let audience = room_audience(from, room);
    let out = deliveries_to(players, audience, line_of(text));
    lemma_deliveries_to(players, audience, line_of(text));
    assert forall|k: int| 0 <= k < out.len() implies (#[trigger] out[k]).player != from
        && out[k].line == line_of(text) && exists|i: int|
        0 <= i < players.len() && (#[trigger] players[i]).id == out[k].player && players[i].state
            == PlayerState::Active && players[i].name is Some && players[i].location == Some(
            room,
        ) by {
        let i = choose|i: int|
            0 <= i < players.len() && audience(#[trigger] players[i]) && players[i].id
                == out[k].player;
        assert(audience(players[i]));
    }
    assert forall|i: int|
        0 <= i < players.len() && (#[trigger] players[i]).id != from && players[i].state
            == PlayerState::Active && players[i].name is Some && players[i].location == Some(
            room,
        ) implies out.contains(DeliveryView { player: players[i].id, line: line_of(text) }) by {
        assert(audience(players[i]));
    }
}

/// A line that is broadcast to a zone reaches every other player that is
/// active, has a name and is in a room of that zone, and nobody else:
/// never its sender, nobody in another zone, and nobody who is in no room
/// or in a room without a zone, whatever the zone id.
pub proof fn lemma_zone_broadcast(
    players: Seq<PlayerView>,
    rooms: Seq<RoomView>,
    from: PlayerId,
    zone: Seq<char>,
    text: Seq<char>,
)
    ensures
        ({
            let out = deliveries_to(players, zone_audience(rooms, from, zone), line_of(text));
            &&& forall|k: int|
                0 <= k < out.len() ==> (#[trigger] out[k]).player != from && out[k].line
                    == line_of(text) && exists|i: int|
                    0 <= i < players.len() && (#[trigger] players[i]).id == out[k].player
                        && players[i].state == PlayerState::Active && players[i].name is Some
                        && players[i].location is Some && room_in_zone(
                        rooms,
                        players[i].location->0,
                        zone,
                    )
            &&& forall|i: int|
                0 <= i < players.len() && (#[trigger] players[i]).id != from && players[i].state
                    == PlayerState::Active && players[i].name is Some && players[i].location
                    is Some && room_in_zone(rooms, players[i].location->0, zone)
                    ==> out.contains(DeliveryView { player: players[i].id, line: line_of(text) })
        }),
{
    let audience = zone_audience(rooms, from, zone);
    let out = deliveries_to(players, audience, line_of(text));
    lemma_deliveries_to(players, audience, line_of(text));
    assert forall|k: int| 0 <= k < out.len() implies (#[trigger] out[k]).player != from
        && out[k].line == line_of(text) && exists|i: int|
        0 <= i < players.len() && (#[trigger] players[i]).id == out[k].player && players[i].state
            == PlayerState::Active && players[i].name is Some && players[i].location is Some
            && room_in_zone(rooms, players[i].location->0, zone) by {
        let i = choose|i: int|
            0 <= i < players.len() && audience(#[trigger] players[i]) && players[i].id
                == out[k].player;
        assert(audience(players[i]));
    }
    assert forall|i: int|
        0 <= i < players.len() && (#[trigger] players[i]).id != from && players[i].state
            == PlayerState::Active && players[i].name is Some && players[i].location is Some
            && room_in_zone(rooms, players[i].location->0, zone) implies out.contains(
        DeliveryView { player: players[i].id, line: line_of(text) },
    ) by {
        assert(audience(players[i]));
    }
}

} // verus!
