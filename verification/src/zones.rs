//! Zones as they are read from their definitions, and how a definition
//! becomes rooms, exits and registry entries of the world.

use crate::components::{RoomId, RoomView};
use crate::model::{
    lemma_wf_frame, lemma_with_exit_wf, lemma_with_registered_room_wf, lemma_with_room_wf,
    lemma_with_room_zone_wf, WorldView,
};
use crate::text::concat3;
use crate::world::{create_room, World};
use vstd::hash_map::StringHashMap;
use vstd::prelude::*;

verus! {

/// The definition of a room: its id within the zone, its texts, and its
/// exits as pairs of a direction and the id of the room behind it.
pub struct RoomDef {
    pub id: String,
    pub name: String,
    pub description: String,
    pub exits: Vec<(String, String)>,
}

/// The definition of a zone.
pub struct ZoneDef {
    pub id: String,
    pub name: String,
    pub rooms: Vec<RoomDef>,
}

/// The definition of a room as contracts see it.
pub struct RoomDefView {
    pub id: Seq<char>,
    pub name: Seq<char>,
    pub description: Seq<char>,
    pub exits: Seq<(Seq<char>, Seq<char>)>,
}

/// The definition of a zone as contracts see it.
pub struct ZoneDefView {
    pub id: Seq<char>,
    pub name: Seq<char>,
    pub rooms: Seq<RoomDefView>,
}

impl View for RoomDef {
    type V = RoomDefView;

    open spec fn view(&self) -> RoomDefView {
        RoomDefView {
            id: self.id@,
            name: self.name@,
            description: self.description@,
            exits: self.exits.deep_view(),
        }
    }
}

impl DeepView for RoomDef {
    type V = RoomDefView;

    open spec fn deep_view(&self) -> RoomDefView {
        self@
    }
}

impl View for ZoneDef {
    type V = ZoneDefView;

    open spec fn view(&self) -> ZoneDefView {
        ZoneDefView { id: self.id@, name: self.name@, rooms: self.rooms.deep_view() }
    }
}

/// The key under which a room of a zone stands in the registry.
pub open spec fn qualified_id(zone: Seq<char>, room: Seq<char>) -> Seq<char> {
    zone + ":"@ + room
}

/// The rooms of a zone by their ids, where the first of them gets the
/// handle `base` and each next one the next handle. Of two rooms of the
/// same id the later one holds the id.
pub open spec fn local_rooms(base: nat, defs: Seq<RoomDefView>) -> Map<Seq<char>, RoomId>
    decreases defs.len(),
{
    if defs.len() == 0 {
        Map::empty()
    } else {
        local_rooms(base, defs.drop_last()).insert(
            defs.last().id,
            RoomId((base + defs.len() - 1) as usize),
        )
    }
}

/// The world with one more room for each definition, each in the zone.
pub open spec fn with_zone_rooms(w: WorldView, zone: Seq<char>, defs: Seq<RoomDefView>) -> WorldView
    decreases defs.len(),
{
    if defs.len() == 0 {
        w
    } else {
        let before = with_zone_rooms(w, zone, defs.drop_last());
        before.with_room(defs.last().name, defs.last().description).with_room_zone(
            RoomId(before.rooms.len() as usize),
            zone,
        )
    }
}

/// The world with the exits of one room opened, in their order: each exit
/// whose target is a room of the zone leads to that room; the others are
/// left out.
pub open spec fn with_room_exits(
    w: WorldView,
    local: Map<Seq<char>, RoomId>,
    from: RoomId,
    exits: Seq<(Seq<char>, Seq<char>)>,
) -> WorldView
    decreases exits.len(),
{
    if exits.len() == 0 {
        w
    } else {
        let before = with_room_exits(w, local, from, exits.drop_last());
        if local.contains_key(exits.last().1) {
            before.with_exit(from, exits.last().0, local[exits.last().1])
        } else {
            before
        }
    }
}

/// The world with the exits of all definitions opened, definition after
/// definition, each at the room that holds the definition's id.
pub open spec fn with_zone_exits(
    w: WorldView,
    local: Map<Seq<char>, RoomId>,
    defs: Seq<RoomDefView>,
) -> WorldView
    decreases defs.len(),
{
    if defs.len() == 0 {
        w
    } else {
        let before = with_zone_exits(w, local, defs.drop_last());
        if local.contains_key(defs.last().id) {
            with_room_exits(before, local, local[defs.last().id], defs.last().exits)
        } else {
            before
        }
    }
}

/// The world with the rooms of the zone filed in the registry under their
/// qualified ids.
pub open spec fn with_zone_registry(
    w: WorldView,
    local: Map<Seq<char>, RoomId>,
    zone: Seq<char>,
    defs: Seq<RoomDefView>,
) -> WorldView
    decreases defs.len(),
{
    if defs.len() == 0 {
        w
    } else {
        let before = with_zone_registry(w, local, zone, defs.drop_last());
        if local.contains_key(defs.last().id) {
            before.with_registered_room(
                qualified_id(zone, defs.last().id),
                local[defs.last().id],
            )
        } else {
            before
        }
    }
}

/// The world with a zone loaded: first a room is made for every
/// definition, then the exits are opened, then the rooms are filed in the
/// registry, and last the zone's name is filed under its id.
pub open spec fn load_zone_spec(w: WorldView, zone: ZoneDefView) -> WorldView {
    let local = local_rooms(w.rooms.len(), zone.rooms);
    let made = with_zone_rooms(w, zone.id, zone.rooms);
    let linked = with_zone_exits(made, local, zone.rooms);
    let filed = with_zone_registry(linked, local, zone.id, zone.rooms);
    filed.with_registered_zone(zone.id, zone.name)
}

/// Every room of the zone has a handle below the number of rooms.
pub open spec fn local_in_range(local: Map<Seq<char>, RoomId>, rooms: nat) -> bool {
    forall|k: Seq<char>| #[trigger] local.contains_key(k) ==> local[k].0 < rooms
}

/// Every room of the zone has a handle from `base` on.
pub open spec fn local_from(local: Map<Seq<char>, RoomId>, base: nat) -> bool {
    forall|k: Seq<char>| #[trigger] local.contains_key(k) ==> local[k].0 >= base
}

/// Whether two worlds differ in nothing but their rooms and the registry
/// of rooms.
pub open spec fn same_but_rooms(w: WorldView, w2: WorldView) -> bool {
    &&& w2.players == w.players
    &&& w2.next_player == w.next_player
    &&& w2.zone_registry == w.zone_registry
    &&& w2.outputs == w.outputs
    &&& w2.broadcasts == w.broadcasts
    &&& w2.room_broadcasts == w.room_broadcasts
    &&& w2.zone_broadcasts == w.zone_broadcasts
}

/// Whether room `r` has in both worlds the same name, description and zone.
pub open spec fn same_room_texts(w: WorldView, w2: WorldView, r: int) -> bool {
    &&& w2.rooms[r].name == w.rooms[r].name
    &&& w2.rooms[r].description == w.rooms[r].description
    &&& w2.rooms[r].zone == w.rooms[r].zone
}

/// Opens the exits of one room.
fn link_room(
    world: &mut World,
    local: &StringHashMap<RoomId>,
    from: RoomId,
    exits: &Vec<(String, String)>,
)
    requires
        old(world).wf(),
        old(world)@.valid_room(from),
        local_in_range(local@, old(world)@.rooms.len()),
    ensures
        final(world).wf(),
        final(world)@ == with_room_exits(old(world)@, local@, from, exits.deep_view()),
        final(world)@.rooms.len() == old(world)@.rooms.len(),
{
    let ghost all = exits.deep_view();
    let ghost w0 = old(world)@;
    let mut i: usize = 0;
    assert(all.take(0) =~= Seq::<(Seq<char>, Seq<char>)>::empty());
    while i < exits.len()
        invariant
            i <= exits.len(),
            world.wf(),
            all == exits.deep_view(),
            world@.rooms.len() == w0.rooms.len(),
            w0.valid_room(from),
            local_in_range(local@, w0.rooms.len()),
            world@ == with_room_exits(w0, local@, from, all.take(i as int)),
        decreases exits.len() - i,
    {
        proof {
            assert(all.take(i + 1).drop_last() =~= all.take(i as int));
            assert(all.take(i + 1).last() == all[i as int]);
            assert(all[i as int] == (exits@[i as int].0@, exits@[i as int].1@));
        }
        let dir = &exits[i].0;
        let target_id = &exits[i].1;
        if let Some(target) = local.get(target_id.as_str()) {
            assert(local@.contains_key(target_id@));
            world.add_exit(from, dir.clone(), *target);
        }
        i += 1;
    }
    assert(all.take(i as int) =~= all);
}

/// Loads a zone into the world: makes a room for every definition, opens
/// the exits that lead to rooms of the zone, files the rooms in the
/// registry under `<zone id>:<room id>` and the zone's name under the
/// zone's id.
pub fn load_zone(world: &mut World, zone: &ZoneDef)
    requires
        old(world).wf(),
    ensures
        final(world).wf(),
        final(world)@ == load_zone_spec(old(world)@, zone@),
{
    let ghost w0 = old(world)@;
    let ghost defs = zone.rooms.deep_view();
    let ghost base = w0.rooms.len();
    let mut local_map: StringHashMap<RoomId> = StringHashMap::new();
    let mut i: usize = 0;
    assert(defs.take(0) =~= Seq::<RoomDefView>::empty());
    while i < zone.rooms.len()
        invariant
            i <= zone.rooms.len(),
            world.wf(),
            defs == zone.rooms.deep_view(),
            base == w0.rooms.len(),
            world@.rooms.len() == base + i,
            local_map@ == local_rooms(base, defs.take(i as int)),
            local_in_range(local_map@, world@.rooms.len()),
            world@ == with_zone_rooms(w0, zone.id@, defs.take(i as int)),
        decreases zone.rooms.len() - i,
    {
        let r = &zone.rooms[i];
        proof {
            assert(defs.take(i + 1).drop_last() =~= defs.take(i as int));
            assert(defs.take(i + 1).last() == r@);
        }
        let ent = create_room(world, r.name.as_str(), r.description.as_str());
        world.set_room_zone(ent, zone.id.clone());
        local_map.insert(r.id.clone(), ent);
        i += 1;
    }
    assert(defs.take(i as int) =~= defs);
    let ghost made = world@;
    let ghost local = local_map@;

    let mut i: usize = 0;
    while i < zone.rooms.len()
        invariant
            i <= zone.rooms.len(),
            world.wf(),
            defs == zone.rooms.deep_view(),
            local == local_map@,
            world@.rooms.len() == made.rooms.len(),
            local_in_range(local, made.rooms.len()),
            world@ == with_zone_exits(made, local, defs.take(i as int)),
        decreases zone.rooms.len() - i,
    {
        let r = &zone.rooms[i];
        proof {
            assert(defs.take(i + 1).drop_last() =~= defs.take(i as int));
            assert(defs.take(i + 1).last() == r@);
        }
        if let Some(ent) = local_map.get(r.id.as_str()) {
            assert(local.contains_key(r.id@));
            link_room(world, &local_map, *ent, &r.exits);
        }
        i += 1;
    }
    assert(defs.take(i as int) =~= defs);
    let ghost linked = world@;

    let mut i: usize = 0;
    while i < zone.rooms.len()
        invariant
            i <= zone.rooms.len(),
            world.wf(),
            defs == zone.rooms.deep_view(),
            local == local_map@,
            world@.rooms.len() == made.rooms.len(),
            local_in_range(local, made.rooms.len()),
            world@ == with_zone_registry(linked, local, zone.id@, defs.take(i as int)),
        decreases zone.rooms.len() - i,
    {
        let r = &zone.rooms[i];
        proof {
            assert(defs.take(i + 1).drop_last() =~= defs.take(i as int));
            assert(defs.take(i + 1).last() == r@);
        }
        if let Some(ent) = local_map.get(r.id.as_str()) {
            assert(local.contains_key(r.id@));
            let reg_id = concat3(zone.id.as_str(), ":", r.id.as_str());
            world.register_room(reg_id, *ent);
        }
        i += 1;
    }
    assert(defs.take(i as int) =~= defs);
    world.register_zone(zone.id.clone(), zone.name.clone());
}

/// The rooms that are made for a zone stand behind the rooms that were
/// there, one for each definition in the order of the definitions, each
/// with the texts of its definition, in the zone, and without exits.
/// Nothing else changes.
pub proof fn lemma_with_zone_rooms(w: WorldView, zone: Seq<char>, defs: Seq<RoomDefView>)
    requires
        w.wf(),
        w.rooms.len() + defs.len() <= usize::MAX,
    ensures
        ({
            let w2 = with_zone_rooms(w, zone, defs);
            &&& w2.wf()
            &&& same_but_rooms(w, w2)
            &&& w2.room_registry == w.room_registry
            &&& w2.rooms.len() == w.rooms.len() + defs.len()
            &&& forall|r: int| 0 <= r < w.rooms.len() ==> #[trigger] w2.rooms[r] == w.rooms[r]
            &&& forall|j: int|
                0 <= j < defs.len() ==> #[trigger] w2.rooms[w.rooms.len() + j] == (RoomView {
                    name: defs[j].name,
                    description: defs[j].description,
                    exits: Map::empty(),
                    zone: Some(zone),
                })
        }),
    decreases defs.len(),
{
    if defs.len() > 0 {
        let before = with_zone_rooms(w, zone, defs.drop_last());
        lemma_with_zone_rooms(w, zone, defs.drop_last());
        let made = before.with_room(defs.last().name, defs.last().description);
        lemma_with_room_wf(before, defs.last().name, defs.last().description);
        lemma_with_room_zone_wf(made, RoomId(before.rooms.len() as usize), zone);
        let w2 = with_zone_rooms(w, zone, defs);
        assert forall|j: int| 0 <= j < defs.len() implies #[trigger] w2.rooms[w.rooms.len() + j]
            == (RoomView {
            name: defs[j].name,
            description: defs[j].description,
            exits: Map::empty(),
            zone: Some(zone),
        }) by {
            if j < defs.len() - 1 {
                assert(w2.rooms[w.rooms.len() + j] == before.rooms[w.rooms.len() + j]);
                assert(defs.drop_last()[j] == defs[j]);
            }
        }
    }
}

/// The ids of a zone's rooms are the ids of its definitions, and the handle
/// of each is that of a room made for a definition of that id: the last.
pub proof fn lemma_local_rooms(base: nat, defs: Seq<RoomDefView>)
    requires
        base + defs.len() <= usize::MAX,
    ensures
        forall|j: int| 0 <= j < defs.len() ==> local_rooms(base, defs).contains_key(
            #[trigger] defs[j].id,
        ),
        forall|id: Seq<char>| #[trigger]
            local_rooms(base, defs).contains_key(id) ==> base <= local_rooms(base, defs)[id].0
                < base + defs.len() && defs[local_rooms(base, defs)[id].0 - base].id == id
                && forall|j: int|
                local_rooms(base, defs)[id].0 - base < j < defs.len() ==> (#[trigger] defs[j]).id
                    != id,
    decreases defs.len(),
{
    if defs.len() > 0 {
        let rest = defs.drop_last();
        lemma_local_rooms(base, rest);
        let local = local_rooms(base, defs);
        let before = local_rooms(base, rest);
        assert forall|j: int| 0 <= j < defs.len() implies local.contains_key(
            #[trigger] defs[j].id,
        ) by {
            if j < rest.len() {
                assert(rest[j] == defs[j]);
                assert(before.contains_key(rest[j].id));
            }
        }
        assert forall|id: Seq<char>| #[trigger] local.contains_key(id) implies base
            <= local[id].0 < base + defs.len() && defs[local[id].0 - base].id == id
            && forall|j: int|
            local[id].0 - base < j < defs.len() ==> (#[trigger] defs[j]).id != id by {
            if id != defs.last().id {
                assert(before.contains_key(id));
                let at = before[id].0 - base;
                assert(rest[at] == defs[at]);
                assert forall|j: int| at < j < defs.len() implies (#[trigger] defs[j]).id
                    != id by {
                    if j < rest.len() {
                        assert(rest[j] == defs[j]);
                    }
                }
            }
        }
    }
}

/// Opening the exits of one room changes the exits of that room and
/// nothing else.
pub proof fn lemma_with_room_exits(
    w: WorldView,
    local: Map<Seq<char>, RoomId>,
    from: RoomId,
    exits: Seq<(Seq<char>, Seq<char>)>,
)
    requires
        w.wf(),
        w.valid_room(from),
        local_in_range(local, w.rooms.len()),
    ensures
        ({
            let w2 = with_room_exits(w, local, from, exits);
            &&& w2.wf()
            &&& same_but_rooms(w, w2)
            &&& w2.room_registry == w.room_registry
            &&& w2.rooms.len() == w.rooms.len()
            &&& forall|r: int| 0 <= r < w.rooms.len() ==> #[trigger] same_room_texts(w, w2, r)
            &&& forall|r: int|
                0 <= r < w.rooms.len() && r != from.0 ==> #[trigger] w2.rooms[r] == w.rooms[r]
        }),
    decreases exits.len(),
{
    if exits.len() > 0 {
        let before = with_room_exits(w, local, from, exits.drop_last());
        lemma_with_room_exits(w, local, from, exits.drop_last());
        let w2 = with_room_exits(w, local, from, exits);
        if local.contains_key(exits.last().1) {
            lemma_with_exit_wf(before, from, exits.last().0, local[exits.last().1]);
        }
        assert forall|r: int| 0 <= r < w.rooms.len() implies #[trigger] same_room_texts(
            w,
            w2,
            r,
        ) by {
            assert(same_room_texts(w, before, r));
        }
    }
}

/// Opening the exits of a zone changes the exits of rooms of the zone and
/// nothing else.
pub proof fn lemma_with_zone_exits(
    w: WorldView,
    local: Map<Seq<char>, RoomId>,
    defs: Seq<RoomDefView>,
    base: nat,
)
    requires
        w.wf(),
        local_in_range(local, w.rooms.len()),
        local_from(local, base),
    ensures
        ({
            let w2 = with_zone_exits(w, local, defs);
            &&& w2.wf()
            &&& same_but_rooms(w, w2)
            &&& w2.room_registry == w.room_registry
            &&& w2.rooms.len() == w.rooms.len()
            &&& forall|r: int| 0 <= r < w.rooms.len() ==> #[trigger] same_room_texts(w, w2, r)
            &&& forall|r: int|
                0 <= r < w.rooms.len() && r < base ==> #[trigger] w2.rooms[r] == w.rooms[r]
        }),
    decreases defs.len(),
{
    if defs.len() > 0 {
        let before = with_zone_exits(w, local, defs.drop_last());
        lemma_with_zone_exits(w, local, defs.drop_last(), base);
        let w2 = with_zone_exits(w, local, defs);
        if local.contains_key(defs.last().id) {
            lemma_with_room_exits(before, local, local[defs.last().id], defs.last().exits);
        }
        assert forall|r: int| 0 <= r < w.rooms.len() implies #[trigger] same_room_texts(
            w,
            w2,
            r,
        ) by {
            assert(same_room_texts(w, before, r));
            assert(same_room_texts(before, w2, r));
        }
        assert forall|r: int| 0 <= r < w.rooms.len() && r < base implies #[trigger] w2.rooms[r]
            == w.rooms[r] by {
            assert(before.rooms[r] == w.rooms[r]);
        }
    }
}

/// Two rooms of a zone have the same qualified id only if they have the
/// same id.
pub proof fn lemma_qualified_id(zone: Seq<char>, a: Seq<char>, b: Seq<char>)
    requires
        qualified_id(zone, a) == qualified_id(zone, b),
    ensures
        a == b,
{
    let prefix = zone + ":"@;
    assert((prefix + a).skip(prefix.len() as int) =~= a);
    assert((prefix + b).skip(prefix.len() as int) =~= b);
}

/// Filing the rooms of a zone puts every room of the zone under its
/// qualified id and changes nothing else.
pub proof fn lemma_with_zone_registry(
    w: WorldView,
    local: Map<Seq<char>, RoomId>,
    zone: Seq<char>,
    defs: Seq<RoomDefView>,
)
    requires
        w.wf(),
        local_in_range(local, w.rooms.len()),
    ensures
        ({
            let w2 = with_zone_registry(w, local, zone, defs);
            &&& w2.wf()
            &&& same_but_rooms(w, w2)
            &&& w2.rooms == w.rooms
            &&& forall|j: int|
                0 <= j < defs.len() && local.contains_key((#[trigger] defs[j]).id)
                    ==> w2.room_registry.contains_key(qualified_id(zone, defs[j].id))
                    && w2.room_registry[qualified_id(zone, defs[j].id)] == local[defs[j].id]
            &&& forall|key: Seq<char>|
                (forall|j: int| 0 <= j < defs.len() ==> key != qualified_id(
                    zone,
                    (#[trigger] defs[j]).id,
                )) ==> (#[trigger] w2.room_registry.contains_key(key))
                    == w.room_registry.contains_key(key) && (w.room_registry.contains_key(key)
                    ==> w2.room_registry[key] == w.room_registry[key])
        }),
    decreases defs.len(),
{
    if defs.len() > 0 {
        let rest = defs.drop_last();
        let before = with_zone_registry(w, local, zone, rest);
        lemma_with_zone_registry(w, local, zone, rest);
        let w2 = with_zone_registry(w, local, zone, defs);
        let last_key = qualified_id(zone, defs.last().id);
        if local.contains_key(defs.last().id) {
            lemma_with_registered_room_wf(before, last_key, local[defs.last().id]);
        }
        assert forall|j: int|
            0 <= j < defs.len() && local.contains_key(
                (#[trigger] defs[j]).id,
            ) implies w2.room_registry.contains_key(qualified_id(zone, defs[j].id))
            && w2.room_registry[qualified_id(zone, defs[j].id)] == local[defs[j].id] by {
            if j < rest.len() {
                assert(rest[j] == defs[j]);
                if qualified_id(zone, defs[j].id) == last_key {
                    lemma_qualified_id(zone, defs[j].id, defs.last().id);
                }
            }
        }
        assert forall|key: Seq<char>|
            (forall|j: int| 0 <= j < defs.len() ==> key != qualified_id(
                zone,
                (#[trigger] defs[j]).id,
            )) implies (#[trigger] w2.room_registry.contains_key(key))
            == w.room_registry.contains_key(key) && (w.room_registry.contains_key(key)
            ==> w2.room_registry[key] == w.room_registry[key]) by {
            assert(key != qualified_id(zone, defs[defs.len() - 1].id));
            assert forall|j: int| 0 <= j < rest.len() implies key != qualified_id(
                zone,
                (#[trigger] rest[j]).id,
            ) by {
                assert(rest[j] == defs[j]);
            }
        }
    }
}

/// What loading a zone comes to. The world stays well-formed. The rooms
/// that were there keep their places and everything about them; behind
/// them stands one room for each definition, in the order of the
/// definitions, with the texts of its definition and in the zone. Every
/// room id of the zone is filed in the registry under its qualified id
/// and leads to the last room that was made for a definition of that id;
/// the other entries of the registry stay. The zone's name is filed under
/// the zone's id. Players and queued lines stay as they are.
pub proof fn lemma_load_zone(w: WorldView, zone: ZoneDefView)
    requires
        w.wf(),
        w.rooms.len() + zone.rooms.len() <= usize::MAX,
    ensures
        ({
            let w2 = load_zone_spec(w, zone);
            let base = w.rooms.len();
            let local = local_rooms(base, zone.rooms);
            &&& w2.wf()
            &&& w2.players == w.players
            &&& w2.next_player == w.next_player
            &&& w2.outputs == w.outputs
            &&& w2.broadcasts == w.broadcasts
            &&& w2.room_broadcasts == w.room_broadcasts
            &&& w2.zone_broadcasts == w.zone_broadcasts
            &&& w2.zone_registry == w.zone_registry.insert(zone.id, zone.name)
            &&& w2.rooms.len() == base + zone.rooms.len()
            &&& forall|r: int| 0 <= r < base ==> #[trigger] w2.rooms[r] == w.rooms[r]
            &&& forall|j: int|
                0 <= j < zone.rooms.len() ==> (#[trigger] w2.rooms[base + j]).name
                    == zone.rooms[j].name && w2.rooms[base + j].description
                    == zone.rooms[j].description && w2.rooms[base + j].zone == Some(zone.id)
            &&& forall|j: int|
                0 <= j < zone.rooms.len() ==> w2.room_registry.contains_key(
                    qualified_id(zone.id, (#[trigger] zone.rooms[j]).id),
                ) && w2.room_registry[qualified_id(zone.id, zone.rooms[j].id)]
                    == local[zone.rooms[j].id] && base <= local[zone.rooms[j].id].0 < base
                    + zone.rooms.len() && zone.rooms[local[zone.rooms[j].id].0 - base].id
                    == zone.rooms[j].id
            &&& forall|key: Seq<char>|
                (forall|j: int| 0 <= j < zone.rooms.len() ==> key != qualified_id(
                    zone.id,
                    (#[trigger] zone.rooms[j]).id,
                )) ==> (#[trigger] w2.room_registry.contains_key(key))
                    == w.room_registry.contains_key(key) && (w.room_registry.contains_key(key)
                    ==> w2.room_registry[key] == w.room_registry[key])
        }),
{
    let base = w.rooms.len();
    let defs = zone.rooms;
    let local = local_rooms(base, defs);
    let made = with_zone_rooms(w, zone.id, defs);
    let linked = with_zone_exits(made, local, defs);
    let filed = with_zone_registry(linked, local, zone.id, defs);
    let w2 = load_zone_spec(w, zone);
    lemma_with_zone_rooms(w, zone.id, defs);
    lemma_local_rooms(base, defs);
    assert(local_in_range(local, made.rooms.len()));
    assert(local_from(local, base));
    lemma_with_zone_exits(made, local, defs, base);
    lemma_with_zone_registry(linked, local, zone.id, defs);
    lemma_wf_frame(filed, w2);
    assert forall|r: int| 0 <= r < base implies #[trigger] w2.rooms[r] == w.rooms[r] by {
        assert(linked.rooms[r] == made.rooms[r]);
        assert(made.rooms[r] == w.rooms[r]);
    }
    assert forall|j: int| 0 <= j < defs.len() implies (#[trigger] w2.rooms[base + j]).name
        == defs[j].name && w2.rooms[base + j].description == defs[j].description
        && w2.rooms[base + j].zone == Some(zone.id) by {
        assert(same_room_texts(made, linked, base + j));
        assert(made.rooms[base + j].name == defs[j].name);
    }
    assert forall|j: int| 0 <= j < defs.len() implies w2.room_registry.contains_key(
        qualified_id(zone.id, (#[trigger] defs[j]).id),
    ) && w2.room_registry[qualified_id(zone.id, defs[j].id)] == local[defs[j].id] && base
        <= local[defs[j].id].0 < base + defs.len() && defs[local[defs[j].id].0 - base].id
        == defs[j].id by {
        assert(local.contains_key(defs[j].id));
    }
}

} // verus!
