//! The world: players, rooms, registries and the queues of outgoing lines.
//!
//! The world alone holds and changes this state. Its methods are the only
//! way in; each says in its contract what it does to the world's view.

use crate::components::{
    opt_view, Location, Name, Player, PlayerId, PlayerState, Race, RegistrationData, Room, RoomId,
    Zone,
};
use crate::events::{BroadcastEvent, BroadcastRoomEvent, BroadcastZoneEvent, OutputEvent};
use crate::model::{
    lemma_despawned_wf, lemma_index_of, lemma_player_index, lemma_spawned_wf, lemma_wf_frame,
    lemma_with_exit_wf, lemma_with_player_wf, lemma_with_registered_room_wf, lemma_with_room_wf,
    lemma_with_room_zone_wf, player_wf, WorldView, ANONYMOUS, START_ROOM,
};
use crate::text::str_eq;
use vstd::hash_map::StringHashMap;
use vstd::prelude::*;

verus! {

/// Rooms by their qualified id.
pub struct RoomRegistry {
    pub id_to_entity: StringHashMap<RoomId>,
}

impl View for RoomRegistry {
    type V = Map<Seq<char>, RoomId>;

    open spec fn view(&self) -> Map<Seq<char>, RoomId> {
        self.id_to_entity@
    }
}

impl RoomRegistry {
    /// An empty registry.
    pub fn new() -> (r: RoomRegistry)
        ensures
            r@ == Map::<Seq<char>, RoomId>::empty(),
    {
        RoomRegistry { id_to_entity: StringHashMap::new() }
    }

    /// Files `ent` under `id`, in place of what was there.
    pub fn insert(&mut self, id: String, ent: RoomId)
        ensures
            final(self)@ == old(self)@.insert(id@, ent),
    {
        self.id_to_entity.insert(id, ent);
    }

    /// The room filed under `id`.
    pub fn get(&self, id: &str) -> (r: Option<RoomId>)
        ensures
            r == (if self@.contains_key(id@) {
                Some(self@[id@])
            } else {
                None
            }),
    {
        match self.id_to_entity.get(id) {
            Some(ent) => Some(*ent),
            None => None,
        }
    }
}

impl Default for RoomRegistry {
    fn default() -> (r: RoomRegistry)
        ensures
            r@ == Map::<Seq<char>, RoomId>::empty(),
    {
        RoomRegistry::new()
    }
}

/// The names of the values of a map of strings.
pub open spec fn names_view(m: Map<Seq<char>, String>) -> Map<Seq<char>, Seq<char>> {
    m.map_values(|s: String| s@)
}

/// Zone names by zone id.
pub struct ZoneRegistry {
    pub id_to_name: StringHashMap<String>,
}

impl View for ZoneRegistry {
    type V = Map<Seq<char>, Seq<char>>;

    open spec fn view(&self) -> Map<Seq<char>, Seq<char>> {
        names_view(self.id_to_name@)
    }
}

impl ZoneRegistry {
    /// An empty registry.
    pub fn new() -> (r: ZoneRegistry)
        ensures
            r@ == Map::<Seq<char>, Seq<char>>::empty(),
    {
        let r = ZoneRegistry { id_to_name: StringHashMap::new() };
        assert(r@ =~= Map::<Seq<char>, Seq<char>>::empty());
        r
    }

    /// Files `name` under `id`, in place of what was there.
    pub fn insert(&mut self, id: String, name: String)
        ensures
            final(self)@ == old(self)@.insert(id@, name@),
    {
        self.id_to_name.insert(id, name);
        assert(self@ =~= old(self)@.insert(id@, name@));
    }

    /// The name filed under `id`.
    pub fn get(&self, id: &str) -> (r: Option<String>)
        ensures
            opt_view(r) == (if self@.contains_key(id@) {
                Some(self@[id@])
            } else {
                None
            }),
    {
        match self.id_to_name.get(id) {
            Some(name) => Some(name.clone()),
            None => None,
        }
    }
}

impl Default for ZoneRegistry {
    fn default() -> (r: ZoneRegistry)
        ensures
            r@ == Map::<Seq<char>, Seq<char>>::empty(),
    {
        ZoneRegistry::new()
    }
}

/// The single store of all player, room and zone state and of the queued
/// lines.
pub struct World {
    players: Vec<Player>,
    next_player: u64,
    rooms: Vec<Room>,
    room_registry: RoomRegistry,
    zone_registry: ZoneRegistry,
    outputs: Vec<OutputEvent>,
    broadcasts: Vec<BroadcastEvent>,
    room_broadcasts: Vec<BroadcastRoomEvent>,
    zone_broadcasts: Vec<BroadcastZoneEvent>,
}

impl View for World {
    type V = WorldView;

    closed spec fn view(&self) -> WorldView {
        WorldView {
            players: self.players.deep_view(),
            next_player: self.next_player as nat,
            rooms: self.rooms.deep_view(),
            room_registry: self.room_registry@,
            zone_registry: self.zone_registry@,
            outputs: self.outputs.deep_view(),
            broadcasts: self.broadcasts.deep_view(),
            room_broadcasts: self.room_broadcasts.deep_view(),
            zone_broadcasts: self.zone_broadcasts.deep_view(),
        }
    }
}

impl World {
    /// The invariant of the world, which every operation keeps.
    pub open spec fn wf(&self) -> bool {
        self@.wf()
    }

    /// A world without players, rooms or queued lines.
    pub fn new() -> (w: World)
        ensures
            w@ == WorldView::empty(),
            w.wf(),
    {
        let w = World {
            players: Vec::new(),
            next_player: 0,
            rooms: Vec::new(),
            room_registry: RoomRegistry::new(),
            zone_registry: ZoneRegistry::new(),
            outputs: Vec::new(),
            broadcasts: Vec::new(),
            room_broadcasts: Vec::new(),
            zone_broadcasts: Vec::new(),
        };
        assert(w@.players =~= Seq::empty());
        assert(w@.rooms =~= Seq::empty());
        assert(w@.outputs =~= Seq::empty());
        assert(w@.broadcasts =~= Seq::empty());
        assert(w@.room_broadcasts =~= Seq::empty());
        assert(w@.zone_broadcasts =~= Seq::empty());
        w
    }

    /// The place of the player with this identity.
    fn find(&self, id: PlayerId) -> (r: Option<usize>)
        requires
            self.wf(),
        ensures
            match r {
                Some(i) => self@.has_player(id) && i == self@.index_of(id) && i
                    < self.players.len() && self.players[i as int]@ == self@.player(id),
                None => !self@.has_player(id),
            },
    {
        let mut i: usize = 0;
        while i < self.players.len()
            invariant
                self.wf(),
                i <= self.players.len(),
                forall|k: int| 0 <= k < i ==> (#[trigger] self@.players[k]).id != id,
            decreases self.players.len() - i,
        {
            if self.players[i].id == id {
                proof {
                    lemma_index_of(self@, i as int);
                }
                return Some(i);
            }
            i += 1;
        }
        None
    }

    /// Whether a player with this identity exists.
    pub fn contains(&self, id: PlayerId) -> (r: bool)
        requires
            self.wf(),
        ensures
            r == self@.has_player(id),
    {
        self.find(id).is_some()
    }

    /// The onboarding state of the player, if it exists.
    pub fn state_of(&self, id: PlayerId) -> (r: Option<PlayerState>)
        requires
            self.wf(),
        ensures
            r == self@.state_of(id),
    {
        match self.find(id) {
            Some(i) => Some(self.players[i].state),
            None => None,
        }
    }

    /// The room that the player is in, if it exists and is anywhere.
    pub fn location_of(&self, id: PlayerId) -> (r: Option<RoomId>)
        requires
            self.wf(),
        ensures
            r == self@.location_of(id),
            r matches Some(room) ==> self@.valid_room(room),
    {
        match self.find(id) {
            Some(i) => match self.players[i].location {
                Some(l) => Some(l.0),
                None => None,
            },
            None => None,
        }
    }

    /// The name of the player, if it exists and has one.
    pub fn name_of(&self, id: PlayerId) -> (r: Option<String>)
        requires
            self.wf(),
        ensures
            opt_view(r) == self@.name_of(id),
    {
        match self.find(id) {
            Some(i) => match &self.players[i].name {
                Some(n) => Some(n.0.clone()),
                None => None,
            },
            None => None,
        }
    }

    /// The name that the player chose while onboarding, if it is still pending.
    pub fn chosen_name_of(&self, id: PlayerId) -> (r: Option<String>)
        requires
            self.wf(),
        ensures
            opt_view(r) == (if self@.has_player(id) {
                self@.player(id).chosen_name
            } else {
                None
            }),
    {
        match self.find(id) {
            Some(i) => match &self.players[i].registration.chosen_name {
                Some(n) => Some(n.clone()),
                None => None,
            },
            None => None,
        }
    }

    /// The name under which others hear of the player.
    pub fn display_name(&self, id: PlayerId) -> (r: String)
        requires
            self.wf(),
        ensures
            r@ == self@.display_name(id),
    {
        match self.name_of(id) {
            Some(n) => n,
            None => String::from_str(ANONYMOUS),
        }
    }

    /// Whether some player holds or has chosen the name.
    pub fn name_in_use(&self, name: &str) -> (r: bool)
        requires
            self.wf(),
        ensures
            r == self@.name_in_use(name@),
    {
        let mut i: usize = 0;
        while i < self.players.len()
            invariant
                i <= self.players.len(),
                forall|k: int| 0 <= k < i ==> #[trigger] self@.claimed_at(k) != Some(name@),
            decreases self.players.len() - i,
        {
            let p = &self.players[i];
            let hit = match &p.name {
                Some(n) => str_eq(n.0.as_str(), name),
                None => match &p.registration.chosen_name {
                    Some(c) => str_eq(c.as_str(), name),
                    None => false,
                },
            };
            if hit {
                assert(self@.claimed_at(i as int) == Some(name@));
                return true;
            }
            i += 1;
        }
        false
    }

    /// The room filed in the registry under `key`.
    pub fn lookup_room(&self, key: &str) -> (r: Option<RoomId>)
        requires
            self.wf(),
        ensures
            r == (if self@.room_registry.contains_key(key@) {
                Some(self@.room_registry[key@])
            } else {
                None
            }),
            r matches Some(room) ==> self@.valid_room(room),
    {
        let r = self.room_registry.get(key);
        assert(r is Some ==> self@.room_registry.contains_key(key@));
        r
    }

    /// Whether another identity can still be handed out.
    pub fn can_register(&self) -> (r: bool)
        ensures
            r == self@.can_register(),
    {
        self.next_player < u64::MAX
    }

    /// Creates a player in the first onboarding state, at the start room if
    /// the registry knows one, and returns its fresh identity. Gives `None`,
    /// and changes nothing, only when the identities have run out.
    pub fn spawn(&mut self) -> (r: Option<PlayerId>)
        requires
            old(self).wf(),
        ensures
            final(self).wf(),
            match r {
                Some(id) => old(self)@.can_register() && id == PlayerId(
                    old(self)@.next_player as u64,
                ) && !old(self)@.has_player(id) && final(self)@ == old(self)@.spawned(),
                None => !old(self)@.can_register() && final(self)@ == old(self)@,
            },
    {
        if self.next_player == u64::MAX {
            return None;
        }
        let id = PlayerId(self.next_player);
        let location = match self.lookup_room(START_ROOM) {
            Some(room) => Some(Location(room)),
            None => None,
        };
        let player = Player {
            id,
            state: PlayerState::ChoosingName,
            name: None,
            race: None,
            location,
            registration: RegistrationData { chosen_name: None, password_hash: None },
        };
        self.players.push(player);
        self.next_player = self.next_player + 1;
        proof {
            assert(self@.players =~= old(self)@.spawned().players);
            lemma_spawned_wf(old(self)@);
        }
        Some(id)
    }

    /// Destroys the player, if it exists; says whether it did.
    pub fn despawn(&mut self, id: PlayerId) -> (r: bool)
        requires
            old(self).wf(),
        ensures
            final(self).wf(),
            r == old(self)@.has_player(id),
            !final(self)@.has_player(id),
            final(self)@ == (if r {
                old(self)@.despawned(id)
            } else {
                old(self)@
            }),
    {
        match self.find(id) {
            Some(i) => {
                self.players.remove(i);
                proof {
                    assert(self@.players =~= old(self)@.despawned(id).players);
                    lemma_despawned_wf(old(self)@, id);
                }
                true
            },
            None => false,
        }
    }

    /// Puts the player into `room`. Does nothing, and says so, if the
    /// player or the room does not exist.
    pub fn set_location(&mut self, id: PlayerId, room: RoomId) -> (done: bool)
        requires
            old(self).wf(),
        ensures
            final(self).wf(),
            done == (old(self)@.has_player(id) && old(self)@.valid_room(room)),
            final(self)@ == (if done {
                old(self)@.moved(id, room)
            } else {
                old(self)@
            }),
    {
        if room.0 >= self.rooms.len() {
            return false;
        }
        match self.find(id) {
            Some(i) => {
                self.players[i].location = Some(Location(room));
                proof {
                    assert(self@.players =~= old(self)@.moved(id, room).players);
                    lemma_with_player_wf(old(self)@, id, self.players[i as int]@);
                }
                true
            },
            None => false,
        }
    }

    /// Records the name that a player in the first onboarding state chose,
    /// and lets the player go on to choose a password. Does nothing, and
    /// says so, if the player is not in that state or the name is in use.
    pub fn choose_name(&mut self, id: PlayerId, name: String) -> (done: bool)
        requires
            old(self).wf(),
        ensures
            final(self).wf(),
            done == (old(self)@.state_of(id) == Some(PlayerState::ChoosingName)
                && !old(self)@.name_in_use(name@)),
            final(self)@ == (if done {
                old(self)@.name_chosen(id, name@)
            } else {
                old(self)@
            }),
    {
        if self.name_in_use(name.as_str()) {
            return false;
        }
        match self.find(id) {
            Some(i) => {
                if self.players[i].state != PlayerState::ChoosingName {
                    return false;
                }
                proof {
                    lemma_player_index(old(self)@, id);
                    assert(player_wf(old(self)@.players[i as int]));
                }
                self.players[i].registration.chosen_name = Some(name);
                self.players[i].state = PlayerState::ChoosingPassword;
                proof {
                    assert(self@.players =~= old(self)@.name_chosen(id, name@).players);
                    lemma_with_player_wf(old(self)@, id, self.players[i as int]@);
                }
                true
            },
            None => false,
        }
    }

    /// Stores the password hash of a player that is choosing a password,
    /// and lets the player go on to choose a race. Does nothing, and says
    /// so, if the player is not in that state.
    pub fn store_password(&mut self, id: PlayerId, hash: String) -> (done: bool)
        requires
            old(self).wf(),
        ensures
            final(self).wf(),
            done == (old(self)@.state_of(id) == Some(PlayerState::ChoosingPassword)),
            final(self)@ == (if done {
                old(self)@.password_stored(id, hash@)
            } else {
                old(self)@
            }),
    {
        match self.find(id) {
            Some(i) => {
                if self.players[i].state != PlayerState::ChoosingPassword {
                    return false;
                }
                proof {
                    lemma_player_index(old(self)@, id);
                    assert(player_wf(old(self)@.players[i as int]));
                }
                self.players[i].registration.password_hash = Some(hash);
                self.players[i].state = PlayerState::ChoosingRace;
                proof {
                    assert(self@.players =~= old(self)@.password_stored(id, hash@).players);
                    lemma_with_player_wf(old(self)@, id, self.players[i as int]@);
                }
                true
            },
            None => false,
        }
    }

    /// Makes a player that is choosing a race an active player of that race:
    /// the chosen name becomes its name and nothing stays pending. Does
    /// nothing, and says so, if the player is not in that state.
    pub fn activate(&mut self, id: PlayerId, race: Race) -> (done: bool)
        requires
            old(self).wf(),
        ensures
            final(self).wf(),
            done == (old(self)@.state_of(id) == Some(PlayerState::ChoosingRace)),
            final(self)@ == (if done {
                old(self)@.activated(id, race)
            } else {
                old(self)@
            }),
    {
        match self.find(id) {
            Some(i) => {
                if self.players[i].state != PlayerState::ChoosingRace {
                    return false;
                }
                proof {
                    lemma_player_index(old(self)@, id);
                    assert(player_wf(old(self)@.players[i as int]));
                }
                let mut pending = RegistrationData { chosen_name: None, password_hash: None };
                std::mem::swap(&mut self.players[i].registration, &mut pending);
                self.players[i].name = match pending.chosen_name {
                    Some(n) => Some(Name(n)),
                    None => None,
                };
                self.players[i].race = Some(race);
                self.players[i].state = PlayerState::Active;
                proof {
                    assert(self@.players =~= old(self)@.activated(id, race).players);
                    lemma_with_player_wf(old(self)@, id, self.players[i as int]@);
                }
                true
            },
            None => false,
        }
    }

    /// Queues a line for one player.
    pub fn write_output(&mut self, player: PlayerId, text: String)
        requires
            old(self).wf(),
        ensures
            final(self).wf(),
            final(self)@ == old(self)@.with_output(player, text@),
    {
        self.outputs.push(OutputEvent { player, text });
        proof {
            assert(self@.outputs =~= old(self)@.with_output(player, text@).outputs);
            lemma_wf_frame(old(self)@, self@);
        }
    }

    /// Queues a line for everybody but `from`.
    pub fn write_broadcast(&mut self, from: PlayerId, text: String)
        requires
            old(self).wf(),
        ensures
            final(self).wf(),
            final(self)@ == old(self)@.with_broadcast(from, text@),
    {
        self.broadcasts.push(BroadcastEvent { from, text });
        proof {
            assert(self@.broadcasts =~= old(self)@.with_broadcast(from, text@).broadcasts);
            lemma_wf_frame(old(self)@, self@);
        }
    }

    /// Queues a line for everybody in `room` but `from`.
    pub fn write_room_broadcast(&mut self, from: PlayerId, room: RoomId, text: String)
        requires
            old(self).wf(),
        ensures
            final(self).wf(),
            final(self)@ == old(self)@.with_room_broadcast(from, room, text@),
    {
        self.room_broadcasts.push(BroadcastRoomEvent { from, room, text });
        proof {
            assert(self@.room_broadcasts =~= old(self)@.with_room_broadcast(
                from,
                room,
                text@,
            ).room_broadcasts);
            lemma_wf_frame(old(self)@, self@);
        }
    }

    /// Queues a line for everybody in the zone `zone` but `from`.
    pub fn write_zone_broadcast(&mut self, from: PlayerId, zone: String, text: String)
        requires
            old(self).wf(),
        ensures
            final(self).wf(),
            final(self)@ == old(self)@.with_zone_broadcast(from, zone@, text@),
    {
        self.zone_broadcasts.push(BroadcastZoneEvent { from, zone, text });
        proof {
            assert(self@.zone_broadcasts =~= old(self)@.with_zone_broadcast(
                from,
                zone@,
                text@,
            ).zone_broadcasts);
            lemma_wf_frame(old(self)@, self@);
        }
    }

    /// The number of rooms.
    pub fn room_count(&self) -> (n: usize)
        ensures
            n == self@.rooms.len(),
    {
        self.rooms.len()
    }

    /// Adds a room without exits and without a zone, and returns its handle.
    pub fn add_room(&mut self, name: String, description: String) -> (r: RoomId)
        requires
            old(self).wf(),
        ensures
            final(self).wf(),
            r == RoomId(old(self)@.rooms.len() as usize),
            final(self)@.valid_room(r),
            final(self)@ == old(self)@.with_room(name@, description@),
    {
        let r = RoomId(self.rooms.len());
        self.rooms.push(Room { name, description, exits: StringHashMap::new(), zone: None });
        proof {
            assert(self@.rooms =~= old(self)@.with_room(name@, description@).rooms);
            lemma_with_room_wf(old(self)@, name@, description@);
        }
        r
    }

    /// Puts a room into a zone. Does nothing, and says so, if the room does
    /// not exist.
    pub fn set_room_zone(&mut self, room: RoomId, zone: String) -> (done: bool)
        requires
            old(self).wf(),
        ensures
            final(self).wf(),
            done == old(self)@.valid_room(room),
            final(self)@ == (if done {
                old(self)@.with_room_zone(room, zone@)
            } else {
                old(self)@
            }),
    {
        if room.0 >= self.rooms.len() {
            return false;
        }
        self.rooms[room.0].zone = Some(Zone(zone));
        proof {
            assert(self@.rooms =~= old(self)@.with_room_zone(room, zone@).rooms);
            lemma_with_room_zone_wf(old(self)@, room, zone@);
        }
        true
    }

    /// Opens an exit from `room` in direction `dir` to `target`, in place of
    /// an exit in that direction that was there. Does nothing, and says so,
    /// if one of the two rooms does not exist.
    pub fn add_exit(&mut self, room: RoomId, dir: String, target: RoomId) -> (done: bool)
        requires
            old(self).wf(),
        ensures
            final(self).wf(),
            done == (old(self)@.valid_room(room) && old(self)@.valid_room(target)),
            final(self)@ == (if done {
                old(self)@.with_exit(room, dir@, target)
            } else {
                old(self)@
            }),
    {
        if room.0 >= self.rooms.len() || target.0 >= self.rooms.len() {
            return false;
        }
        self.rooms[room.0].exits.insert(dir, target);
        proof {
            assert(self@.rooms =~= old(self)@.with_exit(room, dir@, target).rooms);
            lemma_with_exit_wf(old(self)@, room, dir@, target);
        }
        true
    }

    /// Files a room in the registry under `key`, in place of what was
    /// there. Does nothing, and says so, if the room does not exist.
    pub fn register_room(&mut self, key: String, room: RoomId) -> (done: bool)
        requires
            old(self).wf(),
        ensures
            final(self).wf(),
            done == old(self)@.valid_room(room),
            final(self)@ == (if done {
                old(self)@.with_registered_room(key@, room)
            } else {
                old(self)@
            }),
    {
        if room.0 >= self.rooms.len() {
            return false;
        }
        self.room_registry.insert(key, room);
        proof {
            lemma_with_registered_room_wf(old(self)@, key@, room);
        }
        true
    }

    /// Files a zone's name in the registry under the zone's id.
    pub fn register_zone(&mut self, id: String, name: String)
        requires
            old(self).wf(),
        ensures
            final(self).wf(),
            final(self)@ == old(self)@.with_registered_zone(id@, name@),
    {
        self.zone_registry.insert(id, name);
        proof {
            lemma_wf_frame(old(self)@, self@);
        }
    }

    /// The exit of `room` in direction `dir`.
    pub fn exit_of(&self, room: RoomId, dir: &str) -> (r: Option<RoomId>)
        requires
            self.wf(),
        ensures
            r == self@.exit_of(room, dir@),
            r matches Some(target) ==> self@.valid_room(target),
    {
        if room.0 >= self.rooms.len() {
            return None;
        }
        let r = match self.rooms[room.0].exits.get(dir) {
            Some(target) => Some(*target),
            None => None,
        };
        assert(r is Some ==> self@.rooms[room.0 as int].exits.contains_key(dir@));
        r
    }

    /// The name of a room, if the room exists.
    pub fn room_name(&self, room: RoomId) -> (r: Option<String>)
        ensures
            opt_view(r) == (if self@.valid_room(room) {
                Some(self@.rooms[room.0 as int].name)
            } else {
                None
            }),
    {
        if room.0 >= self.rooms.len() {
            return None;
        }
        Some(self.rooms[room.0].name.clone())
    }

    /// The description of a room, if the room exists.
    pub fn room_description(&self, room: RoomId) -> (r: Option<String>)
        ensures
            opt_view(r) == (if self@.valid_room(room) {
                Some(self@.rooms[room.0 as int].description)
            } else {
                None
            }),
    {
        if room.0 >= self.rooms.len() {
            return None;
        }
        Some(self.rooms[room.0].description.clone())
    }

    /// The id of the zone that a room belongs to.
    pub fn zone_of_room(&self, room: RoomId) -> (r: Option<String>)
        ensures
            opt_view(r) == self@.zone_of_room(room),
    {
        if room.0 >= self.rooms.len() {
            return None;
        }
        match &self.rooms[room.0].zone {
            Some(z) => Some(z.0.clone()),
            None => None,
        }
    }

    /// The name of the zone with this id.
    pub fn zone_name(&self, zone_id: &str) -> (r: Option<String>)
        ensures
            opt_view(r) == (if self@.zone_registry.contains_key(zone_id@) {
                Some(self@.zone_registry[zone_id@])
            } else {
                None
            }),
    {
        self.zone_registry.get(zone_id)
    }

    /// The id of the zone that the player is in; empty where none can be told.
    pub fn zone_id_of(&self, id: PlayerId) -> (r: String)
        requires
            self.wf(),
        ensures
            r@ == self@.zone_id_of(id),
    {
        match self.location_of(id) {
            Some(room) => match self.zone_of_room(room) {
                Some(z) => z,
                None => String::new(),
            },
            None => String::new(),
        }
    }

    /// The players, in the order in which they registered.
    pub fn players(&self) -> (r: &Vec<Player>)
        ensures
            r.deep_view() == self@.players,
    {
        &self.players
    }

    /// Takes the lines queued for single players out of the world.
    pub fn take_outputs(&mut self) -> (r: Vec<OutputEvent>)
        requires
            old(self).wf(),
        ensures
            final(self).wf(),
            r.deep_view() == old(self)@.outputs,
            final(self)@ == (WorldView { outputs: Seq::empty(), ..old(self)@ }),
    {
        let mut taken: Vec<OutputEvent> = Vec::new();
        std::mem::swap(&mut self.outputs, &mut taken);
        proof {
            assert(self@.outputs =~= Seq::empty());
            lemma_wf_frame(old(self)@, self@);
        }
        taken
    }

    /// Takes the lines queued for everybody out of the world.
    pub fn take_broadcasts(&mut self) -> (r: Vec<BroadcastEvent>)
        requires
            old(self).wf(),
        ensures
            final(self).wf(),
            r.deep_view() == old(self)@.broadcasts,
            final(self)@ == (WorldView { broadcasts: Seq::empty(), ..old(self)@ }),
    {
        let mut taken: Vec<BroadcastEvent> = Vec::new();
        std::mem::swap(&mut self.broadcasts, &mut taken);
        proof {
            assert(self@.broadcasts =~= Seq::empty());
            lemma_wf_frame(old(self)@, self@);
        }
        taken
    }

    /// Takes the lines queued for rooms out of the world.
    pub fn take_room_broadcasts(&mut self) -> (r: Vec<BroadcastRoomEvent>)
        requires
            old(self).wf(),
        ensures
            final(self).wf(),
            r.deep_view() == old(self)@.room_broadcasts,
            final(self)@ == (WorldView { room_broadcasts: Seq::empty(), ..old(self)@ }),
    {
        let mut taken: Vec<BroadcastRoomEvent> = Vec::new();
        std::mem::swap(&mut self.room_broadcasts, &mut taken);
        proof {
            assert(self@.room_broadcasts =~= Seq::empty());
            lemma_wf_frame(old(self)@, self@);
        }
        taken
    }

    /// Takes the lines queued for zones out of the world.
    pub fn take_zone_broadcasts(&mut self) -> (r: Vec<BroadcastZoneEvent>)
        requires
            old(self).wf(),
        ensures
            final(self).wf(),
            r.deep_view() == old(self)@.zone_broadcasts,
            final(self)@ == (WorldView { zone_broadcasts: Seq::empty(), ..old(self)@ }),
    {
        let mut taken: Vec<BroadcastZoneEvent> = Vec::new();
        std::mem::swap(&mut self.zone_broadcasts, &mut taken);
        proof {
            assert(self@.zone_broadcasts =~= Seq::empty());
            lemma_wf_frame(old(self)@, self@);
        }
        taken
    }
}

/// Creates a room without exits in the world and returns its handle.
pub fn create_room(world: &mut World, name: &str, description: &str) -> (ent: RoomId)
    requires
        old(world).wf(),
    ensures
        final(world).wf(),
        ent == RoomId(old(world)@.rooms.len() as usize),
        final(world)@.valid_room(ent),
        final(world)@ == old(world)@.with_room(name@, description@),
{
    world.add_room(String::from_str(name), String::from_str(description))
}

} // verus!
