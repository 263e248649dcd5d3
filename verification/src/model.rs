//! The world as contracts see it: plain mathematical values, and the
//! elementary changes that every operation is made of.

use crate::components::{PlayerId, PlayerState, PlayerView, Race, RoomId, RoomView};
use crate::events::{BroadcastRoomView, BroadcastView, BroadcastZoneView, OutputView};
use vstd::prelude::*;

verus! {

/// The registry key of the room that new players start in.
pub const START_ROOM: &'static str = "default:start";

/// The name under which a player without a name is spoken of.
pub const ANONYMOUS: &'static str = "Someone";

/// The name that a player holds or has chosen, if any.
pub open spec fn claimed(p: PlayerView) -> Option<Seq<char>> {
    if p.name is Some {
        p.name
    } else {
        p.chosen_name
    }
}

/// What each onboarding state means for the parts of a player.
pub open spec fn player_wf(p: PlayerView) -> bool {
    match p.state {
        PlayerState::ChoosingName => p.name is None && p.chosen_name is None && p.password_hash
            is None && p.race is None,
        PlayerState::ChoosingPassword => p.name is None && p.chosen_name is Some
            && p.password_hash is None && p.race is None,
        PlayerState::ChoosingRace => p.name is None && p.chosen_name is Some && p.password_hash
            is Some && p.race is None,
        PlayerState::Active => p.name is Some && p.chosen_name is None && p.password_hash
            is None && p.race is Some,
    }
}

/// Whether one of the players has this identity.
pub open spec fn has_id(players: Seq<PlayerView>, id: PlayerId) -> bool {
    exists|i: int| 0 <= i < players.len() && (#[trigger] players[i]).id == id
}

/// A place at which the identity stands among the players.
pub open spec fn position(players: Seq<PlayerView>, id: PlayerId) -> int {
    choose|i: int| 0 <= i < players.len() && (#[trigger] players[i]).id == id
}

/// The whole state of the world.
pub struct WorldView {
    /// The players, in the order in which they registered.
    pub players: Seq<PlayerView>,
    /// The number that the next player's identity will hold.
    pub next_player: nat,
    /// The rooms; a `RoomId` is an index into them.
    pub rooms: Seq<RoomView>,
    /// Rooms by their qualified id, `<zone id>:<room id>`.
    pub room_registry: Map<Seq<char>, RoomId>,
    /// Zone names by zone id.
    pub zone_registry: Map<Seq<char>, Seq<char>>,
    /// The lines queued for single players.
    pub outputs: Seq<OutputView>,
    /// The lines queued for everybody.
    pub broadcasts: Seq<BroadcastView>,
    /// The lines queued for a room.
    pub room_broadcasts: Seq<BroadcastRoomView>,
    /// The lines queued for a zone.
    pub zone_broadcasts: Seq<BroadcastZoneView>,
}

impl WorldView {
    /// The world before anything was loaded or anybody connected.
    pub open spec fn empty() -> WorldView {
        WorldView {
            players: Seq::empty(),
            next_player: 0,
            rooms: Seq::empty(),
            room_registry: Map::empty(),
            zone_registry: Map::empty(),
            outputs: Seq::empty(),
            broadcasts: Seq::empty(),
            room_broadcasts: Seq::empty(),
            zone_broadcasts: Seq::empty(),
        }
    }

    /// The identity at place `i`.
    pub open spec fn id_at(self, i: int) -> PlayerId {
        self.players[i].id
    }

    /// The name that the player at place `i` holds or has chosen.
    pub open spec fn claimed_at(self, i: int) -> Option<Seq<char>> {
        claimed(self.players[i])
    }

    /// Whether the handle is that of a room of the world.
    pub open spec fn valid_room(self, r: RoomId) -> bool {
        r.0 < self.rooms.len()
    }

    /// The exit of room `r` in direction `dir`, if there is one.
    pub open spec fn exit_of(self, r: RoomId, dir: Seq<char>) -> Option<RoomId> {
        if self.valid_room(r) && self.rooms[r.0 as int].exits.contains_key(dir) {
            Some(self.rooms[r.0 as int].exits[dir])
        } else {
            None
        }
    }

    /// The invariant of the world: identities are handed out in rising
    /// order and never twice, every reference to a room is good, every
    /// player's parts fit its state, and no name is held or chosen twice.
    pub open spec fn wf(self) -> bool {
        &&& self.next_player <= u64::MAX
        &&& forall|i: int, j: int|
            0 <= i < j < self.players.len() ==> (#[trigger] self.id_at(i)).0 < (
            #[trigger] self.id_at(j)).0
        &&& forall|i: int|
            0 <= i < self.players.len() ==> (#[trigger] self.id_at(i)).0 < self.next_player
        &&& forall|i: int|
            0 <= i < self.players.len() ==> player_wf(#[trigger] self.players[i])
        &&& forall|i: int|
            0 <= i < self.players.len() ==> ((#[trigger] self.players[i]).location matches Some(
                r,
            ) ==> self.valid_room(r))
        &&& forall|i: int, j: int|
            0 <= i < j < self.players.len() && (#[trigger] self.claimed_at(i)) is Some ==> (
            #[trigger] self.claimed_at(j)) != self.claimed_at(i)
        &&& forall|r: int, d: Seq<char>|
            0 <= r < self.rooms.len() && (#[trigger] self.rooms[r].exits.contains_key(d))
                ==> self.valid_room(self.rooms[r].exits[d])
        &&& forall|k: Seq<char>| #[trigger]
            self.room_registry.contains_key(k) ==> self.valid_room(self.room_registry[k])
    }

    /// Whether a player with this identity exists.
    pub open spec fn has_player(self, id: PlayerId) -> bool {
        has_id(self.players, id)
    }

    /// The place of the player with this identity.
    pub open spec fn index_of(self, id: PlayerId) -> int {
        position(self.players, id)
    }

    /// The player with this identity.
    pub open spec fn player(self, id: PlayerId) -> PlayerView {
        self.players[self.index_of(id)]
    }

    /// The onboarding state of the player, if it exists.
    pub open spec fn state_of(self, id: PlayerId) -> Option<PlayerState> {
        if self.has_player(id) {
            Some(self.player(id).state)
        } else {
            None
        }
    }

    /// The name of the player, if it exists and has one.
    pub open spec fn name_of(self, id: PlayerId) -> Option<Seq<char>> {
        if self.has_player(id) {
            self.player(id).name
        } else {
            None
        }
    }

    /// The room that the player is in, if it exists and is anywhere.
    pub open spec fn location_of(self, id: PlayerId) -> Option<RoomId> {
        if self.has_player(id) {
            self.player(id).location
        } else {
            None
        }
    }

    /// The name under which others hear of the player.
    pub open spec fn display_name(self, id: PlayerId) -> Seq<char> {
        match self.name_of(id) {
            Some(n) => n,
            None => ANONYMOUS@,
        }
    }

    /// The zone id of room `r`, if the room belongs to a zone.
    pub open spec fn zone_of_room(self, r: RoomId) -> Option<Seq<char>> {
        if self.valid_room(r) {
            self.rooms[r.0 as int].zone
        } else {
            None
        }
    }

    /// The id of the zone that the player is in; empty where none can be told.
    pub open spec fn zone_id_of(self, id: PlayerId) -> Seq<char> {
        match self.location_of(id) {
            Some(r) => match self.zone_of_room(r) {
                Some(z) => z,
                None => Seq::empty(),
            },
            None => Seq::empty(),
        }
    }

    /// Whether some player holds or has chosen the name.
    pub open spec fn name_in_use(self, name: Seq<char>) -> bool {
        exists|i: int| 0 <= i < self.players.len() && #[trigger] self.claimed_at(i) == Some(name)
    }

    /// The room that a new player starts in, if the registry knows one.
    pub open spec fn start_room(self) -> Option<RoomId> {
        if self.room_registry.contains_key(START_ROOM@) {
            Some(self.room_registry[START_ROOM@])
        } else {
            None
        }
    }

    /// Whether another identity can still be handed out.
    pub open spec fn can_register(self) -> bool {
        self.next_player < u64::MAX
    }

    /// The world with the player of this identity replaced.
    pub open spec fn with_player(self, id: PlayerId, p: PlayerView) -> WorldView {
        WorldView { players: self.players.update(self.index_of(id), p), ..self }
    }

    /// The world with a new player in the first onboarding state, at the
    /// start room if there is one.
    pub open spec fn spawned(self) -> WorldView {
        WorldView {
            players: self.players.push(
                PlayerView {
                    id: PlayerId(self.next_player as u64),
                    state: PlayerState::ChoosingName,
                    name: None,
                    race: None,
                    location: self.start_room(),
                    chosen_name: None,
                    password_hash: None,
                },
            ),
            next_player: self.next_player + 1,
            ..self
        }
    }

    /// The world without the player of this identity.
    pub open spec fn despawned(self, id: PlayerId) -> WorldView {
        WorldView { players: self.players.remove(self.index_of(id)), ..self }
    }

    /// The world with the player moved to `room`.
    pub open spec fn moved(self, id: PlayerId, room: RoomId) -> WorldView {
        self.with_player(id, PlayerView { location: Some(room), ..self.player(id) })
    }

    /// The world after the player chose `name`.
    pub open spec fn name_chosen(self, id: PlayerId, name: Seq<char>) -> WorldView {
        self.with_player(
            id,
            PlayerView {
                state: PlayerState::ChoosingPassword,
                chosen_name: Some(name),
                ..self.player(id)
            },
        )
    }

    /// The world after the player's password hash was stored.
    pub open spec fn password_stored(self, id: PlayerId, hash: Seq<char>) -> WorldView {
        self.with_player(
            id,
            PlayerView {
                state: PlayerState::ChoosingRace,
                password_hash: Some(hash),
                ..self.player(id)
            },
        )
    }

    /// The world after the player chose `race` and so became active: the
    /// chosen name is now its name, and nothing is pending.
    pub open spec fn activated(self, id: PlayerId, race: Race) -> WorldView {
        self.with_player(
            id,
            PlayerView {
                state: PlayerState::Active,
                name: self.player(id).chosen_name,
                race: Some(race),
                chosen_name: None,
                password_hash: None,
                ..self.player(id)
            },
        )
    }

    /// The world with one more line queued for one player.
    pub open spec fn with_output(self, player: PlayerId, text: Seq<char>) -> WorldView {
        WorldView { outputs: self.outputs.push(OutputView { player, text }), ..self }
    }

    /// The world with one more line queued for everybody but `from`.
    pub open spec fn with_broadcast(self, from: PlayerId, text: Seq<char>) -> WorldView {
        WorldView { broadcasts: self.broadcasts.push(BroadcastView { from, text }), ..self }
    }

    /// The world with one more line queued for a room.
    pub open spec fn with_room_broadcast(
        self,
        from: PlayerId,
        room: RoomId,
        text: Seq<char>,
    ) -> WorldView {
        WorldView {
            room_broadcasts: self.room_broadcasts.push(BroadcastRoomView { from, room, text }),
            ..self
        }
    }

    /// The world with one more line queued for a zone.
    pub open spec fn with_zone_broadcast(
        self,
        from: PlayerId,
        zone: Seq<char>,
        text: Seq<char>,
    ) -> WorldView {
        WorldView {
            zone_broadcasts: self.zone_broadcasts.push(BroadcastZoneView { from, zone, text }),
            ..self
        }
    }

    /// The world with all queued lines taken out.
    pub open spec fn flushed(self) -> WorldView {
        WorldView {
            outputs: Seq::empty(),
            broadcasts: Seq::empty(),
            room_broadcasts: Seq::empty(),
            zone_broadcasts: Seq::empty(),
            ..self
        }
    }

    /// The world with one more room, without exits and without a zone.
    pub open spec fn with_room(self, name: Seq<char>, description: Seq<char>) -> WorldView {
        WorldView {
            rooms: self.rooms.push(
                RoomView { name, description, exits: Map::empty(), zone: None },
            ),
            ..self
        }
    }

    /// The world with room `r` put into a zone.
    pub open spec fn with_room_zone(self, r: RoomId, zone: Seq<char>) -> WorldView {
        WorldView {
            rooms: self.rooms.update(
                r.0 as int,
                RoomView { zone: Some(zone), ..self.rooms[r.0 as int] },
            ),
            ..self
        }
    }

    /// The world with an exit from room `r` in direction `dir` to `target`.
    pub open spec fn with_exit(self, r: RoomId, dir: Seq<char>, target: RoomId) -> WorldView {
        WorldView {
            rooms: self.rooms.update(
                r.0 as int,
                RoomView {
                    exits: self.rooms[r.0 as int].exits.insert(dir, target),
                    ..self.rooms[r.0 as int]
                },
            ),
            ..self
        }
    }

    /// The world with a room filed in the registry under `key`.
    pub open spec fn with_registered_room(self, key: Seq<char>, r: RoomId) -> WorldView {
        WorldView { room_registry: self.room_registry.insert(key, r), ..self }
    }

    /// The world with a zone's name filed under the zone's id.
    pub open spec fn with_registered_zone(self, id: Seq<char>, name: Seq<char>) -> WorldView {
        WorldView { zone_registry: self.zone_registry.insert(id, name), ..self }
    }
}

/// In a well-formed world an identity stands at one place only.
pub proof fn lemma_index_of(w: WorldView, i: int)
    requires
        w.wf(),
        0 <= i < w.players.len(),
    ensures
        w.has_player(w.players[i].id),
        w.index_of(w.players[i].id) == i,
        w.player(w.players[i].id) == w.players[i],
{
    let id = w.players[i].id;
    assert(w.id_at(i) == id);
    let j = w.index_of(id);
    assert(w.id_at(j) == id);
    if i < j {
        assert(w.id_at(i).0 < w.id_at(j).0);
    }
    if j < i {
        assert(w.id_at(j).0 < w.id_at(i).0);
    }
}

/// The place of an existing player is a place in the sequence of players.
pub proof fn lemma_player_index(w: WorldView, id: PlayerId)
    requires
        w.has_player(id),
    ensures
        0 <= w.index_of(id) < w.players.len(),
        w.players[w.index_of(id)].id == id,
{
    let j = w.index_of(id);
    assert(w.id_at(j) == id);
}

/// Replacing a player keeps the world well-formed if the new value keeps
/// the identity, fits its state, stands in a room that exists, and claims
/// no name but its old one or one that nobody holds.
pub proof fn lemma_with_player_wf(w: WorldView, id: PlayerId, p: PlayerView)
    requires
        w.wf(),
        w.has_player(id),
        p.id == id,
        player_wf(p),
        p.location matches Some(r) ==> w.valid_room(r),
        claimed(p) is None || claimed(p) == claimed(w.player(id)) || !w.name_in_use(
            claimed(p)->0,
        ),
    ensures
        w.with_player(id, p).wf(),
        w.with_player(id, p).has_player(id),
        w.with_player(id, p).player(id) == p,
        forall|q: PlayerId| w.with_player(id, p).has_player(q) == w.has_player(q),
        forall|q: PlayerId|
            q != id && w.has_player(q) ==> #[trigger] w.with_player(id, p).player(q) == w.player(q),
{
    let i = w.index_of(id);
    lemma_player_index(w, id);
    let w2 = w.with_player(id, p);
    assert forall|k: int| 0 <= k < w.players.len() implies #[trigger] w2.id_at(k) == w.id_at(
        k,
    ) by {}
    assert forall|a: int, b: int| 0 <= a < b < w2.players.len() implies (#[trigger] w2.id_at(
        a,
    )).0 < (#[trigger] w2.id_at(b)).0 by {
        assert(w.id_at(a).0 < w.id_at(b).0);
    }
    assert forall|k: int| 0 <= k < w2.players.len() implies (#[trigger] w2.id_at(k)).0
        < w2.next_player by {
        assert(w.id_at(k).0 < w.next_player);
    }
    assert forall|k: int| 0 <= k < w2.players.len() implies player_wf(
        #[trigger] w2.players[k],
    ) by {
        if k != i {
            assert(player_wf(w.players[k]));
        }
    }
    assert forall|k: int| 0 <= k < w2.players.len() implies ((
    #[trigger] w2.players[k]).location matches Some(r) ==> w2.valid_room(r)) by {
        if k != i {
            assert(w.players[k].location matches Some(r) ==> w.valid_room(r));
        }
    }
    assert forall|a: int, b: int|
        0 <= a < b < w2.players.len() && (#[trigger] w2.claimed_at(a)) is Some implies (
    #[trigger] w2.claimed_at(b)) != w2.claimed_at(a) by {
        if a != i && b != i {
            assert(w.claimed_at(a) is Some);
            assert(w.claimed_at(b) != w.claimed_at(a));
        } else if a == i {
            assert(w2.claimed_at(b) == w.claimed_at(b));
            if claimed(p) == claimed(w.player(id)) {
                assert(w.claimed_at(a) is Some);
                assert(w.claimed_at(b) != w.claimed_at(a));
            } else {
                assert(w.claimed_at(b) != Some(claimed(p)->0));
            }
        } else {
            assert(w2.claimed_at(a) == w.claimed_at(a));
            if claimed(p) is Some {
                if claimed(p) == claimed(w.player(id)) {
                    assert(w.claimed_at(b) != w.claimed_at(a));
                } else {
                    assert(w.claimed_at(a) != Some(claimed(p)->0));
                }
            }
        }
    }
    assert forall|r: int, d: Seq<char>|
        0 <= r < w2.rooms.len() && (#[trigger] w2.rooms[r].exits.contains_key(
            d,
        )) implies w2.valid_room(w2.rooms[r].exits[d]) by {
        assert(w.rooms[r].exits.contains_key(d));
    }
    assert(w2.wf());
    assert(w2.id_at(i) == id);
    lemma_index_of(w2, i);
    assert forall|q: PlayerId| w2.has_player(q) == w.has_player(q) by {
        if w.has_player(q) {
            let k = w.index_of(q);
            lemma_player_index(w, q);
            assert(w2.id_at(k) == q);
        }
        if w2.has_player(q) {
            let k = w2.index_of(q);
            lemma_player_index(w2, q);
            assert(w.id_at(k) == q);
        }
    }
    assert forall|q: PlayerId| q != id && w.has_player(q) implies #[trigger] w2.player(q)
        == w.player(q) by {
        let k = w.index_of(q);
        lemma_player_index(w, q);
        lemma_index_of(w2, k);
    }
}

/// A new player keeps the world well-formed.
pub proof fn lemma_spawned_wf(w: WorldView)
    requires
        w.wf(),
        w.can_register(),
    ensures
        w.spawned().wf(),
        w.spawned().has_player(PlayerId(w.next_player as u64)),
        !w.has_player(PlayerId(w.next_player as u64)),
        forall|q: PlayerId| w.has_player(q) ==> #[trigger] w.spawned().has_player(q),
        forall|q: PlayerId| w.has_player(q) ==> #[trigger] w.spawned().player(q) == w.player(q),
{
    let w2 = w.spawned();
    let n = w.players.len() as int;
    let id = PlayerId(w.next_player as u64);
    assert(w2.id_at(n) == id);
    assert forall|k: int| 0 <= k < n implies #[trigger] w2.id_at(k) == w.id_at(k) by {}
    assert forall|a: int, b: int| 0 <= a < b < w2.players.len() implies (#[trigger] w2.id_at(
        a,
    )).0 < (#[trigger] w2.id_at(b)).0 by {
        if b < n {
            assert(w.id_at(a).0 < w.id_at(b).0);
        } else {
            assert(w.id_at(a).0 < w.next_player);
        }
    }
    assert forall|k: int| 0 <= k < w2.players.len() implies (#[trigger] w2.id_at(k)).0
        < w2.next_player by {
        if k < n {
            assert(w.id_at(k).0 < w.next_player);
        }
    }
    assert forall|k: int| 0 <= k < w2.players.len() implies player_wf(
        #[trigger] w2.players[k],
    ) by {
        if k < n {
            assert(player_wf(w.players[k]));
        }
    }
    assert forall|k: int| 0 <= k < w2.players.len() implies ((
    #[trigger] w2.players[k]).location matches Some(r) ==> w2.valid_room(r)) by {
        if k < n {
            assert(w.players[k].location matches Some(r) ==> w.valid_room(r));
        }
    }
    assert forall|a: int, b: int|
        0 <= a < b < w2.players.len() && (#[trigger] w2.claimed_at(a)) is Some implies (
    #[trigger] w2.claimed_at(b)) != w2.claimed_at(a) by {
        if b < n {
            assert(w.claimed_at(a) is Some);
            assert(w.claimed_at(b) != w.claimed_at(a));
        }
    }
    assert forall|r: int, d: Seq<char>|
        0 <= r < w2.rooms.len() && (#[trigger] w2.rooms[r].exits.contains_key(
            d,
        )) implies w2.valid_room(w2.rooms[r].exits[d]) by {
        assert(w.rooms[r].exits.contains_key(d));
    }
    assert(w2.wf());
    if w.has_player(id) {
        let k = w.index_of(id);
        lemma_player_index(w, id);
        assert(w.id_at(k).0 < w.next_player);
    }
    assert forall|q: PlayerId| w.has_player(q) implies #[trigger] w2.has_player(q) by {
        let k = w.index_of(q);
        lemma_player_index(w, q);
        assert(w2.id_at(k) == q);
    }
    assert forall|q: PlayerId| w.has_player(q) implies #[trigger] w2.player(q) == w.player(
        q,
    ) by {
        let k = w.index_of(q);
        lemma_player_index(w, q);
        assert(w2.id_at(k) == q);
        lemma_index_of(w2, k);
    }
}

/// Taking a player out keeps the world well-formed, and the player is gone.
pub proof fn lemma_despawned_wf(w: WorldView, id: PlayerId)
    requires
        w.wf(),
        w.has_player(id),
    ensures
        w.despawned(id).wf(),
        !w.despawned(id).has_player(id),
        forall|q: PlayerId| q != id ==> w.despawned(id).has_player(q) == w.has_player(q),
        forall|q: PlayerId|
            q != id && w.has_player(q) ==> #[trigger] w.despawned(id).player(q) == w.player(q),
{
    let i = w.index_of(id);
    lemma_player_index(w, id);
    let w2 = w.despawned(id);
    let shift = |k: int| if k < i { k } else { k + 1 };
    assert forall|k: int| 0 <= k < w2.players.len() implies #[trigger] w2.players[k]
        == w.players[shift(k)] by {}
    assert forall|a: int, b: int| 0 <= a < b < w2.players.len() implies (#[trigger] w2.id_at(
        a,
    )).0 < (#[trigger] w2.id_at(b)).0 by {
        assert(w.id_at(shift(a)).0 < w.id_at(shift(b)).0);
    }
    assert forall|k: int| 0 <= k < w2.players.len() implies (#[trigger] w2.id_at(k)).0
        < w2.next_player by {
        assert(w.id_at(shift(k)).0 < w.next_player);
    }
    assert forall|k: int| 0 <= k < w2.players.len() implies player_wf(
        #[trigger] w2.players[k],
    ) by {
        assert(player_wf(w.players[shift(k)]));
    }
    assert forall|k: int| 0 <= k < w2.players.len() implies ((
    #[trigger] w2.players[k]).location matches Some(r) ==> w2.valid_room(r)) by {
        assert(w.players[shift(k)].location matches Some(r) ==> w.valid_room(r));
    }
    assert forall|a: int, b: int|
        0 <= a < b < w2.players.len() && (#[trigger] w2.claimed_at(a)) is Some implies (
    #[trigger] w2.claimed_at(b)) != w2.claimed_at(a) by {
        assert(w.claimed_at(shift(a)) is Some);
        assert(w.claimed_at(shift(b)) != w.claimed_at(shift(a)));
    }
    assert forall|r: int, d: Seq<char>|
        0 <= r < w2.rooms.len() && (#[trigger] w2.rooms[r].exits.contains_key(
            d,
        )) implies w2.valid_room(w2.rooms[r].exits[d]) by {
        assert(w.rooms[r].exits.contains_key(d));
    }
    assert(w2.wf());
    if w2.has_player(id) {
        let k = w2.index_of(id);
        lemma_player_index(w2, id);
        assert(w.id_at(shift(k)) == id);
        lemma_index_of(w, shift(k));
    }
    assert forall|q: PlayerId| q != id implies w2.has_player(q) == w.has_player(q) by {
        if w.has_player(q) {
            let k = w.index_of(q);
            lemma_player_index(w, q);
            let k2 = if k < i { k } else { k - 1 };
            assert(w2.id_at(k2) == q);
        }
        if w2.has_player(q) {
            let k = w2.index_of(q);
            lemma_player_index(w2, q);
            assert(w.id_at(shift(k)) == q);
        }
    }
    assert forall|q: PlayerId| q != id && w.has_player(q) implies #[trigger] w2.player(q)
        == w.player(q) by {
        let k = w.index_of(q);
        lemma_player_index(w, q);
        let k2 = if k < i { k } else { k - 1 };
        assert(w2.id_at(k2) == q);
        lemma_index_of(w2, k2);
    }
}

/// Well-formedness depends on nothing but players, rooms, the room registry
/// and the counter of identities.
pub proof fn lemma_wf_frame(w: WorldView, w2: WorldView)
    requires
        w.wf(),
        w2.players == w.players,
        w2.next_player == w.next_player,
        w2.rooms == w.rooms,
        w2.room_registry == w.room_registry,
    ensures
        w2.wf(),
        forall|q: PlayerId| w2.has_player(q) == w.has_player(q),
        forall|q: PlayerId| w.has_player(q) ==> #[trigger] w2.index_of(q) == w.index_of(q),
{
    assert forall|k: int| 0 <= k < w.players.len() implies #[trigger] w2.id_at(k) == w.id_at(
        k,
    ) by {}
    assert forall|a: int, b: int| 0 <= a < b < w2.players.len() implies (#[trigger] w2.id_at(
        a,
    )).0 < (#[trigger] w2.id_at(b)).0 by {
        assert(w.id_at(a).0 < w.id_at(b).0);
    }
    assert forall|k: int| 0 <= k < w2.players.len() implies (#[trigger] w2.id_at(k)).0
        < w2.next_player by {
        assert(w.id_at(k).0 < w.next_player);
    }
    assert forall|a: int, b: int|
        0 <= a < b < w2.players.len() && (#[trigger] w2.claimed_at(a)) is Some implies (
    #[trigger] w2.claimed_at(b)) != w2.claimed_at(a) by {
        assert(w.claimed_at(a) is Some);
        assert(w.claimed_at(b) != w.claimed_at(a));
    }
    assert forall|q: PlayerId| w2.has_player(q) == w.has_player(q) by {
        if w.has_player(q) {
            lemma_player_index(w, q);
            assert(w2.id_at(w.index_of(q)) == q);
        }
        if w2.has_player(q) {
            lemma_player_index(w2, q);
            assert(w.id_at(w2.index_of(q)) == q);
        }
    }
    assert forall|q: PlayerId| w.has_player(q) implies #[trigger] w2.index_of(q)
        == w.index_of(q) by {
        lemma_player_index(w, q);
        lemma_player_index(w2, q);
        lemma_index_of(w, w2.index_of(q));
    }
}

/// A change to rooms and registry keeps the world well-formed if no room
/// goes away and the new exits and registry entries lead to rooms.
pub proof fn lemma_rooms_grow(w: WorldView, w2: WorldView)
    requires
        w.wf(),
        w2.players == w.players,
        w2.next_player == w.next_player,
        w2.rooms.len() >= w.rooms.len(),
        forall|r: int, d: Seq<char>|
            0 <= r < w2.rooms.len() && (#[trigger] w2.rooms[r].exits.contains_key(d))
                ==> w2.valid_room(w2.rooms[r].exits[d]),
        forall|k: Seq<char>| #[trigger]
            w2.room_registry.contains_key(k) ==> (w2.valid_room(w2.room_registry[k]) || (
            w.room_registry.contains_key(k) && w.room_registry[k] == w2.room_registry[k])),
    ensures
        w2.wf(),
{
    assert forall|k: int| 0 <= k < w.players.len() implies #[trigger] w2.id_at(k) == w.id_at(
        k,
    ) by {}
    assert forall|a: int, b: int| 0 <= a < b < w2.players.len() implies (#[trigger] w2.id_at(
        a,
    )).0 < (#[trigger] w2.id_at(b)).0 by {
        assert(w.id_at(a).0 < w.id_at(b).0);
    }
    assert forall|k: int| 0 <= k < w2.players.len() implies (#[trigger] w2.id_at(k)).0
        < w2.next_player by {
        assert(w.id_at(k).0 < w.next_player);
    }
    assert forall|a: int, b: int|
        0 <= a < b < w2.players.len() && (#[trigger] w2.claimed_at(a)) is Some implies (
    #[trigger] w2.claimed_at(b)) != w2.claimed_at(a) by {
        assert(w.claimed_at(a) is Some);
        assert(w.claimed_at(b) != w.claimed_at(a));
    }
    assert forall|k: int| 0 <= k < w2.players.len() implies ((
    #[trigger] w2.players[k]).location matches Some(r) ==> w2.valid_room(r)) by {
        assert(w.players[k].location matches Some(r) ==> w.valid_room(r));
    }
    assert forall|k: Seq<char>| #[trigger]
        w2.room_registry.contains_key(k) implies w2.valid_room(w2.room_registry[k]) by {
        if !w2.valid_room(w2.room_registry[k]) {
            assert(w.room_registry.contains_key(k));
        }
    }
}

/// A new room keeps the world well-formed.
pub proof fn lemma_with_room_wf(w: WorldView, name: Seq<char>, description: Seq<char>)
    requires
        w.wf(),
    ensures
        w.with_room(name, description).wf(),
{
    let w2 = w.with_room(name, description);
    assert forall|r: int, d: Seq<char>|
        0 <= r < w2.rooms.len() && (#[trigger] w2.rooms[r].exits.contains_key(
            d,
        )) implies w2.valid_room(w2.rooms[r].exits[d]) by {
        if r < w.rooms.len() {
            assert(w.rooms[r].exits.contains_key(d));
        }
    }
    lemma_rooms_grow(w, w2);
}

/// Putting a room into a zone keeps the world well-formed.
pub proof fn lemma_with_room_zone_wf(w: WorldView, r: RoomId, zone: Seq<char>)
    requires
        w.wf(),
        w.valid_room(r),
    ensures
        w.with_room_zone(r, zone).wf(),
{
    let w2 = w.with_room_zone(r, zone);
    assert forall|k: int, d: Seq<char>|
        0 <= k < w2.rooms.len() && (#[trigger] w2.rooms[k].exits.contains_key(
            d,
        )) implies w2.valid_room(w2.rooms[k].exits[d]) by {
        assert(w.rooms[k].exits.contains_key(d));
    }
    lemma_rooms_grow(w, w2);
}

/// An exit between two rooms keeps the world well-formed.
pub proof fn lemma_with_exit_wf(w: WorldView, r: RoomId, dir: Seq<char>, target: RoomId)
    requires
        w.wf(),
        w.valid_room(r),
        w.valid_room(target),
    ensures
        w.with_exit(r, dir, target).wf(),
{
    let w2 = w.with_exit(r, dir, target);
    assert forall|k: int, d: Seq<char>|
        0 <= k < w2.rooms.len() && (#[trigger] w2.rooms[k].exits.contains_key(
            d,
        )) implies w2.valid_room(w2.rooms[k].exits[d]) by {
        if k != r.0 || d != dir {
            assert(w.rooms[k].exits.contains_key(d));
        }
    }
    lemma_rooms_grow(w, w2);
}

/// Filing a room in the registry keeps the world well-formed.
pub proof fn lemma_with_registered_room_wf(w: WorldView, key: Seq<char>, r: RoomId)
    requires
        w.wf(),
        w.valid_room(r),
    ensures
        w.with_registered_room(key, r).wf(),
{
    let w2 = w.with_registered_room(key, r);
    assert forall|k: Seq<char>| #[trigger]
        w2.room_registry.contains_key(k) implies w2.valid_room(w2.room_registry[k]) by {
        if k != key {
            assert(w.room_registry.contains_key(k));
        }
    }
    assert forall|k: int, d: Seq<char>|
        0 <= k < w2.rooms.len() && (#[trigger] w2.rooms[k].exits.contains_key(
            d,
        )) implies w2.valid_room(w2.rooms[k].exits[d]) by {
        assert(w.rooms[k].exits.contains_key(d));
    }
    lemma_rooms_grow(w, w2);
}

} // verus!
