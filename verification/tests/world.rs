use drakors::commands::movement::{cmd_look, cmd_move, cmd_north, cmd_south, cmd_where, StdExits};
use drakors::commands::social::{cmd_say, cmd_shout};
use drakors::commands::{cmd_help, dispatch, run_command, CommandMap};
use drakors::components::{PlayerId, PlayerState, RoomId};
use drakors::events::{CommandEvent, Delivery};
use drakors::server::{flush, handle_command, handle_registration};
use drakors::systems::{flush_broadcasts, flush_output};
use drakors::world::{create_room, RoomRegistry, World, ZoneRegistry};

fn line(player: PlayerId, text: &str) -> Delivery {
    Delivery { player, line: format!("{}\r\n> ", text) }
}

fn say(world: &mut World, map: &CommandMap, player: PlayerId, input: &str) {
    handle_command(world, map, &CommandEvent { player, input: input.to_string() })
        .expect("the system gives random bytes");
}

/// Two rooms in zone `default`, the first being the start room, with an
/// exit north from the first to the second and south back.
fn two_rooms() -> (World, RoomId, RoomId) {
    let mut world = World::new();
    let hall = create_room(&mut world, "Hall", "A wide hall.");
    let attic = create_room(&mut world, "Attic", "A dusty attic.");
    world.add_exit(hall, "north".to_string(), attic);
    world.add_exit(attic, "south".to_string(), hall);
    world.set_room_zone(hall, "default".to_string());
    world.set_room_zone(attic, "default".to_string());
    world.register_room("default:start".to_string(), hall);
    world.register_room("default:attic".to_string(), attic);
    world.register_zone("default".to_string(), "The House".to_string());
    (world, hall, attic)
}

/// Registers a player and takes it through onboarding under `name`.
fn join(world: &mut World, map: &CommandMap, name: &str) -> PlayerId {
    let id = handle_registration(world).expect("identities are left");
    say(world, map, id, name);
    say(world, map, id, "Abcdefg1");
    say(world, map, id, "h");
    assert_eq!(world.state_of(id), Some(PlayerState::Active));
    flush(world);
    id
}

#[test]
fn a_new_world_is_empty() {
    let world = World::new();
    assert_eq!(world.room_count(), 0);
    assert!(world.players().is_empty());
    assert!(world.can_register());
    assert_eq!(world.lookup_room("default:start"), None);
    assert_eq!(world.zone_name("default"), None);
}

#[test]
fn registries_file_and_find() {
    let mut rooms = RoomRegistry::default();
    assert_eq!(rooms.get("a:b"), None);
    rooms.insert("a:b".to_string(), RoomId(3));
    rooms.insert("a:c".to_string(), RoomId(4));
    assert_eq!(rooms.get("a:b"), Some(RoomId(3)));
    rooms.insert("a:b".to_string(), RoomId(5));
    assert_eq!(rooms.get("a:b"), Some(RoomId(5)));
    assert_eq!(rooms.get("a:c"), Some(RoomId(4)));
    assert_eq!(rooms.get("a"), None);

    let mut zones = ZoneRegistry::default();
    assert_eq!(zones.get("a"), None);
    zones.insert("a".to_string(), "Alpha".to_string());
    assert_eq!(zones.get("a"), Some("Alpha".to_string()));
    zones.insert("a".to_string(), "Aleph".to_string());
    assert_eq!(zones.get("a"), Some("Aleph".to_string()));
}

#[test]
fn create_room_hands_out_handles_in_a_row() {
    let mut world = World::new();
    let a = create_room(&mut world, "A", "first");
    let b = create_room(&mut world, "B", "second");
    assert_eq!(a, RoomId(0));
    assert_eq!(b, RoomId(1));
    assert_eq!(world.room_count(), 2);
    assert_eq!(world.room_name(a), Some("A".to_string()));
    assert_eq!(world.room_description(b), Some("second".to_string()));
    assert_eq!(world.room_name(RoomId(7)), None);
    assert_eq!(world.room_description(RoomId(7)), None);
    assert_eq!(world.exit_of(a, "north"), None);
    assert_eq!(world.zone_of_room(a), None);
    assert_eq!(world.exit_of(RoomId(7), "north"), None);
    assert_eq!(world.zone_of_room(RoomId(7)), None);
}

#[test]
fn exits_and_zones_can_be_set() {
    let (world, hall, attic) = two_rooms();
    assert_eq!(world.exit_of(hall, "north"), Some(attic));
    assert_eq!(world.exit_of(attic, "south"), Some(hall));
    assert_eq!(world.exit_of(hall, "south"), None);
    assert_eq!(world.exit_of(hall, "North"), None);
    assert_eq!(world.zone_of_room(hall), Some("default".to_string()));
    assert_eq!(world.zone_name("default"), Some("The House".to_string()));
    assert_eq!(world.lookup_room("default:start"), Some(hall));
    assert_eq!(world.lookup_room("default:attic"), Some(attic));
}

#[test]
fn an_exit_replaces_an_exit_in_the_same_direction() {
    let (mut world, hall, attic) = two_rooms();
    world.add_exit(hall, "north".to_string(), hall);
    assert_eq!(world.exit_of(hall, "north"), Some(hall));
    assert_eq!(world.exit_of(attic, "south"), Some(hall));
}

#[test]
fn issuing_north_moves_the_player_and_tells_both_rooms() {
    let (mut world, hall, attic) = two_rooms();
    let map = CommandMap::new();
    let mover = join(&mut world, &map, "Ripley");
    let stays = join(&mut world, &map, "Dallas");
    let waits = join(&mut world, &map, "Kane");
    world.set_location(waits, attic);

    say(&mut world, &map, mover, "north");
    assert_eq!(world.location_of(mover), Some(attic));
    assert_eq!(world.location_of(stays), Some(hall));
    assert_eq!(
        flush(&mut world),
        vec![
            line(stays, "Ripley leaves north."),
            line(waits, "Ripley arrives from the south."),
            line(mover, "You go north."),
        ]
    );
}

#[test]
fn an_absent_exit_leaves_the_player_where_it_is() {
    let (mut world, hall, _attic) = two_rooms();
    let map = CommandMap::new();
    let mover = join(&mut world, &map, "Ripley");
    let other = join(&mut world, &map, "Dallas");
    say(&mut world, &map, mover, "south");
    assert_eq!(world.location_of(mover), Some(hall));
    assert_eq!(world.location_of(other), Some(hall));
    assert_eq!(flush(&mut world), vec![line(mover, "You can't go south from here.")]);
    say(&mut world, &map, mover, "w");
    assert_eq!(flush(&mut world), vec![line(mover, "You can't go west from here.")]);
}

#[test]
fn each_direction_names_its_opposite_on_arrival() {
    let mut world = World::new();
    let map = CommandMap::new();
    let a = create_room(&mut world, "A", "a");
    let b = create_room(&mut world, "B", "b");
    for dir in ["north", "south", "east", "west"] {
        world.add_exit(a, dir.to_string(), b);
        world.add_exit(b, dir.to_string(), a);
    }
    world.register_room("default:start".to_string(), a);
    let mover = join(&mut world, &map, "Ash");
    let watcher = join(&mut world, &map, "Parker");
    world.set_location(watcher, b);
    for (dir, noun) in [("north", "the south"), ("south", "the north"), ("east", "the west"), ("west", "the east")] {
        world.set_location(mover, a);
        say(&mut world, &map, mover, dir);
        assert_eq!(world.location_of(mover), Some(b));
        assert_eq!(
            flush(&mut world),
            vec![
                line(watcher, &format!("Ash arrives from {}.", noun)),
                line(mover, &format!("You go {}.", dir)),
            ]
        );
    }
}

#[test]
fn aliases_move_like_their_commands() {
    let (mut world, hall, attic) = two_rooms();
    let map = CommandMap::new();
    let mover = join(&mut world, &map, "Lambert");
    say(&mut world, &map, mover, "n");
    assert_eq!(world.location_of(mover), Some(attic));
    say(&mut world, &map, mover, "S");
    assert_eq!(world.location_of(mover), Some(hall));
    say(&mut world, &map, mover, "  NORTH  please ");
    assert_eq!(world.location_of(mover), Some(attic));
}

#[test]
fn a_player_that_is_nowhere_cannot_move_or_look() {
    let mut world = World::new();
    let map = CommandMap::new();
    let id = join(&mut world, &map, "Brett");
    assert_eq!(world.location_of(id), None);
    cmd_north(id, &mut world, "north", &[]);
    cmd_look(id, &mut world, "look", &[]);
    cmd_where(id, &mut world, "where", &[]);
    assert_eq!(
        flush(&mut world),
        vec![
            line(id, "You are nowhere. (no location set)"),
            line(id, "You are nowhere. (no location set)"),
            line(id, "You are nowhere. (zone unknown)"),
        ]
    );
}

#[test]
fn move_uses_the_name_for_the_nameless() {
    let (mut world, _hall, attic) = two_rooms();
    let map = CommandMap::new();
    let watcher = join(&mut world, &map, "Jones");
    let newcomer = handle_registration(&mut world).unwrap();
    cmd_move(StdExits::North, newcomer, &mut world, "", &[]);
    assert_eq!(world.location_of(newcomer), Some(attic));
    assert_eq!(
        flush(&mut world),
        vec![line(watcher, "Someone leaves north."), line(newcomer, "You go north.")]
    );
}

#[test]
fn look_shows_name_and_description() {
    let (mut world, _hall, _attic) = two_rooms();
    let map = CommandMap::new();
    let id = join(&mut world, &map, "Ripley");
    say(&mut world, &map, id, "look");
    say(&mut world, &map, id, "l");
    say(&mut world, &map, id, "");
    say(&mut world, &map, id, "   ");
    let shown = line(id, "Hall\n\nA wide hall.");
    assert_eq!(flush(&mut world), vec![shown.clone(), shown.clone(), shown.clone(), shown]);
}

#[test]
fn where_names_the_zone() {
    let (mut world, _hall, _attic) = two_rooms();
    let map = CommandMap::new();
    let id = join(&mut world, &map, "Ripley");
    say(&mut world, &map, id, "where");
    assert_eq!(flush(&mut world), vec![line(id, "You are in: The House")]);

    let cellar = create_room(&mut world, "Cellar", "Dark.");
    world.set_location(id, cellar);
    say(&mut world, &map, id, "where");
    world.set_room_zone(cellar, "nameless".to_string());
    say(&mut world, &map, id, "where");
    assert_eq!(
        flush(&mut world),
        vec![line(id, "You are nowhere. (zone unknown)"), line(id, "You are nowhere. (zone unknown)")]
    );
}

#[test]
fn help_shows_the_help_text() {
    let (mut world, _hall, _attic) = two_rooms();
    let map = CommandMap::new();
    let id = join(&mut world, &map, "Ripley");
    say(&mut world, &map, id, "help");
    cmd_help(id, &mut world, "short help");
    assert_eq!(flush(&mut world), vec![line(id, &map.help_text), line(id, "short help")]);
}

#[test]
fn an_unknown_command_is_reported_in_lower_case() {
    let (mut world, _hall, _attic) = two_rooms();
    let map = CommandMap::new();
    let id = join(&mut world, &map, "Ripley");
    say(&mut world, &map, id, "Dance wildly");
    say(&mut world, &map, id, "quit");
    assert_eq!(
        flush(&mut world),
        vec![line(id, "Unknown command: dance"), line(id, "Unknown command: quit")]
    );
}

#[test]
fn run_command_looks_the_name_up_as_it_stands() {
    let (mut world, hall, _attic) = two_rooms();
    let map = CommandMap::new();
    let id = join(&mut world, &map, "Ripley");
    run_command(&map, id, &mut world, "NORTH", "NORTH", &[]);
    assert_eq!(world.location_of(id), Some(hall));
    assert_eq!(flush(&mut world), vec![line(id, "Unknown command: NORTH")]);
}

#[test]
fn a_player_that_is_not_active_may_only_use_commands_for_everybody() {
    let (mut world, hall, _attic) = two_rooms();
    let map = CommandMap::new();
    let id = handle_registration(&mut world).unwrap();
    dispatch(&map, id, &mut world, "north");
    dispatch(&map, id, &mut world, "say hello");
    dispatch(&map, id, &mut world, "help");
    dispatch(&map, id, &mut world, "nonsense");
    assert_eq!(world.location_of(id), Some(hall));
    assert_eq!(world.state_of(id), Some(PlayerState::ChoosingName));
    assert_eq!(
        flush(&mut world),
        vec![
            line(id, "You can't do that right now."),
            line(id, "You can't do that right now."),
            line(id, &map.help_text),
            line(id, "Unknown command: nonsense"),
        ]
    );
}

#[test]
fn say_reaches_the_room_and_echoes_to_the_speaker() {
    let (mut world, _hall, attic) = two_rooms();
    let map = CommandMap::new();
    let speaker = join(&mut world, &map, "Ripley");
    let near = join(&mut world, &map, "Dallas");
    let far = join(&mut world, &map, "Kane");
    let pending = handle_registration(&mut world).unwrap();
    world.set_location(far, attic);

    say(&mut world, &map, speaker, "say  hello   there ");
    let out = flush(&mut world);
    assert_eq!(out, vec![line(near, "Ripley says: hello there"), line(speaker, "You say: hello there")]);
    assert!(out.iter().all(|d| d.player != far && d.player != pending));
    assert_eq!(out.iter().filter(|d| d.player == speaker).count(), 1);
}

#[test]
fn say_without_words_asks_what_to_say() {
    let (mut world, _hall, _attic) = two_rooms();
    let map = CommandMap::new();
    let speaker = join(&mut world, &map, "Ripley");
    let _near = join(&mut world, &map, "Dallas");
    say(&mut world, &map, speaker, "say");
    say(&mut world, &map, speaker, "shout   ");
    assert_eq!(flush(&mut world), vec![line(speaker, "Say what?"), line(speaker, "Shout what?")]);
}

#[test]
fn say_from_nowhere_echoes_into_the_void() {
    let mut world = World::new();
    let map = CommandMap::new();
    let speaker = join(&mut world, &map, "Ripley");
    let _other = join(&mut world, &map, "Dallas");
    cmd_say(speaker, &mut world, "say hi", &["hi"]);
    assert_eq!(
        flush(&mut world),
        vec![line(
            speaker,
            "Your words echo into the void... there is no one around to hear them."
        )]
    );
}

#[test]
fn shout_reaches_the_zone_and_echoes_to_the_shouter() {
    let (mut world, _hall, attic) = two_rooms();
    let map = CommandMap::new();
    let cellar = create_room(&mut world, "Cellar", "Dark.");
    world.set_room_zone(cellar, "below".to_string());
    let shouter = join(&mut world, &map, "Ripley");
    let same_room = join(&mut world, &map, "Dallas");
    let same_zone = join(&mut world, &map, "Kane");
    let other_zone = join(&mut world, &map, "Ash");
    world.set_location(same_zone, attic);
    world.set_location(other_zone, cellar);

    say(&mut world, &map, shouter, "shout anyone there?");
    assert_eq!(
        flush(&mut world),
        vec![
            line(same_room, "Ripley shouts: anyone there?"),
            line(same_zone, "Ripley shouts: anyone there?"),
            line(shouter, "You shout: anyone there?"),
        ]
    );
}

#[test]
fn shout_from_nowhere_reaches_nobody() {
    let mut world = World::new();
    let map = CommandMap::new();
    let plain = create_room(&mut world, "Plain", "No zone.");
    let zoned = create_room(&mut world, "Zoned", "A zone.");
    world.set_room_zone(zoned, "z".to_string());
    let shouter = join(&mut world, &map, "Ripley");
    let nowhere = join(&mut world, &map, "Dallas");
    let unzoned = join(&mut world, &map, "Kane");
    let in_zone = join(&mut world, &map, "Ash");
    world.set_location(unzoned, plain);
    world.set_location(in_zone, zoned);
    assert_eq!(world.location_of(nowhere), None);
    assert_eq!(world.zone_id_of(shouter), "");
    assert_eq!(world.zone_id_of(in_zone), "z");

    // a player in no room, or in a room without a zone, is in no zone
    cmd_shout(shouter, &mut world, "shout hey", &["hey"]);
    assert_eq!(flush(&mut world), vec![line(shouter, "You shout: hey")]);

    world.set_location(shouter, plain);
    cmd_shout(shouter, &mut world, "shout hey", &["hey"]);
    assert_eq!(flush(&mut world), vec![line(shouter, "You shout: hey")]);

    world.write_zone_broadcast(shouter, String::new(), "to no zone".to_string());
    assert_eq!(flush_broadcasts(&mut world), Vec::<Delivery>::new());
}

#[test]
fn a_zone_broadcast_reaches_the_rooms_of_that_zone_only() {
    let (mut world, hall, attic) = two_rooms();
    let map = CommandMap::new();
    let cellar = create_room(&mut world, "Cellar", "Dark.");
    let shed = create_room(&mut world, "Shed", "No zone.");
    world.set_room_zone(cellar, "below".to_string());
    let sender = join(&mut world, &map, "Ripley");
    let in_hall = join(&mut world, &map, "Dallas");
    let in_attic = join(&mut world, &map, "Kane");
    let below = join(&mut world, &map, "Ash");
    let outside = join(&mut world, &map, "Parker");
    world.set_location(in_attic, attic);
    world.set_location(below, cellar);
    world.set_location(outside, shed);
    assert_eq!(world.location_of(in_hall), Some(hall));

    world.write_zone_broadcast(sender, "default".to_string(), "upstairs".to_string());
    world.write_zone_broadcast(sender, "below".to_string(), "downstairs".to_string());
    world.write_zone_broadcast(sender, "elsewhere".to_string(), "nobody".to_string());
    assert_eq!(
        flush_broadcasts(&mut world),
        vec![line(in_hall, "upstairs"), line(in_attic, "upstairs"), line(below, "downstairs")]
    );
}

#[test]
fn broadcasts_are_flushed_before_direct_lines() {
    let (mut world, hall, _attic) = two_rooms();
    let map = CommandMap::new();
    let a = join(&mut world, &map, "Ripley");
    let b = join(&mut world, &map, "Dallas");
    world.write_output(a, "direct".to_string());
    world.write_zone_broadcast(a, "default".to_string(), "zone".to_string());
    world.write_room_broadcast(a, hall, "room".to_string());
    world.write_broadcast(a, "all".to_string());
    assert_eq!(
        flush_broadcasts(&mut world),
        vec![line(b, "all"), line(b, "room"), line(b, "zone")]
    );
    assert_eq!(flush_broadcasts(&mut world), Vec::<Delivery>::new());
    assert_eq!(flush_output(&mut world), vec![line(a, "direct")]);
    assert_eq!(flush_output(&mut world), Vec::<Delivery>::new());
}

#[test]
fn broadcasts_skip_players_that_are_still_onboarding() {
    let (mut world, hall, _attic) = two_rooms();
    let map = CommandMap::new();
    let sender = join(&mut world, &map, "Ripley");
    let active = join(&mut world, &map, "Dallas");
    let fresh = handle_registration(&mut world).unwrap();
    let named = handle_registration(&mut world).unwrap();
    say(&mut world, &map, named, "Kane");
    flush(&mut world);
    assert_eq!(world.location_of(fresh), Some(hall));
    world.write_broadcast(sender, "to all".to_string());
    world.write_room_broadcast(sender, hall, "to room".to_string());
    world.write_zone_broadcast(sender, "default".to_string(), "to zone".to_string());
    assert_eq!(
        flush_broadcasts(&mut world),
        vec![line(active, "to all"), line(active, "to room"), line(active, "to zone")]
    );
}

#[test]
fn a_line_for_a_player_that_is_gone_is_dropped() {
    let (mut world, _hall, _attic) = two_rooms();
    let map = CommandMap::new();
    let stays = join(&mut world, &map, "Ripley");
    let goes = join(&mut world, &map, "Dallas");
    world.write_output(goes, "lost".to_string());
    world.write_output(stays, "kept".to_string());
    world.write_output(PlayerId(999), "never".to_string());
    assert!(world.despawn(goes));
    assert!(!world.despawn(goes));
    assert_eq!(flush_output(&mut world), vec![line(stays, "kept")]);
}

#[test]
fn the_world_refuses_what_would_break_it() {
    let (mut world, hall, attic) = two_rooms();
    let map = CommandMap::new();
    let id = join(&mut world, &map, "Ripley");
    let nobody = PlayerId(40);
    let nowhere = RoomId(40);

    assert!(!world.set_location(id, nowhere));
    assert!(!world.set_location(nobody, attic));
    assert_eq!(world.location_of(id), Some(hall));
    assert!(world.set_location(id, attic));
    assert_eq!(world.location_of(id), Some(attic));

    assert!(!world.add_exit(hall, "up".to_string(), nowhere));
    assert!(!world.add_exit(nowhere, "up".to_string(), hall));
    assert_eq!(world.exit_of(hall, "up"), None);
    assert!(!world.set_room_zone(nowhere, "z".to_string()));
    assert!(!world.register_room("z:nowhere".to_string(), nowhere));
    assert_eq!(world.lookup_room("z:nowhere"), None);

    // an active player has nothing left to choose
    assert!(!world.choose_name(id, "Other".to_string()));
    assert!(!world.store_password(id, "hash".to_string()));
    assert!(!world.activate(id, drakors::components::Race::Human));
    assert!(!world.choose_name(nobody, "Other".to_string()));
    assert_eq!(world.name_of(id), Some("Ripley".to_string()));
    assert_eq!(world.state_of(id), Some(PlayerState::Active));

    // a name that is in use cannot be chosen
    let fresh = handle_registration(&mut world).unwrap();
    assert!(!world.store_password(fresh, "hash".to_string()));
    assert!(!world.activate(fresh, drakors::components::Race::Human));
    assert!(!world.choose_name(fresh, "Ripley".to_string()));
    assert_eq!(world.state_of(fresh), Some(PlayerState::ChoosingName));
    assert!(world.choose_name(fresh, "Newt".to_string()));
    assert!(!world.choose_name(fresh, "Newt2".to_string()));
    assert!(world.store_password(fresh, "hash".to_string()));
    assert!(world.activate(fresh, drakors::components::Race::Alien));
    assert_eq!(world.name_of(fresh), Some("Newt".to_string()));
    assert!(flush(&mut world).is_empty());
}
