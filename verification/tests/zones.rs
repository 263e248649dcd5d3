use drakors::components::{PlayerState, RoomId};
use drakors::server::handle_registration;
use drakors::world::World;
use drakors::zones::{load_zone, RoomDef, ZoneDef};

fn room(id: &str, name: &str, exits: &[(&str, &str)]) -> RoomDef {
    RoomDef {
        id: id.to_string(),
        name: name.to_string(),
        description: format!("This is {}.", name),
        exits: exits.iter().map(|(d, t)| (d.to_string(), t.to_string())).collect(),
    }
}

fn default_zone() -> ZoneDef {
    ZoneDef {
        id: "default".to_string(),
        name: "The Colony".to_string(),
        rooms: vec![
            room("start", "Landing Pad", &[("north", "ops"), ("east", "medlab")]),
            room("ops", "Operations", &[("south", "start"), ("up", "nowhere")]),
            room("medlab", "Medical Lab", &[("west", "start")]),
        ],
    }
}

#[test]
fn a_zone_becomes_rooms_exits_and_registry_entries() {
    let mut world = World::new();
    load_zone(&mut world, &default_zone());
    assert_eq!(world.room_count(), 3);
    let start = world.lookup_room("default:start").unwrap();
    let ops = world.lookup_room("default:ops").unwrap();
    let medlab = world.lookup_room("default:medlab").unwrap();
    assert_eq!((start, ops, medlab), (RoomId(0), RoomId(1), RoomId(2)));
    assert_eq!(world.room_name(start), Some("Landing Pad".to_string()));
    assert_eq!(world.room_description(ops), Some("This is Operations.".to_string()));
    assert_eq!(world.exit_of(start, "north"), Some(ops));
    assert_eq!(world.exit_of(start, "east"), Some(medlab));
    assert_eq!(world.exit_of(ops, "south"), Some(start));
    assert_eq!(world.exit_of(medlab, "west"), Some(start));
    assert_eq!(world.exit_of(start, "south"), None);
    for r in [start, ops, medlab] {
        assert_eq!(world.zone_of_room(r), Some("default".to_string()));
    }
    assert_eq!(world.zone_name("default"), Some("The Colony".to_string()));
    assert_eq!(world.lookup_room("start"), None);
    assert_eq!(world.lookup_room("default:nowhere"), None);
}

#[test]
fn an_exit_to_a_room_outside_the_zone_is_left_out() {
    let mut world = World::new();
    load_zone(&mut world, &default_zone());
    let ops = world.lookup_room("default:ops").unwrap();
    assert_eq!(world.exit_of(ops, "up"), None);
}

#[test]
fn new_players_start_in_the_start_room_of_the_default_zone() {
    let mut world = World::new();
    load_zone(&mut world, &default_zone());
    let id = handle_registration(&mut world).unwrap();
    assert_eq!(world.location_of(id), world.lookup_room("default:start"));
    assert_eq!(world.state_of(id), Some(PlayerState::ChoosingName));
}

#[test]
fn a_second_zone_gets_the_next_handles_and_its_own_ids() {
    let mut world = World::new();
    load_zone(&mut world, &default_zone());
    let other = ZoneDef {
        id: "hive".to_string(),
        name: "The Hive".to_string(),
        rooms: vec![room("start", "Tunnel", &[("north", "ops")]), room("nest", "Nest", &[("out", "start")])],
    };
    load_zone(&mut world, &other);
    assert_eq!(world.room_count(), 5);
    let tunnel = world.lookup_room("hive:start").unwrap();
    let nest = world.lookup_room("hive:nest").unwrap();
    assert_eq!((tunnel, nest), (RoomId(3), RoomId(4)));
    // ids are local to the zone: "ops" is no room of the hive
    assert_eq!(world.exit_of(tunnel, "north"), None);
    assert_eq!(world.exit_of(nest, "out"), Some(tunnel));
    assert_eq!(world.lookup_room("default:start"), Some(RoomId(0)));
    assert_eq!(world.zone_of_room(nest), Some("hive".to_string()));
    assert_eq!(world.zone_name("hive"), Some("The Hive".to_string()));
    assert_eq!(world.zone_name("default"), Some("The Colony".to_string()));
}

#[test]
fn of_two_rooms_with_one_id_the_later_holds_the_id() {
    let mut world = World::new();
    let zone = ZoneDef {
        id: "z".to_string(),
        name: "Zed".to_string(),
        rooms: vec![
            room("a", "First", &[("north", "b")]),
            room("b", "Other", &[("south", "a")]),
            room("a", "Second", &[("east", "b")]),
        ],
    };
    load_zone(&mut world, &zone);
    assert_eq!(world.room_count(), 3);
    assert_eq!(world.lookup_room("z:a"), Some(RoomId(2)));
    assert_eq!(world.exit_of(RoomId(1), "south"), Some(RoomId(2)));
    // the exits of both definitions are opened at the room that holds the id
    assert_eq!(world.exit_of(RoomId(2), "north"), Some(RoomId(1)));
    assert_eq!(world.exit_of(RoomId(2), "east"), Some(RoomId(1)));
    assert_eq!(world.exit_of(RoomId(0), "north"), None);
    assert_eq!(world.room_name(RoomId(0)), Some("First".to_string()));
}

#[test]
fn an_empty_zone_files_its_name_only() {
    let mut world = World::new();
    load_zone(&mut world, &ZoneDef { id: "void".to_string(), name: "Void".to_string(), rooms: Vec::new() });
    assert_eq!(world.room_count(), 0);
    assert_eq!(world.zone_name("void"), Some("Void".to_string()));
}
