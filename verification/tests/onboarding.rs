use drakors::commands::CommandMap;
use drakors::components::{PlayerId, PlayerState, RoomId};
use drakors::events::{CommandEvent, Delivery, DisconnectEvent};
use drakors::password::verify_password;
use drakors::server::{
    accept_password, flush, handle_command, handle_commands, handle_disconnect,
    handle_disconnects, handle_registration, handle_registrations, parse_race, submit_name,
    submit_password, submit_race, tick, RACE_PROMPT,
};
use drakors::components::Race;
use drakors::world::{create_room, World};

fn line(player: PlayerId, text: &str) -> Delivery {
    Delivery { player, line: format!("{}\r\n> ", text) }
}

fn cmd(player: PlayerId, input: &str) -> CommandEvent {
    CommandEvent { player, input: input.to_string() }
}

fn send(world: &mut World, map: &CommandMap, player: PlayerId, input: &str) {
    handle_command(world, map, &cmd(player, input)).expect("the system gives random bytes");
}

fn world_with_start() -> (World, RoomId) {
    let mut world = World::new();
    let start = create_room(&mut world, "Landing", "Where everyone arrives.");
    world.register_room("default:start".to_string(), start);
    (world, start)
}

fn rank(state: Option<PlayerState>) -> u8 {
    match state {
        Some(PlayerState::ChoosingName) => 0,
        Some(PlayerState::ChoosingPassword) => 1,
        Some(PlayerState::ChoosingRace) => 2,
        Some(PlayerState::Active) => 3,
        None => panic!("the player is gone"),
    }
}

#[test]
fn registration_creates_a_player_at_the_start_room() {
    let (mut world, start) = world_with_start();
    let a = handle_registration(&mut world).unwrap();
    let b = handle_registration(&mut world).unwrap();
    assert_eq!(a, PlayerId(0));
    assert_eq!(b, PlayerId(1));
    for id in [a, b] {
        assert!(world.contains(id));
        assert_eq!(world.state_of(id), Some(PlayerState::ChoosingName));
        assert_eq!(world.name_of(id), None);
        assert_eq!(world.chosen_name_of(id), None);
        assert_eq!(world.location_of(id), Some(start));
    }
    assert_eq!(world.players().len(), 2);
    assert!(flush(&mut world).is_empty());
}

#[test]
fn registration_without_a_start_room_leaves_the_player_nowhere() {
    let mut world = World::new();
    let id = handle_registration(&mut world).unwrap();
    assert_eq!(world.location_of(id), None);
    assert_eq!(world.state_of(id), Some(PlayerState::ChoosingName));
}

#[test]
fn identities_are_never_handed_out_twice() {
    let (mut world, _start) = world_with_start();
    let a = handle_registration(&mut world).unwrap();
    let b = handle_registration(&mut world).unwrap();
    handle_disconnect(&mut world, &DisconnectEvent { player: a });
    handle_disconnect(&mut world, &DisconnectEvent { player: b });
    let c = handle_registration(&mut world).unwrap();
    assert_ne!(c, a);
    assert_ne!(c, b);
    assert_eq!(handle_registrations(&mut world, 3), vec![Some(PlayerId(3)), Some(PlayerId(4)), Some(PlayerId(5))]);
    assert_eq!(handle_registrations(&mut world, 0), Vec::<Option<PlayerId>>::new());
}

#[test]
fn onboarding_goes_through_all_states_in_order() {
    let (mut world, start) = world_with_start();
    let map = CommandMap::new();
    let watcher = handle_registration(&mut world).unwrap();
    for input in ["Dallas", "Abcdefg1", "p"] {
        send(&mut world, &map, watcher, input);
    }
    flush(&mut world);

    let id = handle_registration(&mut world).unwrap();
    send(&mut world, &map, id, "  Ripley \r\n");
    assert_eq!(world.state_of(id), Some(PlayerState::ChoosingPassword));
    assert_eq!(world.chosen_name_of(id), Some("Ripley".to_string()));
    assert_eq!(world.name_of(id), None);
    assert_eq!(flush(&mut world), vec![line(id, "Please enter a password: ")]);

    send(&mut world, &map, id, "Nostromo79");
    assert_eq!(world.state_of(id), Some(PlayerState::ChoosingRace));
    assert_eq!(flush(&mut world), vec![line(id, RACE_PROMPT)]);

    send(&mut world, &map, id, "H");
    assert_eq!(world.state_of(id), Some(PlayerState::Active));
    assert_eq!(world.name_of(id), Some("Ripley".to_string()));
    assert_eq!(world.chosen_name_of(id), None);
    assert_eq!(world.location_of(id), Some(start));
    assert_eq!(
        flush(&mut world),
        vec![
            line(watcher, "Ripley has joined the game."),
            line(watcher, "Ripley appears in a bright flash of light."),
            line(id, "Welcome, Ripley!"),
        ]
    );

    send(&mut world, &map, id, "look");
    assert_eq!(flush(&mut world), vec![line(id, "Landing\n\nWhere everyone arrives.")]);
}

#[test]
fn a_name_in_use_is_refused() {
    let (mut world, _start) = world_with_start();
    let map = CommandMap::new();
    let first = handle_registration(&mut world).unwrap();
    for input in ["Ripley", "Abcdefg1", "a"] {
        send(&mut world, &map, first, input);
    }
    flush(&mut world);
    let second = handle_registration(&mut world).unwrap();
    send(&mut world, &map, second, "Ripley");
    assert_eq!(world.state_of(second), Some(PlayerState::ChoosingName));
    assert_eq!(world.chosen_name_of(second), None);
    assert_eq!(flush(&mut world), vec![line(second, "Name already in use, please pick another: ")]);
    // the same letters in another case are another name
    send(&mut world, &map, second, "ripley");
    assert_eq!(world.state_of(second), Some(PlayerState::ChoosingPassword));
    assert_eq!(flush(&mut world), vec![line(second, "Please enter a password: ")]);
}

#[test]
fn the_same_name_in_the_same_tick_goes_to_the_first() {
    let (mut world, _start) = world_with_start();
    let map = CommandMap::new();
    let first = handle_registration(&mut world).unwrap();
    let second = handle_registration(&mut world).unwrap();
    let out = tick(
        &mut world,
        &map,
        &vec![cmd(first, "Newt"), cmd(second, "Newt")],
        &Vec::new(),
        0,
    )
    .unwrap();
    assert_eq!(
        out.deliveries,
        vec![
            line(first, "Please enter a password: "),
            line(second, "Name already in use, please pick another: "),
        ]
    );
    assert_eq!(world.state_of(first), Some(PlayerState::ChoosingPassword));
    assert_eq!(world.state_of(second), Some(PlayerState::ChoosingName));
    assert_eq!(world.chosen_name_of(first), Some("Newt".to_string()));
    assert_eq!(world.chosen_name_of(second), None);

    // the loser finishes under another name; the two never share one
    for (id, inputs) in [(first, vec!["Abcdefg1", "h"]), (second, vec!["Newt", "Hicks", "Abcdefg1", "s"])] {
        for input in inputs {
            send(&mut world, &map, id, input);
        }
    }
    assert_eq!(world.state_of(first), Some(PlayerState::Active));
    assert_eq!(world.state_of(second), Some(PlayerState::Active));
    assert_eq!(world.name_of(first), Some("Newt".to_string()));
    assert_eq!(world.name_of(second), Some("Hicks".to_string()));
    assert!(world.name_in_use("Newt"));
    assert!(world.name_in_use("Hicks"));
    assert!(!world.name_in_use("newt"));
}

#[test]
fn a_name_is_free_again_when_its_player_is_gone() {
    let (mut world, _start) = world_with_start();
    let map = CommandMap::new();
    let first = handle_registration(&mut world).unwrap();
    send(&mut world, &map, first, "Bishop");
    handle_disconnect(&mut world, &DisconnectEvent { player: first });
    let second = handle_registration(&mut world).unwrap();
    send(&mut world, &map, second, "Bishop");
    assert_eq!(world.state_of(second), Some(PlayerState::ChoosingPassword));
}

#[test]
fn an_empty_name_is_a_name() {
    let (mut world, _start) = world_with_start();
    let map = CommandMap::new();
    let first = handle_registration(&mut world).unwrap();
    let second = handle_registration(&mut world).unwrap();
    send(&mut world, &map, first, "   ");
    assert_eq!(world.state_of(first), Some(PlayerState::ChoosingPassword));
    assert_eq!(world.chosen_name_of(first), Some(String::new()));
    send(&mut world, &map, second, "");
    assert_eq!(world.state_of(second), Some(PlayerState::ChoosingName));
}

#[test]
fn a_password_that_breaks_a_rule_is_refused_with_its_reason() {
    let (mut world, _start) = world_with_start();
    let map = CommandMap::new();
    let id = handle_registration(&mut world).unwrap();
    send(&mut world, &map, id, "Hudson");
    flush(&mut world);
    let cases = [
        ("", "Password must be at least 8 characters long. "),
        ("short1A", "Password must be at least 8 characters long. "),
        ("alllowercase1", "Password must contain at least one uppercase letter. "),
        ("ALLUPPERCASE1", "Password must contain at least one lowercase letter. "),
        ("NoDigitsHere", "Password must contain at least one digit. "),
    ];
    for (input, reason) in cases {
        send(&mut world, &map, id, input);
        assert_eq!(world.state_of(id), Some(PlayerState::ChoosingPassword));
        assert_eq!(flush(&mut world), vec![line(id, reason)]);
    }
    send(&mut world, &map, id, "  GameOver1  ");
    assert_eq!(world.state_of(id), Some(PlayerState::ChoosingRace));
}

#[test]
fn the_stored_hash_verifies_against_the_password() {
    let (mut world, _start) = world_with_start();
    let id = handle_registration(&mut world).unwrap();
    assert!(submit_name(&mut world, id, "Vasquez".to_string()));
    assert_eq!(submit_password(&mut world, id, "Smartgun1"), Ok(true));
    let hash = world.players()[0].registration.password_hash.clone().expect("a hash is stored");
    assert!(verify_password("Smartgun1", &hash));
    assert!(!verify_password("Smartgun2", &hash));
}

#[test]
fn accept_password_stores_the_given_hash() {
    let (mut world, _start) = world_with_start();
    let id = handle_registration(&mut world).unwrap();
    assert!(submit_name(&mut world, id, "Gorman".to_string()));
    assert!(accept_password(&mut world, id, "BLAKE3$x$y".to_string()));
    assert_eq!(world.state_of(id), Some(PlayerState::ChoosingRace));
    assert_eq!(world.players()[0].registration.password_hash, Some("BLAKE3$x$y".to_string()));
    assert_eq!(
        flush(&mut world),
        vec![line(id, "Please enter a password: "), line(id, RACE_PROMPT)]
    );
}

#[test]
fn a_token_that_names_no_race_brings_the_prompt_again() {
    let (mut world, _start) = world_with_start();
    let map = CommandMap::new();
    let id = handle_registration(&mut world).unwrap();
    send(&mut world, &map, id, "Apone");
    send(&mut world, &map, id, "Abcdefg1");
    flush(&mut world);
    for input in ["", "x", "human", "a h", "aa", "1"] {
        send(&mut world, &map, id, input);
        assert_eq!(world.state_of(id), Some(PlayerState::ChoosingRace));
        assert_eq!(world.name_of(id), None);
        assert_eq!(flush(&mut world), vec![line(id, RACE_PROMPT)]);
    }
    send(&mut world, &map, id, " S ");
    assert_eq!(world.state_of(id), Some(PlayerState::Active));
    assert_eq!(world.players()[0].race, Some(Race::SyntheticHuman));
    assert_eq!(world.players()[0].registration.chosen_name, None);
    assert_eq!(world.players()[0].registration.password_hash, None);
}

#[test]
fn each_letter_names_its_race() {
    assert_eq!(parse_race("a"), Some(Race::Alien));
    assert_eq!(parse_race("h"), Some(Race::Human));
    assert_eq!(parse_race("p"), Some(Race::Predator));
    assert_eq!(parse_race("s"), Some(Race::SyntheticHuman));
    assert_eq!(parse_race("A"), None);
    assert_eq!(parse_race(""), None);
    assert_eq!(parse_race("ah"), None);
}

#[test]
fn submit_race_takes_the_token_as_it_stands() {
    let (mut world, _start) = world_with_start();
    let id = handle_registration(&mut world).unwrap();
    assert!(submit_name(&mut world, id, "Drake".to_string()));
    assert!(accept_password(&mut world, id, "hash".to_string()));
    assert!(submit_race(&mut world, id, "P"));
    assert_eq!(world.state_of(id), Some(PlayerState::ChoosingRace));
    assert!(submit_race(&mut world, id, "p"));
    assert_eq!(world.state_of(id), Some(PlayerState::Active));
    assert_eq!(world.players()[0].race, Some(Race::Predator));
}

#[test]
fn states_only_move_forward() {
    let (mut world, _start) = world_with_start();
    let map = CommandMap::new();
    let id = handle_registration(&mut world).unwrap();
    let other = handle_registration(&mut world).unwrap();
    send(&mut world, &map, other, "Taken");
    let inputs = [
        "Taken", "", "Taken", "Frost", "bad", "", "Abcdefg1", "x", "", "Taken", "h", "look",
        "Taken", "Abcdefg1", "h", "a", "say hi", "north", "nonsense", "",
    ];
    let mut before = rank(world.state_of(id));
    for input in inputs {
        let other_before = world.state_of(other);
        send(&mut world, &map, id, input);
        let after = rank(world.state_of(id));
        assert!(after >= before, "{:?} went back", input);
        assert!(after <= before + 1, "{:?} skipped a state", input);
        assert_eq!(world.state_of(other), other_before);
        before = after;
    }
    assert_eq!(world.state_of(id), Some(PlayerState::Active));
}

#[test]
fn a_disconnect_of_a_named_player_is_broadcast() {
    let (mut world, _start) = world_with_start();
    let map = CommandMap::new();
    let stays = handle_registration(&mut world).unwrap();
    let goes = handle_registration(&mut world).unwrap();
    let pending = handle_registration(&mut world).unwrap();
    for (id, name) in [(stays, "Ripley"), (goes, "Burke")] {
        for input in [name, "Abcdefg1", "h"] {
            send(&mut world, &map, id, input);
        }
    }
    send(&mut world, &map, pending, "Spunkmeyer");
    flush(&mut world);

    handle_disconnect(&mut world, &DisconnectEvent { player: pending });
    assert!(!world.contains(pending));
    assert!(flush(&mut world).is_empty());

    handle_disconnect(&mut world, &DisconnectEvent { player: goes });
    assert!(!world.contains(goes));
    assert!(world.contains(stays));
    assert_eq!(world.players().len(), 1);
    assert_eq!(flush(&mut world), vec![line(stays, "Burke has left the game.")]);
}

#[test]
fn a_disconnect_of_an_unknown_identity_does_nothing() {
    let (mut world, _start) = world_with_start();
    let id = handle_registration(&mut world).unwrap();
    handle_disconnects(
        &mut world,
        &vec![DisconnectEvent { player: PlayerId(77) }, DisconnectEvent { player: PlayerId(78) }],
    );
    assert!(world.contains(id));
    assert_eq!(world.players().len(), 1);
    assert!(flush(&mut world).is_empty());
}

#[test]
fn a_command_for_a_player_that_is_gone_is_dropped() {
    let (mut world, _start) = world_with_start();
    let map = CommandMap::new();
    let stays = handle_registration(&mut world).unwrap();
    let goes = handle_registration(&mut world).unwrap();
    for (id, name) in [(stays, "Ripley"), (goes, "Burke")] {
        for input in [name, "Abcdefg1", "h"] {
            send(&mut world, &map, id, input);
        }
    }
    flush(&mut world);
    // the disconnect is worked in one tick, the command comes in the next
    let out = tick(&mut world, &map, &Vec::new(), &vec![DisconnectEvent { player: goes }], 0).unwrap();
    assert_eq!(out.deliveries, vec![line(stays, "Burke has left the game.")]);
    let out = tick(
        &mut world,
        &map,
        &vec![cmd(goes, "say still here"), cmd(goes, "north"), cmd(goes, "Burke"), cmd(PlayerId(500), "look")],
        &Vec::new(),
        0,
    )
    .unwrap();
    assert!(out.deliveries.is_empty());
    assert!(out.registered.is_empty());
    assert!(!world.contains(goes));
    assert!(!world.contains(PlayerId(500)));
    assert_eq!(world.players().len(), 1);
    assert_eq!(handle_commands(&mut world, &map, &vec![cmd(goes, "help")]), Ok(()));
    assert!(flush(&mut world).is_empty());
}

#[test]
fn the_last_command_of_a_tick_runs_before_the_disconnect() {
    let (mut world, _start) = world_with_start();
    let map = CommandMap::new();
    let stays = handle_registration(&mut world).unwrap();
    let goes = handle_registration(&mut world).unwrap();
    for (id, name) in [(stays, "Ripley"), (goes, "Burke")] {
        for input in [name, "Abcdefg1", "h"] {
            send(&mut world, &map, id, input);
        }
    }
    flush(&mut world);
    let out = tick(
        &mut world,
        &map,
        &vec![cmd(goes, "say goodbye all")],
        &vec![DisconnectEvent { player: goes }],
        1,
    )
    .unwrap();
    // the words are heard; the echo to the speaker is dropped with the speaker
    assert_eq!(
        out.deliveries,
        vec![line(stays, "Burke has left the game."), line(stays, "Burke says: goodbye all")]
    );
    assert_eq!(out.registered, vec![Some(PlayerId(2))]);
    assert!(!world.contains(goes));
    assert_eq!(world.state_of(PlayerId(2)), Some(PlayerState::ChoosingName));
}

#[test]
fn a_tick_works_commands_then_disconnects_then_registrations() {
    let (mut world, start) = world_with_start();
    let map = CommandMap::new();
    let out = tick(&mut world, &map, &Vec::new(), &Vec::new(), 2).unwrap();
    assert_eq!(out.registered, vec![Some(PlayerId(0)), Some(PlayerId(1))]);
    assert!(out.deliveries.is_empty());
    let out = tick(
        &mut world,
        &map,
        &vec![cmd(PlayerId(0), "Ripley"), cmd(PlayerId(1), "Dallas"), cmd(PlayerId(2), "Early")],
        &vec![DisconnectEvent { player: PlayerId(1) }],
        1,
    )
    .unwrap();
    // the third identity did not exist yet when its line was worked in
    assert_eq!(out.registered, vec![Some(PlayerId(2))]);
    assert_eq!(
        out.deliveries,
        vec![line(PlayerId(0), "Please enter a password: ")]
    );
    assert_eq!(world.state_of(PlayerId(0)), Some(PlayerState::ChoosingPassword));
    assert_eq!(world.state_of(PlayerId(1)), None);
    assert_eq!(world.state_of(PlayerId(2)), Some(PlayerState::ChoosingName));
    assert_eq!(world.location_of(PlayerId(2)), Some(start));
    let out = tick(&mut world, &map, &Vec::new(), &Vec::new(), 0).unwrap();
    assert!(out.deliveries.is_empty());
}

#[test]
fn a_step_of_onboarding_is_refused_in_another_state() {
    let (mut world, _start) = world_with_start();
    let id = handle_registration(&mut world).unwrap();
    assert!(!accept_password(&mut world, id, "hash".to_string()));
    assert_eq!(submit_password(&mut world, id, "Abcdefg1"), Ok(false));
    assert!(!submit_race(&mut world, id, "h"));
    assert!(!submit_name(&mut world, PlayerId(9), "Ghost".to_string()));
    assert_eq!(world.state_of(id), Some(PlayerState::ChoosingName));
    assert!(flush(&mut world).is_empty());

    assert!(submit_name(&mut world, id, "Ferro".to_string()));
    assert!(!submit_name(&mut world, id, "Ferro2".to_string()));
    assert!(!submit_race(&mut world, id, "h"));
    assert_eq!(world.state_of(id), Some(PlayerState::ChoosingPassword));
    assert_eq!(world.chosen_name_of(id), Some("Ferro".to_string()));

    assert_eq!(submit_password(&mut world, id, "bad"), Ok(true));
    assert_eq!(world.state_of(id), Some(PlayerState::ChoosingPassword));
    assert_eq!(submit_password(&mut world, id, "Dropship1"), Ok(true));
    assert_eq!(submit_password(&mut world, id, "Dropship1"), Ok(false));
    assert!(!accept_password(&mut world, id, "hash".to_string()));
    assert_eq!(world.state_of(id), Some(PlayerState::ChoosingRace));
}
