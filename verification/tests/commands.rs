use drakors::commands::movement::StdExits;
use drakors::commands::{
    command_list, CommandHandler, CommandMap, CommandMetadata, CommandScope, HELP_HEADER,
};

const EXPECTED_HELP: &str = "Available commands:
  east (e) - Move east
  help - Show this help message
  look (l) - Look around the current room
  north (n) - Move north
  quit - Disconnect from the game
  say - Speak aloud to others in the room
  shout - Shout to everyone in your zone
  south (s) - Move south
  west (w) - Move west
  where - Show which zone you are in";

fn handler(map: &CommandMap, key: &str) -> Option<CommandHandler> {
    map.handlers.get(key).copied()
}

fn scope(map: &CommandMap, key: &str) -> Option<CommandScope> {
    map.scopes.get(key).copied()
}

#[test]
fn every_name_resolves_to_its_handler() {
    let map = CommandMap::new();
    assert_eq!(handler(&map, "east"), Some(CommandHandler::East));
    assert_eq!(handler(&map, "help"), Some(CommandHandler::Help));
    assert_eq!(handler(&map, "look"), Some(CommandHandler::Look));
    assert_eq!(handler(&map, "north"), Some(CommandHandler::North));
    assert_eq!(handler(&map, "say"), Some(CommandHandler::Say));
    assert_eq!(handler(&map, "shout"), Some(CommandHandler::Shout));
    assert_eq!(handler(&map, "south"), Some(CommandHandler::South));
    assert_eq!(handler(&map, "west"), Some(CommandHandler::West));
    assert_eq!(handler(&map, "where"), Some(CommandHandler::Where));
}

#[test]
fn every_alias_resolves_as_its_canonical_name() {
    let map = CommandMap::new();
    let list = command_list();
    let mut aliases = 0;
    for cmd in &list {
        for alias in &cmd.aliases {
            aliases += 1;
            assert!(handler(&map, alias).is_some());
            assert_eq!(handler(&map, alias), handler(&map, cmd.name));
            assert_eq!(handler(&map, alias), cmd.handler);
            assert_eq!(scope(&map, alias), scope(&map, cmd.name));
        }
    }
    assert_eq!(aliases, 5);
    assert_eq!(handler(&map, "e"), Some(CommandHandler::East));
    assert_eq!(handler(&map, "l"), Some(CommandHandler::Look));
    assert_eq!(handler(&map, "n"), Some(CommandHandler::North));
    assert_eq!(handler(&map, "s"), Some(CommandHandler::South));
    assert_eq!(handler(&map, "w"), Some(CommandHandler::West));
}

#[test]
fn the_table_holds_the_names_and_aliases_and_nothing_else() {
    let map = CommandMap::new();
    assert_eq!(map.handlers.len(), 14);
    assert_eq!(map.scopes.len(), 14);
    assert_eq!(handler(&map, "quit"), None);
    assert_eq!(handler(&map, "East"), None);
    assert_eq!(handler(&map, ""), None);
    assert_eq!(handler(&map, "h"), None);
}

#[test]
fn help_is_for_everybody_and_the_rest_for_active_players() {
    let map = CommandMap::new();
    assert_eq!(scope(&map, "help"), Some(CommandScope::Any));
    for key in ["east", "e", "look", "l", "north", "n", "say", "shout", "south", "s", "west", "w", "where"] {
        assert_eq!(scope(&map, key), Some(CommandScope::ActiveOnly));
    }
}

#[test]
fn help_text_lists_each_command_once_in_order() {
    let map = CommandMap::new();
    assert_eq!(map.help_text, EXPECTED_HELP);
    let lines: Vec<&str> = map.help_text.lines().collect();
    assert_eq!(lines[0], HELP_HEADER.trim_end());
    let entries = &lines[1..];
    assert_eq!(entries.len(), command_list().len());
    let mut sorted = entries.to_vec();
    sorted.sort();
    assert_eq!(entries, &sorted[..]);
    for cmd in command_list() {
        let own: Vec<&&str> = entries
            .iter()
            .filter(|l| l.starts_with(&format!("  {} ", cmd.name)))
            .collect();
        assert_eq!(own.len(), 1, "{} is listed once", cmd.name);
        for alias in &cmd.aliases {
            assert!(own[0].contains(&format!("({})", alias)));
            assert!(!entries.iter().any(|l| l.starts_with(&format!("  {} -", alias))));
        }
    }
}

#[test]
fn build_formats_aliases_and_sorts_lines() {
    let list = vec![
        CommandMetadata {
            name: "zap",
            handler: Some(CommandHandler::Say),
            scope: CommandScope::ActiveOnly,
            description: "Zap",
            aliases: vec!["z", "zz"],
        },
        CommandMetadata {
            name: "about",
            handler: None,
            scope: CommandScope::Any,
            description: "About",
            aliases: vec!["a"],
        },
    ];
    let map = CommandMap::build(&list);
    assert_eq!(map.help_text, "Available commands:\n  about (a) - About\n  zap (z, zz) - Zap");
    assert_eq!(handler(&map, "zap"), Some(CommandHandler::Say));
    assert_eq!(handler(&map, "z"), Some(CommandHandler::Say));
    assert_eq!(handler(&map, "zz"), Some(CommandHandler::Say));
    // an entry without a handler binds nothing
    assert_eq!(handler(&map, "about"), None);
    assert_eq!(handler(&map, "a"), None);
    assert_eq!(map.handlers.len(), 3);
}

#[test]
fn build_lets_a_later_entry_take_a_key() {
    let list = vec![
        CommandMetadata {
            name: "go",
            handler: Some(CommandHandler::North),
            scope: CommandScope::ActiveOnly,
            description: "first",
            aliases: vec!["g"],
        },
        CommandMetadata {
            name: "g",
            handler: Some(CommandHandler::South),
            scope: CommandScope::Any,
            description: "second",
            aliases: vec![],
        },
    ];
    let map = CommandMap::build(&list);
    assert_eq!(handler(&map, "go"), Some(CommandHandler::North));
    assert_eq!(handler(&map, "g"), Some(CommandHandler::South));
    assert_eq!(scope(&map, "g"), Some(CommandScope::Any));
    assert_eq!(scope(&map, "go"), Some(CommandScope::ActiveOnly));
}

#[test]
fn build_of_nothing_is_the_header_alone() {
    let map = CommandMap::build(&Vec::new());
    assert_eq!(map.help_text, "Available commands:\n");
    assert_eq!(map.handlers.len(), 0);
}

#[test]
fn directions_have_names_nouns_and_opposites() {
    assert_eq!(StdExits::North.as_str(), "north");
    assert_eq!(StdExits::South.as_str(), "south");
    assert_eq!(StdExits::East.as_str(), "east");
    assert_eq!(StdExits::West.as_str(), "west");
    assert_eq!(StdExits::North.as_str_noun(), "the north");
    assert_eq!(StdExits::South.as_str_noun(), "the south");
    assert_eq!(StdExits::East.as_str_noun(), "the east");
    assert_eq!(StdExits::West.as_str_noun(), "the west");
    assert_eq!(StdExits::North.opposite(), StdExits::South);
    assert_eq!(StdExits::South.opposite(), StdExits::North);
    assert_eq!(StdExits::East.opposite(), StdExits::West);
    assert_eq!(StdExits::West.opposite(), StdExits::East);
    for dir in [StdExits::North, StdExits::South, StdExits::East, StdExits::West] {
        assert_eq!(dir.opposite().opposite(), dir);
    }
}
