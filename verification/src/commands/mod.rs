//! The commands that players can give: the table that maps every command
//! name and alias to its handler and scope, the help text, and dispatch.

pub mod help;
pub mod movement;
pub mod social;

use crate::commands::movement::{
    cmd_east, cmd_look, cmd_north, cmd_south, cmd_west, cmd_where, look_step, move_step,
    where_step, StdExits,
};
use crate::commands::social::{cmd_say, cmd_shout, say_step, shout_step};
use crate::components::{PlayerId, PlayerState};
use crate::model::WorldView;
use crate::order::{lemma_sort_spec, sort_spec, sort_strings, sorted};
use crate::text::{
    as_strs, concat2, concat3, join, join_spec, split_whitespace, str_to_lowercase, to_lowercase,
    tokens_spec,
};
use crate::world::World;
use vstd::hash_map::StringHashMap;
use vstd::prelude::*;

verus! {

/// The first line of the help text.
pub const HELP_HEADER: &'static str = "Available commands:\n";

/// The command that an empty line stands for.
pub const DEFAULT_COMMAND: &'static str = "look";

/// What a player is told that may not use a command yet.
pub const MSG_NOT_NOW: &'static str = "You can't do that right now.";

/// What stands before the name of a command that the table does not hold.
pub const MSG_UNKNOWN: &'static str = "Unknown command: ";

/// Who may use a command.
#[derive(Copy, Clone, Debug, PartialEq, Eq, Structural)]
pub enum CommandScope {
    /// Every player, whatever its onboarding state.
    Any,
    /// Active players only.
    ActiveOnly,
}

/// What a command does.
#[derive(Copy, Clone, Debug, PartialEq, Eq, Structural)]
pub enum CommandHandler {
    East,
    Help,
    Look,
    North,
    Say,
    Shout,
    South,
    West,
    Where,
}

/// One command as the table is built from it.
pub struct CommandMetadata {
    pub name: &'static str,
    pub handler: Option<CommandHandler>,
    pub scope: CommandScope,
    pub description: &'static str,
    pub aliases: Vec<&'static str>,
}

/// One command as contracts see it.
pub struct MetadataView {
    pub name: Seq<char>,
    pub handler: Option<CommandHandler>,
    pub scope: CommandScope,
    pub description: Seq<char>,
    pub aliases: Seq<Seq<char>>,
}

impl View for CommandMetadata {
    type V = MetadataView;

    open spec fn view(&self) -> MetadataView {
        MetadataView {
            name: self.name@,
            handler: self.handler,
            scope: self.scope,
            description: self.description@,
            aliases: self.aliases.deep_view(),
        }
    }
}

impl DeepView for CommandMetadata {
    type V = MetadataView;

    open spec fn deep_view(&self) -> MetadataView {
        self@
    }
}

/// Whether the entry gives the key a handler: it has one, and the key is
/// its name or one of its aliases.
pub open spec fn binds(e: MetadataView, key: Seq<char>) -> bool {
    e.handler is Some && (e.name == key || e.aliases.contains(key))
}

/// The place of the last entry of the list that binds the key.
pub open spec fn last_binding(list: Seq<MetadataView>, key: Seq<char>) -> Option<int>
    decreases list.len(),
{
    if list.len() == 0 {
        None
    } else if binds(list.last(), key) {
        Some(list.len() - 1)
    } else {
        last_binding(list.drop_last(), key)
    }
}

/// The handlers of a list of commands: every key goes to the handler of the
/// last entry that binds it.
pub open spec fn handlers_spec(list: Seq<MetadataView>) -> Map<Seq<char>, CommandHandler> {
    Map::new(
        |key: Seq<char>| last_binding(list, key) is Some,
        |key: Seq<char>| list[last_binding(list, key)->0].handler->0,
    )
}

/// The scopes of a list of commands: every key goes to the scope of the
/// last entry that binds it.
pub open spec fn scopes_spec(list: Seq<MetadataView>) -> Map<Seq<char>, CommandScope> {
    Map::new(
        |key: Seq<char>| last_binding(list, key) is Some,
        |key: Seq<char>| list[last_binding(list, key)->0].scope,
    )
}

/// The aliases of an entry as the help text shows them: nothing if there
/// are none, else the aliases in brackets after a space.
pub open spec fn aliases_part(aliases: Seq<Seq<char>>) -> Seq<char> {
    if aliases.len() == 0 {
        Seq::empty()
    } else {
        " ("@ + join_spec(aliases, ", "@) + ")"@
    }
}

/// The line of the help text for one entry.
pub open spec fn entry_line(e: MetadataView) -> Seq<char> {
    "  "@ + e.name + aliases_part(e.aliases) + " - "@ + e.description
}

/// The lines of the help text, one for each entry, in the order of the list.
pub open spec fn entry_lines(list: Seq<MetadataView>) -> Seq<Seq<char>> {
    Seq::new(list.len(), |i: int| entry_line(list[i]))
}

/// The help text: the header, then the entries' lines in lexicographic order.
pub open spec fn help_text_spec(list: Seq<MetadataView>) -> Seq<char> {
    HELP_HEADER@ + join_spec(sort_spec(entry_lines(list)), "\n"@)
}

/// The table of commands as contracts see it.
pub struct CommandMapView {
    pub handlers: Map<Seq<char>, CommandHandler>,
    pub scopes: Map<Seq<char>, CommandScope>,
    pub help_text: Seq<char>,
}

/// The table that a list of commands stands for.
pub open spec fn table_spec(list: Seq<MetadataView>) -> CommandMapView {
    CommandMapView {
        handlers: handlers_spec(list),
        scopes: scopes_spec(list),
        help_text: help_text_spec(list),
    }
}

/// The table of commands: handler and scope for every name and alias, and
/// the help text.
pub struct CommandMap {
    pub handlers: StringHashMap<CommandHandler>,
    pub scopes: StringHashMap<CommandScope>,
    pub help_text: String,
}

impl View for CommandMap {
    type V = CommandMapView;

    open spec fn view(&self) -> CommandMapView {
        CommandMapView {
            handlers: self.handlers@,
            scopes: self.scopes@,
            help_text: self.help_text@,
        }
    }
}

/// `m` with every one of `keys` set to `v`.
pub open spec fn overlay<V>(m: Map<Seq<char>, V>, keys: Seq<Seq<char>>, v: V) -> Map<
    Seq<char>,
    V,
> {
    Map::new(
        |k: Seq<char>| keys.contains(k) || m.contains_key(k),
        |k: Seq<char>|
            if keys.contains(k) {
                v
            } else {
                m[k]
            },
    )
}

proof fn lemma_overlay_push<V>(m: Map<Seq<char>, V>, keys: Seq<Seq<char>>, key: Seq<char>, v: V)
    ensures
        overlay(m, keys.push(key), v) == overlay(m, keys, v).insert(key, v),
        overlay(m, Seq::empty(), v) == m,
{
    let a = overlay(m, keys.push(key), v);
    let b = overlay(m, keys, v).insert(key, v);
    assert forall|k: Seq<char>| keys.push(key).contains(k) == (keys.contains(k) || k == key) by {
        if keys.contains(k) {
            let i = choose|i: int| 0 <= i < keys.len() && keys[i] == k;
            assert(keys.push(key)[i] == k);
        }
        if k == key {
            assert(keys.push(key)[keys.len() as int] == k);
        }
    }
    assert forall|k: Seq<char>| a.contains_key(k) == b.contains_key(k) by {
        assert(keys.push(key).contains(k) == (keys.contains(k) || k == key));
    }
    assert forall|k: Seq<char>| a.contains_key(k) implies a[k] == b[k] by {
        assert(keys.push(key).contains(k) == (keys.contains(k) || k == key));
    }
    assert(a =~= b);
    assert(!Seq::<Seq<char>>::empty().contains(key));
    assert forall|k: Seq<char>| !(#[trigger] Seq::<Seq<char>>::empty().contains(k)) by {}
    assert(overlay(m, Seq::empty(), v) =~= m);
}

/// The table of a list with one more entry at its end: the keys that the
/// entry binds go to it, the others stay.
proof fn lemma_table_push(list: Seq<MetadataView>, e: MetadataView)
    ensures
        e.handler is Some ==> handlers_spec(list.push(e)) == overlay(
            handlers_spec(list),
            e.aliases.push(e.name),
            e.handler->0,
        ),
        e.handler is Some ==> scopes_spec(list.push(e)) == overlay(
            scopes_spec(list),
            e.aliases.push(e.name),
            e.scope,
        ),
        e.handler is None ==> handlers_spec(list.push(e)) == handlers_spec(list),
        e.handler is None ==> scopes_spec(list.push(e)) == scopes_spec(list),
{
    let l2 = list.push(e);
    assert(l2.drop_last() =~= list);
    assert(l2.last() == e);
    let keys = e.aliases.push(e.name);
    assert forall|k: Seq<char>| keys.contains(k) == (e.aliases.contains(k) || k == e.name) by {
        if e.aliases.contains(k) {
            let i = choose|i: int| 0 <= i < e.aliases.len() && e.aliases[i] == k;
            assert(keys[i] == k);
        }
        if k == e.name {
            assert(keys[e.aliases.len() as int] == k);
        }
    }
    assert forall|k: Seq<char>| #![auto] last_binding(list, k) is Some implies 0
        <= last_binding(list, k)->0 < list.len() by {
        lemma_last_binding(list, k);
    }
    if e.handler is Some {
        assert(handlers_spec(l2) =~= overlay(handlers_spec(list), keys, e.handler->0));
        assert(scopes_spec(l2) =~= overlay(scopes_spec(list), keys, e.scope));
    } else {
        assert(handlers_spec(l2) =~= handlers_spec(list));
        assert(scopes_spec(l2) =~= scopes_spec(list));
    }
}

/// The last binding of a key is an entry that binds it, and no later one does.
pub proof fn lemma_last_binding(list: Seq<MetadataView>, key: Seq<char>)
    ensures
        match last_binding(list, key) {
            Some(i) => 0 <= i < list.len() && binds(list[i], key) && forall|j: int|
                i < j < list.len() ==> !binds(#[trigger] list[j], key),
            None => forall|j: int| 0 <= j < list.len() ==> !binds(#[trigger] list[j], key),
        },
    decreases list.len(),
{
    if list.len() > 0 && !binds(list.last(), key) {
        let rest = list.drop_last();
        lemma_last_binding(rest, key);
        match last_binding(rest, key) {
            Some(i) => {
                assert forall|j: int| i < j < list.len() implies !binds(
                    #[trigger] list[j],
                    key,
                ) by {
                    if j < rest.len() {
                        assert(rest[j] == list[j]);
                    }
                }
            },
            None => {
                assert forall|j: int| 0 <= j < list.len() implies !binds(
                    #[trigger] list[j],
                    key,
                ) by {
                    if j < rest.len() {
                        assert(rest[j] == list[j]);
                    }
                }
            },
        }
    }
}

/// The line of the help text for one entry.
fn format_entry(cmd: &CommandMetadata) -> (line: String)
    ensures
        line@ == entry_line(cmd@),
{
    let aliases_str = if cmd.aliases.len() > 0 {
        concat3(" (", join(cmd.aliases.as_slice(), ", ").as_str(), ")")
    } else {
        String::new()
    };
    let mut line = String::from_str("  ");
    line.append(cmd.name);
    line.append(aliases_str.as_str());
    line.append(" - ");
    line.append(cmd.description);
    assert(line@ =~= entry_line(cmd@));
    line
}

impl CommandMap {
    /// The table for a list of commands: every name and alias of an entry
    /// with a handler goes to that handler and the entry's scope, a later
    /// entry in place of an earlier one; the help text lists every entry.
    pub fn build(list: &Vec<CommandMetadata>) -> (map: CommandMap)
        ensures
            map@ == table_spec(list.deep_view()),
    {
        let mut handlers: StringHashMap<CommandHandler> = StringHashMap::new();
        let mut scopes: StringHashMap<CommandScope> = StringHashMap::new();
        let mut help_lines: Vec<String> = Vec::new();
        let ghost all = list.deep_view();
        let mut i: usize = 0;
        proof {
            assert(all.take(0) =~= Seq::<MetadataView>::empty());
            assert(handlers@ =~= handlers_spec(all.take(0)));
            assert(scopes@ =~= scopes_spec(all.take(0)));
            assert(help_lines.deep_view() =~= entry_lines(all.take(0)));
        }
        while i < list.len()
            invariant
                i <= list.len(),
                all == list.deep_view(),
                handlers@ == handlers_spec(all.take(i as int)),
                scopes@ == scopes_spec(all.take(i as int)),
                help_lines.deep_view() == entry_lines(all.take(i as int)),
            decreases list.len() - i,
        {
            let cmd = &list[i];
            let ghost e = cmd@;
            let ghost h0 = handlers@;
            let ghost s0 = scopes@;
            proof {
                assert(all[i as int] == e);
                assert(all.take(i + 1) =~= all.take(i as int).push(e));
                lemma_table_push(all.take(i as int), e);
            }
            if let Some(h) = cmd.handler {
                let mut a: usize = 0;
                proof {
                    lemma_overlay_push(h0, Seq::empty(), e.name, h);
                    lemma_overlay_push(s0, Seq::empty(), e.name, cmd.scope);
                    assert(e.aliases.take(0) =~= Seq::<Seq<char>>::empty());
                }
                while a < cmd.aliases.len()
                    invariant
                        a <= cmd.aliases.len(),
                        e == cmd@,
                        handlers@ == overlay(h0, e.aliases.take(a as int), h),
                        scopes@ == overlay(s0, e.aliases.take(a as int), cmd.scope),
                    decreases cmd.aliases.len() - a,
                {
                    proof {
                        let key = e.aliases[a as int];
                        assert(key == cmd.aliases@[a as int]@);
                        assert(e.aliases.take(a + 1) =~= e.aliases.take(a as int).push(key));
                        lemma_overlay_push(h0, e.aliases.take(a as int), key, h);
                        lemma_overlay_push(s0, e.aliases.take(a as int), key, cmd.scope);
                    }
                    handlers.insert(String::from_str(cmd.aliases[a]), h);
                    scopes.insert(String::from_str(cmd.aliases[a]), cmd.scope);
                    a += 1;
                }
                proof {
                    assert(e.aliases.take(a as int) =~= e.aliases);
                    lemma_overlay_push(h0, e.aliases, e.name, h);
                    lemma_overlay_push(s0, e.aliases, e.name, cmd.scope);
                }
                handlers.insert(String::from_str(cmd.name), h);
                scopes.insert(String::from_str(cmd.name), cmd.scope);
            }
            let line = format_entry(cmd);
            let ghost lines0 = help_lines.deep_view();
            help_lines.push(line);
            proof {
                assert(help_lines.deep_view() =~= lines0.push(line@));
                assert(entry_lines(all.take(i + 1)) =~= entry_lines(all.take(i as int)).push(
                    entry_line(e),
                ));
            }
            i += 1;
        }
        assert(all.take(i as int) =~= all);
        let sorted_lines = sort_strings(&help_lines);
        let line_refs = as_strs(&sorted_lines);
        let body = join(line_refs.as_slice(), "\n");
        let help_text = concat2(HELP_HEADER, body.as_str());
        CommandMap { handlers, scopes, help_text }
    }
}

/// An entry of the list of commands.
pub open spec fn entry(
    name: Seq<char>,
    handler: Option<CommandHandler>,
    scope: CommandScope,
    description: Seq<char>,
    aliases: Seq<Seq<char>>,
) -> MetadataView {
    MetadataView { name, handler, scope, description, aliases }
}

/// The commands of the game. `quit` is listed for the help text only: the
/// connection answers it before a line reaches the world.
pub open spec fn command_list_spec() -> Seq<MetadataView> {
    seq![
        entry(
            "east"@,
            Some(CommandHandler::East),
            CommandScope::ActiveOnly,
            "Move east"@,
            seq!["e"@],
        ),
        entry(
            "help"@,
            Some(CommandHandler::Help),
            CommandScope::Any,
            "Show this help message"@,
            seq![],
        ),
        entry(
            "look"@,
            Some(CommandHandler::Look),
            CommandScope::ActiveOnly,
            "Look around the current room"@,
            seq!["l"@],
        ),
        entry(
            "north"@,
            Some(CommandHandler::North),
            CommandScope::ActiveOnly,
            "Move north"@,
            seq!["n"@],
        ),
        entry("quit"@, None, CommandScope::Any, "Disconnect from the game"@, seq![]),
        entry(
            "say"@,
            Some(CommandHandler::Say),
            CommandScope::ActiveOnly,
            "Speak aloud to others in the room"@,
            seq![],
        ),
        entry(
            "shout"@,
            Some(CommandHandler::Shout),
            CommandScope::ActiveOnly,
            "Shout to everyone in your zone"@,
            seq![],
        ),
        entry(
            "south"@,
            Some(CommandHandler::South),
            CommandScope::ActiveOnly,
            "Move south"@,
            seq!["s"@],
        ),
        entry(
            "west"@,
            Some(CommandHandler::West),
            CommandScope::ActiveOnly,
            "Move west"@,
            seq!["w"@],
        ),
        entry(
            "where"@,
            Some(CommandHandler::Where),
            CommandScope::ActiveOnly,
            "Show which zone you are in"@,
            seq![],
        ),
    ]
}

/// One entry of the list of commands.
fn command(
    name: &'static str,
    handler: Option<CommandHandler>,
    scope: CommandScope,
    description: &'static str,
    alias: Option<&'static str>,
) -> (cmd: CommandMetadata)
    ensures
        cmd@ == entry(
            name@,
            handler,
            scope,
            description@,
            match alias {
                Some(a) => seq![a@],
                None => seq![],
            },
        ),
{
    let mut aliases: Vec<&'static str> = Vec::new();
    if let Some(a) = alias {
        aliases.push(a);
    }
    let cmd = CommandMetadata { name, handler, scope, description, aliases };
    assert(cmd@.aliases =~= match alias {
        Some(a) => seq![a@],
        None => seq![],
    });
    cmd
}

/// The commands of the game.
pub fn command_list() -> (list: Vec<CommandMetadata>)
    ensures
        list.deep_view() == command_list_spec(),
{
    let active = CommandScope::ActiveOnly;
    let mut list: Vec<CommandMetadata> = Vec::new();
    list.push(command("east", Some(CommandHandler::East), active, "Move east", Some("e")));
    list.push(
        command(
            "help",
            Some(CommandHandler::Help),
            CommandScope::Any,
            "Show this help message",
            None,
        ),
    );
    list.push(
        command(
            "look",
            Some(CommandHandler::Look),
            active,
            "Look around the current room",
            Some("l"),
        ),
    );
    list.push(command("north", Some(CommandHandler::North), active, "Move north", Some("n")));
    list.push(command("quit", None, CommandScope::Any, "Disconnect from the game", None));
    list.push(
        command(
            "say",
            Some(CommandHandler::Say),
            active,
            "Speak aloud to others in the room",
            None,
        ),
    );
    list.push(
        command(
            "shout",
            Some(CommandHandler::Shout),
            active,
            "Shout to everyone in your zone",
            None,
        ),
    );
    list.push(command("south", Some(CommandHandler::South), active, "Move south", Some("s")));
    list.push(command("west", Some(CommandHandler::West), active, "Move west", Some("w")));
    list.push(
        command(
            "where",
            Some(CommandHandler::Where),
            active,
            "Show which zone you are in",
            None,
        ),
    );
    assert(list.deep_view() =~= command_list_spec());
    list
}

impl CommandMap {
    /// The table of the commands of the game.
    pub fn new() -> (map: CommandMap)
        ensures
            map@ == table_spec(command_list_spec()),
    {
        let list = command_list();
        CommandMap::build(&list)
    }
}

/// Shows the player the help text.
pub fn cmd_help(player: PlayerId, world: &mut World, help_text: &str)
    requires
        old(world).wf(),
    ensures
        final(world).wf(),
        final(world)@ == old(world)@.with_output(player, help_text@),
{
    world.write_output(player, String::from_str(help_text));
}

/// What a handler does to the world.
pub open spec fn handler_step(
    handler: CommandHandler,
    w: WorldView,
    help_text: Seq<char>,
    player: PlayerId,
    args: Seq<Seq<char>>,
) -> WorldView {
    match handler {
        CommandHandler::East => move_step(w, player, StdExits::East),
        CommandHandler::Help => w.with_output(player, help_text),
        CommandHandler::Look => look_step(w, player),
        CommandHandler::North => move_step(w, player, StdExits::North),
        CommandHandler::Say => say_step(w, player, args),
        CommandHandler::Shout => shout_step(w, player, args),
        CommandHandler::South => move_step(w, player, StdExits::South),
        CommandHandler::West => move_step(w, player, StdExits::West),
        CommandHandler::Where => where_step(w, player),
    }
}

/// Whether a player in this state may use a command of this scope.
pub open spec fn allowed(scope: CommandScope, state: Option<PlayerState>) -> bool {
    scope == CommandScope::Any || state == Some(PlayerState::Active)
}

/// The scope of a command; a command without a scope of its own is for
/// active players only.
pub open spec fn scope_of(map: CommandMapView, name: Seq<char>) -> CommandScope {
    if map.scopes.contains_key(name) {
        map.scopes[name]
    } else {
        CommandScope::ActiveOnly
    }
}

/// What a command does to the world, given its name in lower case and its
/// arguments. An unknown command is reported to the player. A command that
/// the player may not use yet is refused. Else the handler runs.
pub open spec fn command_result(
    w: WorldView,
    map: CommandMapView,
    player: PlayerId,
    name: Seq<char>,
    args: Seq<Seq<char>>,
) -> WorldView {
    if !map.handlers.contains_key(name) {
        w.with_output(player, MSG_UNKNOWN@ + name)
    } else if !allowed(scope_of(map, name), w.state_of(player)) {
        w.with_output(player, MSG_NOT_NOW@)
    } else {
        handler_step(map.handlers[name], w, map.help_text, player, args)
    }
}

/// The name of the command that a line of words asks for: the first word in
/// lower case, or the default command if there is no word.
pub open spec fn command_name_of(tokens: Seq<Seq<char>>) -> Seq<char> {
    if tokens.len() == 0 {
        DEFAULT_COMMAND@
    } else {
        str_to_lowercase(tokens[0])
    }
}

/// The arguments of a line of words: all words but the first.
pub open spec fn args_of(tokens: Seq<Seq<char>>) -> Seq<Seq<char>> {
    if tokens.len() == 0 {
        Seq::empty()
    } else {
        tokens.skip(1)
    }
}

/// What a line of input from an onboarded player does to the world.
pub open spec fn dispatch_step(
    w: WorldView,
    map: CommandMapView,
    player: PlayerId,
    input: Seq<char>,
) -> WorldView {
    command_result(
        w,
        map,
        player,
        command_name_of(tokens_spec(input)),
        args_of(tokens_spec(input)),
    )
}

/// Runs a handler.
pub fn run_handler(
    handler: CommandHandler,
    map: &CommandMap,
    player: PlayerId,
    world: &mut World,
    full: &str,
    args: &[&str],
)
    requires
        old(world).wf(),
    ensures
        final(world).wf(),
        final(world)@ == handler_step(
            handler,
            old(world)@,
            map@.help_text,
            player,
            args.deep_view(),
        ),
{
    match handler {
        CommandHandler::East => cmd_east(player, world, full, args),
        CommandHandler::Help => cmd_help(player, world, map.help_text.as_str()),
        CommandHandler::Look => cmd_look(player, world, full, args),
        CommandHandler::North => cmd_north(player, world, full, args),
        CommandHandler::Say => cmd_say(player, world, full, args),
        CommandHandler::Shout => cmd_shout(player, world, full, args),
        CommandHandler::South => cmd_south(player, world, full, args),
        CommandHandler::West => cmd_west(player, world, full, args),
        CommandHandler::Where => cmd_where(player, world, full, args),
    }
}

/// Runs the command of the given name, which is looked up as it stands,
/// for the player: reports an unknown command, refuses one that the player
/// may not use yet, and else runs the handler.
pub fn run_command(
    map: &CommandMap,
    player: PlayerId,
    world: &mut World,
    command_name: &str,
    full: &str,
    args: &[&str],
)
    requires
        old(world).wf(),
    ensures
        final(world).wf(),
        final(world)@ == command_result(
            old(world)@,
            map@,
            player,
            command_name@,
            args.deep_view(),
        ),
{
    let handler_opt = match map.handlers.get(command_name) {
        Some(h) => Some(*h),
        None => None,
    };
    let scope = match map.scopes.get(command_name) {
        Some(s) => *s,
        None => CommandScope::ActiveOnly,
    };
    match handler_opt {
        Some(handler) => {
            let permitted = match scope {
                CommandScope::Any => true,
                CommandScope::ActiveOnly => match world.state_of(player) {
                    Some(PlayerState::Active) => true,
                    _ => false,
                },
            };
            if permitted {
                run_handler(handler, map, player, world, full, args);
            } else {
                world.write_output(player, String::from_str(MSG_NOT_NOW));
            }
        },
        None => {
            world.write_output(player, concat2(MSG_UNKNOWN, command_name));
        },
    }
}

/// Splits a line of input into words, takes the first in lower case as the
/// command's name (the default command for an empty line) and the others
/// as its arguments, and runs the command.
pub fn dispatch(map: &CommandMap, player: PlayerId, world: &mut World, input: &str)
    requires
        old(world).wf(),
    ensures
        final(world).wf(),
        final(world)@ == dispatch_step(old(world)@, map@, player, input@),
{
    let words = split_whitespace(input);
    let command_name = if words.len() == 0 {
        String::from_str(DEFAULT_COMMAND)
    } else {
        assert(words.deep_view()[0] == words@[0]@);
        to_lowercase(words[0].as_str())
    };
    let mut args: Vec<&str> = Vec::new();
    let mut i: usize = 1;
    while i < words.len()
        invariant
            1 <= i,
            i <= words.len() || words.len() == 0,
            words.len() > 0 ==> args.len() == i - 1,
            words.len() == 0 ==> args.len() == 0,
            forall|k: int| 0 <= k < args.len() ==> args@[k]@ == words@[k + 1]@,
        decreases words.len() - i,
    {
        args.push(words[i].as_str());
        i += 1;
    }
    let arg_slice = args.as_slice();
    assert(arg_slice.deep_view() =~= args_of(words.deep_view()));
    run_command(map, player, world, command_name.as_str(), input, arg_slice);
}

/// A key that exactly one entry binds goes to that entry's handler and scope.
pub proof fn lemma_single_binding(list: Seq<MetadataView>, i: int, key: Seq<char>)
    requires
        0 <= i < list.len(),
        binds(list[i], key),
        forall|j: int| 0 <= j < list.len() && j != i ==> !binds(#[trigger] list[j], key),
    ensures
        last_binding(list, key) == Some(i),
        table_spec(list).handlers.contains_key(key),
        Some(table_spec(list).handlers[key]) == list[i].handler,
        table_spec(list).scopes.contains_key(key),
        table_spec(list).scopes[key] == list[i].scope,
{
    lemma_last_binding(list, key);
}

/// The names and aliases of the game's commands are all different.
proof fn lemma_keys_differ()
    ensures
        forall|i: int, j: int, key: Seq<char>|
            #![trigger binds(command_list_spec()[i], key), binds(command_list_spec()[j], key)]
            0 <= i < command_list_spec().len() && 0 <= j < command_list_spec().len() && i != j
                && binds(command_list_spec()[i], key) ==> !binds(command_list_spec()[j], key),
{
    reveal_strlit("east");
    reveal_strlit("e");
    reveal_strlit("help");
    reveal_strlit("look");
    reveal_strlit("l");
    reveal_strlit("north");
    reveal_strlit("n");
    reveal_strlit("quit");
    reveal_strlit("say");
    reveal_strlit("shout");
    reveal_strlit("south");
    reveal_strlit("s");
    reveal_strlit("west");
    reveal_strlit("w");
    reveal_strlit("where");
    let list = command_list_spec();
    assert forall|i: int, j: int, key: Seq<char>|
        #![trigger binds(command_list_spec()[i], key), binds(command_list_spec()[j], key)]
        0 <= i < list.len() && 0 <= j < list.len() && i != j && binds(list[i], key) implies !binds(
        list[j],
        key,
    ) by {
        lemma_key_shape(i, key);
        if binds(list[j], key) {
            lemma_key_shape(j, key);
        }
    }
}

/// The first and the fourth character of a key tell which of the game's
/// commands binds it.
proof fn lemma_key_shape(i: int, key: Seq<char>)
    requires
        0 <= i < command_list_spec().len(),
        binds(command_list_spec()[i], key),
    ensures
        key.len() >= 1,
        i == 0 ==> key[0] == 'e',
        i == 1 ==> key[0] == 'h',
        i == 2 ==> key[0] == 'l',
        i == 3 ==> key[0] == 'n',
        i == 4 ==> false,
        i == 5 ==> key[0] == 's' && key.len() == 3,
        i == 6 ==> key[0] == 's' && key.len() == 5 && key[1] == 'h',
        i == 7 ==> key[0] == 's' && ((key.len() == 5 && key[1] == 'o') || key.len() == 1),
        i == 8 ==> key[0] == 'w' && (key.len() == 4 || key.len() == 1),
        i == 9 ==> key[0] == 'w' && key.len() == 5,
{
    reveal_strlit("east");
    reveal_strlit("e");
    reveal_strlit("help");
    reveal_strlit("look");
    reveal_strlit("l");
    reveal_strlit("north");
    reveal_strlit("n");
    reveal_strlit("quit");
    reveal_strlit("say");
    reveal_strlit("shout");
    reveal_strlit("south");
    reveal_strlit("s");
    reveal_strlit("west");
    reveal_strlit("w");
    reveal_strlit("where");
    let e = command_list_spec()[i];
    if e.aliases.contains(key) {
        let k = choose|k: int| 0 <= k < e.aliases.len() && e.aliases[k] == key;
        assert(e.aliases[k] == key);
    }
}

/// In the table of the game's commands every alias goes where the name of
/// its command goes: to the handler and the scope of that command.
pub proof fn lemma_alias_resolves(i: int, a: int)
    requires
        0 <= i < command_list_spec().len(),
        0 <= a < command_list_spec()[i].aliases.len(),
    ensures
        ({
            let list = command_list_spec();
            let table = table_spec(list);
            let alias = list[i].aliases[a];
            let name = list[i].name;
            &&& table.handlers.contains_key(alias)
            &&& table.handlers.contains_key(name)
            &&& table.handlers[alias] == table.handlers[name]
            &&& Some(table.handlers[name]) == list[i].handler
            &&& table.scopes[alias] == table.scopes[name]
            &&& table.scopes[name] == list[i].scope
        }),
{
    let list = command_list_spec();
    let alias = list[i].aliases[a];
    let name = list[i].name;
    assert(list[i].handler is Some);
    assert(list[i].aliases.contains(alias));
    assert(binds(list[i], alias));
    assert(binds(list[i], name));
    lemma_keys_differ();
    assert forall|j: int| 0 <= j < list.len() && j != i implies !binds(
        #[trigger] list[j],
        alias,
    ) by {
        assert(binds(command_list_spec()[i], alias));
    }
    assert forall|j: int| 0 <= j < list.len() && j != i implies !binds(
        #[trigger] list[j],
        name,
    ) by {
        assert(binds(command_list_spec()[i], name));
    }
    lemma_single_binding(list, i, alias);
    lemma_single_binding(list, i, name);
}

/// The help text holds one line for every entry of the list, be it with
/// or without a handler, and no other line; the lines stand in
/// lexicographic order. An alias shows in the line of its entry only.
pub proof fn lemma_help_lines(list: Seq<MetadataView>)
    ensures
        sort_spec(entry_lines(list)).len() == list.len(),
        sorted(sort_spec(entry_lines(list))),
        sort_spec(entry_lines(list)).to_multiset() == entry_lines(list).to_multiset(),
{
    lemma_sort_spec(entry_lines(list));
}

} // verus!
