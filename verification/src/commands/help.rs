//! What the help text shows: every command under its name, once, and no
//! alias in the place of a name.

use crate::commands::{
    aliases_part, command_list_spec, entry_line, entry_lines, MetadataView,
};
use crate::order::{lemma_sort_spec, sort_spec};
use crate::text::free_of;
use vstd::prelude::*;

verus! {

/// Whether the line is headed by the name: it starts with two spaces and
/// the name, and goes on with the aliases in brackets or with the dash
/// before the description.
pub open spec fn line_names(line: Seq<char>, name: Seq<char>) -> bool {
    ("  "@ + name + " ("@).is_prefix_of(line) || ("  "@ + name + " - "@).is_prefix_of(line)
}

/// The lines of the help text of a list of commands, as they stand under
/// the header.
pub open spec fn help_lines(list: Seq<MetadataView>) -> Seq<Seq<char>> {
    sort_spec(entry_lines(list))
}

/// The line of an entry is headed by the entry's name and by no other
/// word: a word without a space heads the line only if it is the name.
pub proof fn lemma_entry_line_names(e: MetadataView, key: Seq<char>)
    requires
        free_of(e.name, ' '),
        free_of(key, ' '),
    ensures
        line_names(entry_line(e), key) <==> key == e.name,
{
    reveal_strlit("  ");
    reveal_strlit(" (");
    reveal_strlit(" - ");
    reveal_strlit(")");
    let line = entry_line(e);
    let m = e.name.len() as int;
    let k = key.len() as int;
    let rest = aliases_part(e.aliases) + " - "@ + e.description;
    assert(line =~= "  "@ + e.name + rest);
    assert(rest.len() >= 3);
    assert(rest[0] == ' ');
    assert(line[2 + m] == ' ');
    assert forall|i: int| 0 <= i < m implies line[2 + i] == e.name[i] by {}
    if e.aliases.len() == 0 {
        assert(rest[1] == '-' && rest[2] == ' ');
        let p = "  "@ + e.name + " - "@;
        assert(p =~= line.subrange(0, p.len() as int));
    } else {
        assert(rest[1] == '(');
        let p = "  "@ + e.name + " ("@;
        assert(p =~= line.subrange(0, p.len() as int));
    }
    assert(line_names(line, e.name));
    if line_names(line, key) {
        let p = if ("  "@ + key + " ("@).is_prefix_of(line) {
            "  "@ + key + " ("@
        } else {
            "  "@ + key + " - "@
        };
        assert(p.is_prefix_of(line));
        assert(p.len() >= 2 + k + 2);
        assert forall|i: int| 0 <= i < p.len() implies p[i] == line[i] by {
            assert(p[i] == line.subrange(0, p.len() as int)[i]);
        }
        assert(p[2 + k] == ' ');
        assert forall|i: int| 0 <= i < k implies p[2 + i] == key[i] by {}
        if k < m {
            assert(line[2 + k] == e.name[k]);
            assert(p[2 + k] == line[2 + k]);
        }
        if m < k {
            assert(p[2 + m] == key[m]);
            assert(p[2 + m] == line[2 + m]);
        }
        assert(k == m);
        assert forall|i: int| 0 <= i < k implies key[i] == e.name[i] by {
            assert(p[2 + i] == line[2 + i]);
        }
        assert(key =~= e.name);
    }
}

/// In a list of commands whose names hold no space and differ from each
/// other, every command has its line in the help text, and that line is
/// the only one that its name heads: each command is listed exactly once.
pub proof fn lemma_listed_once(list: Seq<MetadataView>, i: int)
    requires
        0 <= i < list.len(),
        forall|a: int| 0 <= a < list.len() ==> free_of((#[trigger] list[a]).name, ' '),
        forall|a: int, b: int|
            0 <= a < b < list.len() ==> (#[trigger] list[a]).name != (#[trigger] list[b]).name,
    ensures
        exists|j: int|
            0 <= j < help_lines(list).len() && #[trigger] help_lines(list)[j] == entry_line(
                list[i],
            ) && line_names(help_lines(list)[j], list[i].name) && forall|k: int|
                0 <= k < help_lines(list).len() && line_names(
                    #[trigger] help_lines(list)[k],
                    list[i].name,
                ) ==> k == j,
{
    broadcast use vstd::seq_lib::group_to_multiset_ensures;

    let all = entry_lines(list);
    let lines = help_lines(list);
    let name = list[i].name;
    lemma_sort_spec(all);
    assert forall|a: int, b: int| 0 <= a < all.len() && 0 <= b < all.len() && a
        != b implies all[a] != all[b] by {
        lemma_entry_line_names(list[a], list[a].name);
        lemma_entry_line_names(list[b], list[a].name);
        if a < b {
            assert(list[a].name != list[b].name);
        } else {
            assert(list[b].name != list[a].name);
        }
    }
    all.lemma_multiset_has_no_duplicates();
    lines.lemma_multiset_has_no_duplicates_conv();
    assert(all[i] == entry_line(list[i]));
    assert(all.contains(all[i]));
    assert(lines.to_multiset().count(all[i]) > 0);
    assert(lines.contains(all[i]));
    let j = choose|j: int| 0 <= j < lines.len() && lines[j] == all[i];
    lemma_entry_line_names(list[i], name);
    assert forall|k: int| 0 <= k < lines.len() && line_names(
        #[trigger] lines[k],
        name,
    ) implies k == j by {
        lemma_line_of_entry(list, k);
        let at = choose|at: int| 0 <= at < list.len() && lines[k] == entry_line(list[at]);
        lemma_entry_line_names(list[at], name);
        if at < i {
            assert(list[at].name != list[i].name);
        }
        if i < at {
            assert(list[i].name != list[at].name);
        }
        assert(lines[k] == lines[j]);
    }
}

/// Every line of the help text is the line of an entry of the list.
pub proof fn lemma_line_of_entry(list: Seq<MetadataView>, k: int)
    requires
        0 <= k < help_lines(list).len(),
    ensures
        exists|at: int|
            0 <= at < list.len() && help_lines(list)[k] == entry_line(#[trigger] list[at]),
{
    broadcast use vstd::seq_lib::group_to_multiset_ensures;

    let all = entry_lines(list);
    let lines = help_lines(list);
    lemma_sort_spec(all);
    assert(lines.contains(lines[k]));
    assert(all.to_multiset().count(lines[k]) > 0);
    assert(all.contains(lines[k]));
    let at = choose|at: int| 0 <= at < all.len() && all[at] == lines[k];
    assert(lines[k] == entry_line(list[at]));
}

/// The names and aliases of the game's commands hold no space, the names
/// differ from each other, and no alias is a name.
proof fn lemma_game_words()
    ensures
        forall|a: int|
            0 <= a < command_list_spec().len() ==> free_of(
                (#[trigger] command_list_spec()[a]).name,
                ' ',
            ),
        forall|a: int, b: int|
            0 <= a < b < command_list_spec().len() ==> (#[trigger] command_list_spec()[a]).name
                != (#[trigger] command_list_spec()[b]).name,
        forall|a: int, x: int, b: int|
            0 <= a < command_list_spec().len() && 0 <= x < command_list_spec()[a].aliases.len()
                && 0 <= b < command_list_spec().len() ==> free_of(
                #[trigger] command_list_spec()[a].aliases[x],
                ' ',
            ) && command_list_spec()[a].aliases[x] != (#[trigger] command_list_spec()[b]).name,
{
    reveal_strlit("east");
    reveal_strlit("e");
    reveal_strlit("help");
    reveal_strlit("look");
    reveal_strlit("l");
    reveal_strlit("north");
    reveal_strlit("n");
    reveal_strlit("quit");
    reveal_strlit("say");
    reveal_strlit("shout");
    reveal_strlit("south");
    reveal_strlit("s");
    reveal_strlit("west");
    reveal_strlit("w");
    reveal_strlit("where");
    let list = command_list_spec();
    assert forall|a: int| 0 <= a < list.len() implies free_of((#[trigger] list[a]).name, ' ') by {
        lemma_name_shape(a);
    }
    assert forall|a: int, b: int| 0 <= a < b < list.len() implies (#[trigger] list[a]).name != (
    #[trigger] list[b]).name by {
        lemma_name_shape(a);
        lemma_name_shape(b);
    }
    assert forall|a: int, x: int, b: int|
        0 <= a < list.len() && 0 <= x < list[a].aliases.len() && 0 <= b
            < list.len() implies free_of(#[trigger] list[a].aliases[x], ' ')
        && list[a].aliases[x] != (#[trigger] list[b]).name by {
        lemma_name_shape(b);
        assert(list[a].aliases[x].len() == 1);
    }
}

/// The length and the letters that tell the names of the game's commands
/// apart.
proof fn lemma_name_shape(a: int)
    requires
        0 <= a < command_list_spec().len(),
    ensures
        ({
            let name = command_list_spec()[a].name;
            &&& free_of(name, ' ')
            &&& name.len() >= 3
            &&& a == 0 ==> name[0] == 'e'
            &&& a == 1 ==> name[0] == 'h'
            &&& a == 2 ==> name[0] == 'l'
            &&& a == 3 ==> name[0] == 'n'
            &&& a == 4 ==> name[0] == 'q'
            &&& a == 5 ==> name[0] == 's' && name.len() == 3
            &&& a == 6 ==> name[0] == 's' && name.len() == 5 && name[1] == 'h'
            &&& a == 7 ==> name[0] == 's' && name.len() == 5 && name[1] == 'o'
            &&& a == 8 ==> name[0] == 'w' && name.len() == 4
            &&& a == 9 ==> name[0] == 'w' && name.len() == 5
        }),
{
    reveal_strlit("east");
    reveal_strlit("help");
    reveal_strlit("look");
    reveal_strlit("north");
    reveal_strlit("quit");
    reveal_strlit("say");
    reveal_strlit("shout");
    reveal_strlit("south");
    reveal_strlit("west");
    reveal_strlit("where");
}

/// The help text of the game lists every command exactly once: for each
/// command, with or without a handler, one line is headed by its name,
/// and no other line is.
pub proof fn lemma_help_lists_each_command_once(i: int)
    requires
        0 <= i < command_list_spec().len(),
    ensures
        help_lines(command_list_spec()).len() == command_list_spec().len(),
        exists|j: int|
            0 <= j < help_lines(command_list_spec()).len() && #[trigger] help_lines(
                command_list_spec(),
            )[j] == entry_line(command_list_spec()[i]) && line_names(
                help_lines(command_list_spec())[j],
                command_list_spec()[i].name,
            ) && forall|k: int|
                0 <= k < help_lines(command_list_spec()).len() && line_names(
                    #[trigger] help_lines(command_list_spec())[k],
                    command_list_spec()[i].name,
                ) ==> k == j,
{
    lemma_game_words();
    lemma_sort_spec(entry_lines(command_list_spec()));
    lemma_listed_once(command_list_spec(), i);
}

/// The help text of the game lists no alias as a command of its own: no
/// line is headed by an alias.
pub proof fn lemma_help_heads_no_alias(i: int, x: int, k: int)
    requires
        0 <= i < command_list_spec().len(),
        0 <= x < command_list_spec()[i].aliases.len(),
        0 <= k < help_lines(command_list_spec()).len(),
    ensures
        !line_names(help_lines(command_list_spec())[k], command_list_spec()[i].aliases[x]),
{
    let list = command_list_spec();
    let alias = list[i].aliases[x];
    lemma_game_words();
    lemma_line_of_entry(list, k);
    let at = choose|at: int|
        0 <= at < list.len() && help_lines(list)[k] == entry_line(#[trigger] list[at]);
    assert(free_of(list[i].aliases[x], ' ') && list[i].aliases[x] != list[at].name);
    lemma_entry_line_names(list[at], alias);
}

} // verus!
