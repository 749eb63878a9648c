//! What a typed line means: the command that [`crate::command::parse_command`]
//! reads from it, stated over the text of the line, for every argument.
use vstd::prelude::*;

use crate::command::{CommandView, command_of, id_and_name};
use crate::laws::{lemma_decimal_digits, lemma_decimal_reads_back};
use crate::text::decimal;
use crate::words::{
    after_first_word, after_space, before_space, first_word, is_white_space, parse_u32, space_index, trim, trim_end,
    trim_start, white_space_index,
};

verus! {

/// The names of the commands, character by character.
proof fn lemma_command_names()
    ensures
        "add"@ == seq!['a', 'd', 'd'],
        "done"@ == seq!['d', 'o', 'n', 'e'],
        "remove"@ == seq!['r', 'e', 'm', 'o', 'v', 'e'],
        "progress"@ == seq!['p', 'r', 'o', 'g', 'r', 'e', 's', 's'],
        "filter"@ == seq!['f', 'i', 'l', 't', 'e', 'r'],
        "status"@ == seq!['s', 't', 'a', 't', 'u', 's'],
        "list"@ == seq!['l', 'i', 's', 't'],
        "quit"@ == seq!['q', 'u', 'i', 't'],
        "help"@ == seq!['h', 'e', 'l', 'p'],
        "?"@ == seq!['?'],
        "bimport"@ == seq!['b', 'i', 'm', 'p', 'o', 'r', 't'],
        "bcreate"@ == seq!['b', 'c', 'r', 'e', 'a', 't', 'e'],
        "badd"@ == seq!['b', 'a', 'd', 'd'],
        "bdone"@ == seq!['b', 'd', 'o', 'n', 'e'],
        "bprogress"@ == seq!['b', 'p', 'r', 'o', 'g', 'r', 'e', 's', 's'],
        "blist"@ == seq!['b', 'l', 'i', 's', 't'],
        "blists"@ == seq!['b', 'l', 'i', 's', 't', 's'],
        "ball"@ == seq!['b', 'a', 'l', 'l'],
        "bassign"@ == seq!['b', 'a', 's', 's', 'i', 'g', 'n'],
        "bunassign"@ == seq!['b', 'u', 'n', 'a', 's', 's', 'i', 'g', 'n'],
        "bremove"@ == seq!['b', 'r', 'e', 'm', 'o', 'v', 'e'],
        "bdelete"@ == seq!['b', 'd', 'e', 'l', 'e', 't', 'e'],
        "bwhere"@ == seq!['b', 'w', 'h', 'e', 'r', 'e'],
{
    reveal_strlit("add");
    reveal_strlit("done");
    reveal_strlit("remove");
    reveal_strlit("progress");
    reveal_strlit("filter");
    reveal_strlit("status");
    reveal_strlit("list");
    reveal_strlit("quit");
    reveal_strlit("help");
    reveal_strlit("?");
    reveal_strlit("bimport");
    reveal_strlit("bcreate");
    reveal_strlit("badd");
    reveal_strlit("bdone");
    reveal_strlit("bprogress");
    reveal_strlit("blist");
    reveal_strlit("blists");
    reveal_strlit("ball");
    reveal_strlit("bassign");
    reveal_strlit("bunassign");
    reveal_strlit("bremove");
    reveal_strlit("bdelete");
    reveal_strlit("bwhere");
    assert("add"@ =~= seq!['a', 'd', 'd']);
    assert("done"@ =~= seq!['d', 'o', 'n', 'e']);
    assert("remove"@ =~= seq!['r', 'e', 'm', 'o', 'v', 'e']);
    assert("progress"@ =~= seq!['p', 'r', 'o', 'g', 'r', 'e', 's', 's']);
    assert("filter"@ =~= seq!['f', 'i', 'l', 't', 'e', 'r']);
    assert("status"@ =~= seq!['s', 't', 'a', 't', 'u', 's']);
    assert("list"@ =~= seq!['l', 'i', 's', 't']);
    assert("quit"@ =~= seq!['q', 'u', 'i', 't']);
    assert("help"@ =~= seq!['h', 'e', 'l', 'p']);
    assert("?"@ =~= seq!['?']);
    assert("bimport"@ =~= seq!['b', 'i', 'm', 'p', 'o', 'r', 't']);
    assert("bcreate"@ =~= seq!['b', 'c', 'r', 'e', 'a', 't', 'e']);
    assert("badd"@ =~= seq!['b', 'a', 'd', 'd']);
    assert("bdone"@ =~= seq!['b', 'd', 'o', 'n', 'e']);
    assert("bprogress"@ =~= seq!['b', 'p', 'r', 'o', 'g', 'r', 'e', 's', 's']);
    assert("blist"@ =~= seq!['b', 'l', 'i', 's', 't']);
    assert("blists"@ =~= seq!['b', 'l', 'i', 's', 't', 's']);
    assert("ball"@ =~= seq!['b', 'a', 'l', 'l']);
    assert("bassign"@ =~= seq!['b', 'a', 's', 's', 'i', 'g', 'n']);
    assert("bunassign"@ =~= seq!['b', 'u', 'n', 'a', 's', 's', 'i', 'g', 'n']);
    assert("bremove"@ =~= seq!['b', 'r', 'e', 'm', 'o', 'v', 'e']);
    assert("bdelete"@ =~= seq!['b', 'd', 'e', 'l', 'e', 't', 'e']);
    assert("bwhere"@ =~= seq!['b', 'w', 'h', 'e', 'r', 'e']);
}

/// A word without white space, a space, then anything: the word is the
/// first word, and the rest is what follows it.
proof fn lemma_first_word_of(w: Seq<char>, s: Seq<char>)
    requires
        forall|i: int| 0 <= i < w.len() ==> !is_white_space(#[trigger] w[i]),
    ensures
        first_word(w + seq![' '] + s) == w,
        after_first_word(w + seq![' '] + s) == s,
    decreases w.len(),
{
    let line = w + seq![' '] + s;
    lemma_white_space_index_of(w, s);
    assert(line.take(w.len() as int) =~= w);
    assert(line.skip(w.len() + 1int) =~= s);
}

proof fn lemma_white_space_index_of(w: Seq<char>, s: Seq<char>)
    requires
        forall|i: int| 0 <= i < w.len() ==> !is_white_space(#[trigger] w[i]),
    ensures
        white_space_index(w + seq![' '] + s) == w.len(),
    decreases w.len(),
{
    let line = w + seq![' '] + s;
    if w.len() == 0 {
        assert(line[0] == ' ');
    } else {
        assert(line[0] == w[0]);
        let rest = w.drop_first();
        assert forall|i: int| 0 <= i < rest.len() implies !is_white_space(#[trigger] rest[i]) by {
            assert(rest[i] == w[i + 1]);
        }
        lemma_white_space_index_of(rest, s);
        assert(line.drop_first() =~= rest + seq![' '] + s);
    }
}

/// The line `<name> <s>` for a command name: its first word is the name and
/// its argument is `s` trimmed.
proof fn lemma_command_line(name: Seq<char>, s: Seq<char>)
    requires
        forall|i: int| 0 <= i < name.len() ==> !is_white_space(#[trigger] name[i]),
    ensures
        first_word(name + seq![' '] + s) == name,
        trim(after_first_word(name + seq![' '] + s)) == trim(s),
{
    lemma_first_word_of(name, s);
}

/// A text with no white space at either end is its own trim.
proof fn lemma_trim_of_word(s: Seq<char>)
    requires
        s.len() > 0,
        !is_white_space(s[0]),
        !is_white_space(s.last()),
    ensures
        trim(s) == s,
{
    assert(trim_start(s) == s);
    assert(trim_end(s) == s);
}

/// `bcreate <s>` creates the list whose name is all of `s`, trimmed, spaces
/// inside it included.
pub proof fn lemma_bcreate_names_the_whole_argument(s: Seq<char>)
    requires
        trim(s).len() > 0,
    ensures
        command_of("bcreate "@ + s) == CommandView::BoardCreate(trim(s)),
{
    lemma_command_names();
    reveal_strlit("bcreate ");
    let name = seq!['b', 'c', 'r', 'e', 'a', 't', 'e'];
    assert("bcreate "@ =~= name + seq![' ']);
    assert("bcreate "@ + s =~= name + seq![' '] + s);
    lemma_command_line(name, s);
    assert(name != "bimport"@) by {
        assert(name[1] != "bimport"@[1]);
    }
}

/// A text whose characters are all white-space-free, checked at both ends:
/// non-empty, with no white space first or last.
pub open spec fn clean(s: Seq<char>) -> bool {
    &&& s.len() > 0
    &&& !is_white_space(s[0])
    &&& !is_white_space(s.last())
}

/// A text with no white space at all.
pub open spec fn one_word(s: Seq<char>) -> bool {
    &&& s.len() > 0
    &&& forall|i: int| 0 <= i < s.len() ==> !is_white_space(#[trigger] s[i])
}

proof fn lemma_space_index_of(w: Seq<char>, s: Seq<char>)
    requires
        forall|i: int| 0 <= i < w.len() ==> #[trigger] w[i] != ' ',
    ensures
        space_index(w + seq![' '] + s) == w.len(),
        before_space(w + seq![' '] + s) == w,
        after_space(w + seq![' '] + s) == s,
    decreases w.len(),
{
    let line = w + seq![' '] + s;
    if w.len() == 0 {
        assert(line[0] == ' ');
    } else {
        assert(line[0] == w[0]);
        let rest = w.drop_first();
        assert forall|i: int| 0 <= i < rest.len() implies #[trigger] rest[i] != ' ' by {
            assert(rest[i] == w[i + 1]);
        }
        lemma_space_index_of(rest, s);
        assert(line.drop_first() =~= rest + seq![' '] + s);
    }
    assert(line.take(w.len() as int) =~= w);
    assert(line.skip(w.len() + 1int) =~= s);
}

/// The line `<name> <n>` with `n` written in decimal: the first word is the
/// name, and the argument reads as `n`.
proof fn lemma_numeric_line(name: Seq<char>, n: u32)
    requires
        forall|i: int| 0 <= i < name.len() ==> !is_white_space(#[trigger] name[i]),
    ensures
        first_word(name + seq![' '] + decimal(n as nat)) == name,
        parse_u32(trim(after_first_word(name + seq![' '] + decimal(n as nat)))) == Some(n),
{
    let d = decimal(n as nat);
    lemma_first_word_of(name, d);
    lemma_decimal_digits(n as nat);
    lemma_trim_of_word(d);
    lemma_decimal_reads_back(n);
}

/// `add <s>` adds a task whose description is all of `s`, trimmed.
pub proof fn lemma_add_takes_the_whole_description(s: Seq<char>)
    ensures
        command_of("add "@ + s) == CommandView::Add(trim(s)),
{
    lemma_command_names();
    reveal_strlit("add ");
    let name = seq!['a', 'd', 'd'];
    assert("add "@ + s =~= name + seq![' '] + s);
    lemma_command_line(name, s);
}

/// `blist <s>` shows the list whose name is all of `s`, trimmed.
pub proof fn lemma_blist_names_the_whole_argument(s: Seq<char>)
    requires
        trim(s).len() > 0,
    ensures
        command_of("blist "@ + s) == CommandView::BoardList(trim(s)),
{
    lemma_command_names();
    reveal_strlit("blist ");
    let name = seq!['b', 'l', 'i', 's', 't'];
    assert("blist "@ + s =~= name + seq![' '] + s);
    lemma_command_line(name, s);
    assert(name != "bdone"@) by {
        assert(name[1] != "bdone"@[1]);
    }
}

/// `bdelete <s>` deletes the list whose name is all of `s`, trimmed.
pub proof fn lemma_bdelete_names_the_whole_argument(s: Seq<char>)
    requires
        trim(s).len() > 0,
    ensures
        command_of("bdelete "@ + s) == CommandView::BoardDeleteList(trim(s)),
{
    lemma_command_names();
    reveal_strlit("bdelete ");
    let name = seq!['b', 'd', 'e', 'l', 'e', 't', 'e'];
    assert("bdelete "@ + s =~= name + seq![' '] + s);
    lemma_command_line(name, s);
    assert(name != "bimport"@) by {
        assert(name[1] != "bimport"@[1]);
    }
    assert(name != "bcreate"@) by {
        assert(name[1] != "bcreate"@[1]);
    }
    assert(name != "bassign"@) by {
        assert(name[1] != "bassign"@[1]);
    }
    assert(name != "bremove"@) by {
        assert(name[1] != "bremove"@[1]);
    }
}

/// `done <n>` marks task `n` done: the argument reads as the id it spells.
pub proof fn lemma_done_reads_the_id(n: u32)
    ensures
        command_of("done "@ + decimal(n as nat)) == CommandView::Done(n),
{
    lemma_command_names();
    reveal_strlit("done ");
    let d = decimal(n as nat);
    let name = seq!['d', 'o', 'n', 'e'];
    assert("done "@ + d =~= name + seq![' '] + d);
    lemma_numeric_line(name, n);
}

/// `remove <n>` removes task `n`: the argument reads as the id it spells.
pub proof fn lemma_remove_reads_the_id(n: u32)
    ensures
        command_of("remove "@ + decimal(n as nat)) == CommandView::Remove(n),
{
    lemma_command_names();
    reveal_strlit("remove ");
    let d = decimal(n as nat);
    let name = seq!['r', 'e', 'm', 'o', 'v', 'e'];
    assert("remove "@ + d =~= name + seq![' '] + d);
    lemma_numeric_line(name, n);
    assert(name != "filter"@) by {
        assert(name[0] != "filter"@[0]);
    }
    assert(name != "status"@) by {
        assert(name[0] != "status"@[0]);
    }
}

/// `progress <n>` marks task `n` in progress: the argument reads as the id it spells.
pub proof fn lemma_progress_reads_the_id(n: u32)
    ensures
        command_of("progress "@ + decimal(n as nat)) == CommandView::Progress(n),
{
    lemma_command_names();
    reveal_strlit("progress ");
    let d = decimal(n as nat);
    let name = seq!['p', 'r', 'o', 'g', 'r', 'e', 's', 's'];
    assert("progress "@ + d =~= name + seq![' '] + d);
    lemma_numeric_line(name, n);
}

/// `bdone <n>` marks board task `n` done: the argument reads as the id it spells.
pub proof fn lemma_bdone_reads_the_id(n: u32)
    ensures
        command_of("bdone "@ + decimal(n as nat)) == CommandView::BoardDone(n),
{
    lemma_command_names();
    reveal_strlit("bdone ");
    let d = decimal(n as nat);
    let name = seq!['b', 'd', 'o', 'n', 'e'];
    assert("bdone "@ + d =~= name + seq![' '] + d);
    lemma_numeric_line(name, n);
}

/// `bprogress <n>` marks board task `n` in progress: the argument reads as the id it spells.
pub proof fn lemma_bprogress_reads_the_id(n: u32)
    ensures
        command_of("bprogress "@ + decimal(n as nat)) == CommandView::BoardProgress(n),
{
    lemma_command_names();
    reveal_strlit("bprogress ");
    let d = decimal(n as nat);
    let name = seq!['b', 'p', 'r', 'o', 'g', 'r', 'e', 's', 's'];
    assert("bprogress "@ + d =~= name + seq![' '] + d);
    lemma_numeric_line(name, n);
}

/// `bremove <n>` removes board task `n`: the argument reads as the id it spells.
pub proof fn lemma_bremove_reads_the_id(n: u32)
    ensures
        command_of("bremove "@ + decimal(n as nat)) == CommandView::BoardRemove(n),
{
    lemma_command_names();
    reveal_strlit("bremove ");
    let d = decimal(n as nat);
    let name = seq!['b', 'r', 'e', 'm', 'o', 'v', 'e'];
    assert("bremove "@ + d =~= name + seq![' '] + d);
    lemma_numeric_line(name, n);
    assert(name != "bimport"@) by {
        assert(name[1] != "bimport"@[1]);
    }
    assert(name != "bcreate"@) by {
        assert(name[1] != "bcreate"@[1]);
    }
    assert(name != "bassign"@) by {
        assert(name[1] != "bassign"@[1]);
    }
}

/// `bwhere <n>` asks where board task `n` is: the argument reads as the id it spells.
pub proof fn lemma_bwhere_reads_the_id(n: u32)
    ensures
        command_of("bwhere "@ + decimal(n as nat)) == CommandView::BoardWhere(n),
{
    lemma_command_names();
    reveal_strlit("bwhere ");
    let d = decimal(n as nat);
    let name = seq!['b', 'w', 'h', 'e', 'r', 'e'];
    assert("bwhere "@ + d =~= name + seq![' '] + d);
    lemma_numeric_line(name, n);
    assert(name != "remove"@) by {
        assert(name[0] != "remove"@[0]);
    }
    assert(name != "filter"@) by {
        assert(name[0] != "filter"@[0]);
    }
    assert(name != "status"@) by {
        assert(name[0] != "status"@[0]);
    }
    assert(name != "blists"@) by {
        assert(name[1] != "blists"@[1]);
    }
}

proof fn lemma_id_and_name_line(name: Seq<char>, id: u32, s: Seq<char>)
    requires
        forall|i: int| 0 <= i < name.len() ==> !is_white_space(#[trigger] name[i]),
        clean(s),
    ensures
        first_word(name + seq![' '] + (decimal(id as nat) + seq![' '] + s)) == name,
        id_and_name(trim(after_first_word(name + seq![' '] + (decimal(id as nat) + seq![' '] + s)))) == Some(
            (id, s),
        ),
{
    let d = decimal(id as nat);
    let a = d + seq![' '] + s;
    lemma_first_word_of(name, a);
    lemma_decimal_digits(id as nat);
    assert(a[0] == d[0]);
    assert(a.last() == s.last());
    lemma_trim_of_word(a);
    assert forall|i: int| 0 <= i < d.len() implies #[trigger] d[i] != ' ' by {
        assert(!is_white_space(d[i]));
    }
    lemma_space_index_of(d, s);
    lemma_trim_of_word(d);
    lemma_decimal_reads_back(id);
    lemma_trim_of_word(s);
}

/// `bassign <id> <s>` shares task `id` into the list named `s`: the id is
/// the number written first, and the list name is all the rest, spaces
/// inside it included.
pub proof fn lemma_bassign_reads_id_and_whole_name(id: u32, s: Seq<char>)
    requires
        clean(s),
    ensures
        command_of("bassign "@ + decimal(id as nat) + " "@ + s) == CommandView::BoardAssign(id, s),
{
    lemma_command_names();
    reveal_strlit("bassign ");
    reveal_strlit(" ");
    let d = decimal(id as nat);
    let name = seq!['b', 'a', 's', 's', 'i', 'g', 'n'];
    assert("bassign "@ + d + " "@ + s =~= name + seq![' '] + (d + seq![' '] + s));
    lemma_id_and_name_line(name, id, s);
    assert(name != "bimport"@) by {
        assert(name[1] != "bimport"@[1]);
    }
    assert(name != "bcreate"@) by {
        assert(name[1] != "bcreate"@[1]);
    }
}

/// `bunassign <id> <s>` takes task `id` out of the list named `s`: the id is
/// the number written first, and the list name is all the rest.
pub proof fn lemma_bunassign_reads_id_and_whole_name(id: u32, s: Seq<char>)
    requires
        clean(s),
    ensures
        command_of("bunassign "@ + decimal(id as nat) + " "@ + s) == CommandView::BoardUnassign(id, s),
{
    lemma_command_names();
    reveal_strlit("bunassign ");
    reveal_strlit(" ");
    let d = decimal(id as nat);
    let name = seq!['b', 'u', 'n', 'a', 's', 's', 'i', 'g', 'n'];
    assert("bunassign "@ + d + " "@ + s =~= name + seq![' '] + (d + seq![' '] + s));
    lemma_id_and_name_line(name, id, s);
    assert(name != "bprogress"@) by {
        assert(name[1] != "bprogress"@[1]);
    }
}

/// `bimport <id> <s>` moves task `id` into the list named `s`: the id is the
/// number written first, and the list name is all the rest.
pub proof fn lemma_bimport_reads_id_and_whole_name(id: u32, s: Seq<char>)
    requires
        clean(s),
    ensures
        command_of("bimport "@ + decimal(id as nat) + " "@ + s) == CommandView::ImportToBoard(id, s),
{
    lemma_command_names();
    reveal_strlit("bimport ");
    reveal_strlit(" ");
    let d = decimal(id as nat);
    let name = seq!['b', 'i', 'm', 'p', 'o', 'r', 't'];
    assert("bimport "@ + d + " "@ + s =~= name + seq![' '] + (d + seq![' '] + s));
    lemma_id_and_name_line(name, id, s);
}

/// `badd <list> <s>` adds a task to the list named by the first word, and
/// its description is all the rest, spaces inside it included.
pub proof fn lemma_badd_reads_list_and_whole_description(list: Seq<char>, s: Seq<char>)
    requires
        one_word(list),
        clean(s),
    ensures
        command_of("badd "@ + list + " "@ + s) == CommandView::BoardAdd(list, s),
{
    lemma_command_names();
    reveal_strlit("badd ");
    reveal_strlit(" ");
    let name = seq!['b', 'a', 'd', 'd'];
    let a = list + seq![' '] + s;
    assert("badd "@ + list + " "@ + s =~= name + seq![' '] + a);
    lemma_first_word_of(name, a);
    assert(a[0] == list[0]);
    assert(a.last() == s.last());
    lemma_trim_of_word(a);
    assert forall|i: int| 0 <= i < list.len() implies #[trigger] list[i] != ' ' by {
        assert(!is_white_space(list[i]));
    }
    lemma_space_index_of(list, s);
    assert(!is_white_space(list.last())) by {
        assert(list.last() == list[list.len() - 1]);
    }
    lemma_trim_of_word(list);
    lemma_trim_of_word(s);
}

} // verus!
