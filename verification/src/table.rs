//! The task table that the program prints: reading listing lines back into
//! their parts, the column widths, the padded cells and the border lines.
//! Colour is left to the caller.
use vstd::prelude::*;

use crate::text::{append_count, chars_of, decimal, push_char, string_from_chars};
use crate::words::{after_space, before_space, split_at_space, find_space};

verus! {

/// The width of the status column, in characters.
pub const STATUS_WIDTH: usize = 9;

/// The parts of a listing line `"<id> <icon> <description>"`: id, icon and
/// description, as `splitn(2, ' ')` twice cuts them; `None` when the line
/// has no space or its second piece is not one of the icons `[]`, `[~]`,
/// `[x]` (so the line `No tasks` gives `None`).
pub open spec fn line_parts(line: Seq<char>) -> Option<(Seq<char>, Seq<char>, Seq<char>)> {
    if before_space(line).len() == line.len() {
        None
    } else {
        let rest = after_space(line);
        let icon = before_space(rest);
        if icon == seq!['[', ']'] || icon == seq!['[', '~', ']'] || icon == seq!['[', 'x', ']'] {
            Some((before_space(line), icon, after_space(rest)))
        } else {
            None
        }
    }
}

/// The rows of a table: the parts of each line that has them, in order.
pub open spec fn table_rows(lines: Seq<Seq<char>>) -> Seq<(Seq<char>, Seq<char>, Seq<char>)> {
    lines.filter_map(|l: Seq<char>| line_parts(l))
}

/// The length of a text in UTF-8 bytes, as `str::len` gives it.
pub open spec fn byte_len(s: Seq<char>) -> nat {
    (vstd::utf8::encode_utf8(s).len() as usize) as nat
}

/// The larger of two numbers.
pub open spec fn larger(a: nat, b: nat) -> nat {
    if a < b {
        b
    } else {
        a
    }
}

/// The width of the id column: the longest id in bytes, and at least 2.
pub open spec fn id_width(rows: Seq<(Seq<char>, Seq<char>, Seq<char>)>) -> nat
    decreases rows.len(),
{
    if rows.len() == 0 {
        2
    } else {
        larger(id_width(rows.drop_last()), byte_len(rows.last().0))
    }
}

/// The width of the description column: the longest description in bytes,
/// and at least 11.
pub open spec fn description_width(rows: Seq<(Seq<char>, Seq<char>, Seq<char>)>) -> nat
    decreases rows.len(),
{
    if rows.len() == 0 {
        11
    } else {
        larger(description_width(rows.drop_last()), byte_len(rows.last().2))
    }
}

/// `n` copies of the character `c`.
pub open spec fn repeated(c: char, n: nat) -> Seq<char> {
    Seq::new(n, |i: int| c)
}

/// `s` padded with spaces on the right to `width` characters, as the format
/// `{:<width$}` does; unchanged when it is that long already.
pub open spec fn padded(s: Seq<char>, width: nat) -> Seq<char> {
    if s.len() < width {
        s + repeated(' ', (width - s.len()) as nat)
    } else {
        s
    }
}

/// A border line of the table: `left`, then the three column spans of `─`
/// (each two wider than its column), separated by `joint`, then `right`.
pub open spec fn border(left: char, joint: char, right: char, id_w: nat, desc_w: nat) -> Seq<char> {
    seq![left] + repeated('\u{2500}', id_w + 2) + seq![joint] + repeated('\u{2500}', (STATUS_WIDTH + 2) as nat)
        + seq![joint] + repeated('\u{2500}', desc_w + 2) + seq![right]
}

/// The label of the status cell for an icon: `[x] Done`, `[~] Doing`, and
/// `[ ] Todo` for any other icon.
pub open spec fn status_label(icon: Seq<char>) -> Seq<char> {
    if icon == seq!['[', 'x', ']'] {
        seq!['[', 'x', ']', ' ', 'D', 'o', 'n', 'e']
    } else if icon == seq!['[', '~', ']'] {
        seq!['[', '~', ']', ' ', 'D', 'o', 'i', 'n', 'g']
    } else {
        seq!['[', ' ', ']', ' ', 'T', 'o', 'd', 'o']
    }
}

/// One row of the table: the id, icon and description of a task line.
pub struct TableRow {
    pub id: String,
    pub icon: String,
    pub description: String,
}

impl View for TableRow {
    type V = (Seq<char>, Seq<char>, Seq<char>);

    open spec fn view(&self) -> (Seq<char>, Seq<char>, Seq<char>) {
        (self.id@, self.icon@, self.description@)
    }
}

/// The rows of a table and the widths of its id and description columns.
pub struct TaskTable {
    pub rows: Vec<TableRow>,
    pub id_width: usize,
    pub description_width: usize,
}

/// Whether the characters of `v` are exactly `w`.
fn chars_equal(v: &Vec<char>, w: &Vec<char>) -> (r: bool)
    ensures
        r == (v@ == w@),
{
    if v.len() != w.len() {
        return false;
    }
    let mut i: usize = 0;
    while i < v.len()
        invariant
            i <= v@.len(),
            v@.len() == w@.len(),
            forall|k: int| 0 <= k < i ==> v@[k] == w@[k],
        decreases v.len() - i,
    {
        if v[i] != w[i] {
            return false;
        }
        i = i + 1;
    }
    assert(v@ =~= w@);
    true
}

/// Whether the characters of `v` form one of the three icons.
fn is_icon(v: &Vec<char>) -> (r: bool)
    ensures
        r == (v@ == seq!['[', ']'] || v@ == seq!['[', '~', ']'] || v@ == seq!['[', 'x', ']']),
{
    if v.len() == 2 {
        let r = v[0] == '[' && v[1] == ']';
        proof {
            if r {
                assert(v@ =~= seq!['[', ']']);
            }
        }
        r
    } else if v.len() == 3 {
        let r = v[0] == '[' && (v[1] == '~' || v[1] == 'x') && v[2] == ']';
        proof {
            if r && v[1] == '~' {
                assert(v@ =~= seq!['[', '~', ']']);
            }
            if r && v[1] == 'x' {
                assert(v@ =~= seq!['[', 'x', ']']);
            }
        }
        r
    } else {
        false
    }
}

/// Reads a listing line back into its parts ([`line_parts`]).
pub fn parse_task_line(line: &str) -> (r: Option<(String, String, String)>)
    ensures
        match r {
            Some((id, icon, desc)) => line_parts(line@) == Some((id@, icon@, desc@)),
            None => line_parts(line@) is None,
        },
{
    let v = chars_of(line);
    let p = find_space(&v);
    let (id, rest) = split_at_space(&v);
    if p == v.len() {
        return None;
    }
    let (icon, desc) = split_at_space(&rest);
    if is_icon(&icon) {
        Some((string_from_chars(&id), string_from_chars(&icon), string_from_chars(&desc)))
    } else {
        None
    }
}

/// The number of UTF-8 bytes of `s`.
fn bytes_of(s: &String) -> (n: usize)
    ensures
        n == byte_len(s@),
{
    s.as_str().len()
}

/// The table for a listing: the rows of the lines that have parts, and the
/// column widths.
pub fn task_table(lines: &Vec<String>) -> (t: TaskTable)
    ensures
        t.rows@.map_values(|r: TableRow| r@) == table_rows(lines@.map_values(|s: String| s@)),
        t.id_width == id_width(table_rows(lines@.map_values(|s: String| s@))),
        t.description_width == description_width(table_rows(lines@.map_values(|s: String| s@))),
{
    let ghost all = lines@.map_values(|s: String| s@);
    let mut rows: Vec<TableRow> = Vec::new();
    let mut idw: usize = 2;
    let mut descw: usize = 11;
    let mut i: usize = 0;
    while i < lines.len()
        invariant
            i <= lines@.len(),
            all == lines@.map_values(|s: String| s@),
            rows@.map_values(|r: TableRow| r@) == table_rows(all.take(i as int)),
            idw == id_width(table_rows(all.take(i as int))),
            descw == description_width(table_rows(all.take(i as int))),
        decreases lines.len() - i,
    {
        let ghost before = rows@;
        proof {
            assert(all.take(i + 1).drop_last() =~= all.take(i as int));
            assert(all.take(i + 1).last() == lines@[i as int]@);
        }
        match parse_task_line(lines[i].as_str()) {
            Some((id, icon, description)) => {
                let n_id = bytes_of(&id);
                let n_desc = bytes_of(&description);
                if idw < n_id {
                    idw = n_id;
                }
                if descw < n_desc {
                    descw = n_desc;
                }
                let row = TableRow { id, icon, description };
                rows.push(row);
                proof {
                    let rows_spec = table_rows(all.take(i + 1));
                    assert(rows_spec =~= table_rows(all.take(i as int)) + seq![row@]);
                    assert(rows_spec.drop_last() =~= table_rows(all.take(i as int)));
                    assert(rows@.map_values(|r: TableRow| r@) =~= rows_spec);
                }
            },
            None => {
                proof {
                    assert(table_rows(all.take(i + 1)) =~= table_rows(all.take(i as int)));
                }
            },
        }
        i = i + 1;
    }
    proof {
        assert(all.take(lines@.len() as int) =~= all);
    }
    TaskTable { rows, id_width: idw, description_width: descw }
}

/// Appends `n` copies of `c` to `s`.
fn append_repeated(s: &mut String, c: char, n: usize)
    ensures
        final(s)@ == old(s)@ + repeated(c, n as nat),
{
    let mut i: usize = 0;
    while i < n
        invariant
            i <= n,
            s@ == old(s)@ + repeated(c, i as nat),
        decreases n - i,
    {
        push_char(s, c);
        i = i + 1;
        assert(s@ =~= old(s)@ + repeated(c, i as nat));
    }
}

/// `s` padded with spaces on the right to `width` characters ([`padded`]).
pub fn pad_right(s: &str, width: usize) -> (r: String)
    ensures
        r@ == padded(s@, width as nat),
{
    let v = chars_of(s);
    let mut r = string_from_chars(&v);
    if v.len() < width {
        append_repeated(&mut r, ' ', width - v.len());
    }
    r
}

/// The status cell of a row: its label ([`status_label`]) padded to
/// [`STATUS_WIDTH`].
pub fn status_cell_text(icon: &str) -> (r: String)
    ensures
        r@ == padded(status_label(icon@), STATUS_WIDTH as nat),
{
    let v = chars_of(icon);
    let mut x: Vec<char> = Vec::new();
    x.push('[');
    x.push('x');
    x.push(']');
    let mut t: Vec<char> = Vec::new();
    t.push('[');
    t.push('~');
    t.push(']');
    let mut label: Vec<char> = Vec::new();
    label.push('[');
    if chars_equal(&v, &x) {
        label.push('x');
        label.push(']');
        label.push(' ');
        label.push('D');
        label.push('o');
        label.push('n');
        label.push('e');
        assert(x@ =~= seq!['[', 'x', ']']);
        assert(label@ =~= status_label(icon@));
    } else if chars_equal(&v, &t) {
        label.push('~');
        label.push(']');
        label.push(' ');
        label.push('D');
        label.push('o');
        label.push('i');
        label.push('n');
        label.push('g');
        assert(x@ =~= seq!['[', 'x', ']']);
        assert(t@ =~= seq!['[', '~', ']']);
        assert(label@ =~= status_label(icon@));
    } else {
        label.push(' ');
        label.push(']');
        label.push(' ');
        label.push('T');
        label.push('o');
        label.push('d');
        label.push('o');
        assert(x@ =~= seq!['[', 'x', ']']);
        assert(t@ =~= seq!['[', '~', ']']);
        assert(label@ =~= status_label(icon@));
    }
    let mut r = string_from_chars(&label);
    if label.len() < STATUS_WIDTH {
        append_repeated(&mut r, ' ', STATUS_WIDTH - label.len());
    }
    r
}

/// A border line of the table ([`border`]).
pub fn border_line(left: char, joint: char, right: char, id_w: usize, desc_w: usize) -> (r: String)
    requires
        id_w + 2 <= usize::MAX,
        desc_w + 2 <= usize::MAX,
    ensures
        r@ == border(left, joint, right, id_w as nat, desc_w as nat),
{
    let mut s = String::new();
    push_char(&mut s, left);
    append_repeated(&mut s, '\u{2500}', id_w + 2);
    push_char(&mut s, joint);
    append_repeated(&mut s, '\u{2500}', STATUS_WIDTH + 2);
    push_char(&mut s, joint);
    append_repeated(&mut s, '\u{2500}', desc_w + 2);
    push_char(&mut s, right);
    assert(s@ =~= border(left, joint, right, id_w as nat, desc_w as nat));
    s
}

/// The title line above a table of `n` rows: `╭─ <title> (<n>) `.
pub open spec fn header_text(title: Seq<char>, n: nat) -> Seq<char> {
    seq!['\u{256D}', '\u{2500}', ' '] + title + seq![' ', '('] + decimal(n) + seq![')', ' ']
}

/// The title line above a table of `n` rows ([`header_text`]).
pub fn table_header(title: &str, n: usize) -> (r: String)
    ensures
        r@ == header_text(title@, n as nat),
{
    let mut s = String::new();
    push_char(&mut s, '\u{256D}');
    push_char(&mut s, '\u{2500}');
    push_char(&mut s, ' ');
    s.append(title);
    push_char(&mut s, ' ');
    push_char(&mut s, '(');
    append_count(&mut s, n);
    push_char(&mut s, ')');
    push_char(&mut s, ' ');
    assert(s@ =~= header_text(title@, n as nat));
    s
}

/// What stands in place of a table that has no row: `(no tasks)`.
pub open spec fn empty_table_text() -> Seq<char> {
    seq!['(', 'n', 'o', ' ', 't', 'a', 's', 'k', 's', ')']
}

/// What stands in place of a table that has no row ([`empty_table_text`]).
pub fn empty_table_note() -> (r: String)
    ensures
        r@ == empty_table_text(),
{
    let mut s = String::new();
    push_char(&mut s, '(');
    push_char(&mut s, 'n');
    push_char(&mut s, 'o');
    push_char(&mut s, ' ');
    push_char(&mut s, 't');
    push_char(&mut s, 'a');
    push_char(&mut s, 's');
    push_char(&mut s, 'k');
    push_char(&mut s, 's');
    push_char(&mut s, ')');
    assert(s@ =~= empty_table_text());
    s
}

} // verus!
