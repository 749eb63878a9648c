//! Several named lists that share tasks: one registry of tasks by id, and
//! named lists that each hold a set of those ids. A task that two lists hold
//! is one task: marking it done from one list shows in the other.
use std::collections::{HashMap, HashSet};

use vstd::prelude::*;

use crate::ids::{collect_keys, collect_set, sort_ids, sorted_ids, lemma_sorted_ids};
use crate::task::{Status, Task, TaskView};
use crate::text::{text_lt, text_less, lemma_text_lt_total, lemma_text_lt_transitive};
use crate::todo_list::{TodoError, listing, texts, task_views, task_lines, build_task_map, task_entries, entries_map, entry_views};

verus! {

broadcast use {vstd::std_specs::hash::group_hash_axioms, vstd::string::group_string_axioms};

/// One named list: its name and the ids of the tasks it holds.
struct NamedList {
    name: String,
    ids: HashSet<u32>,
}

/// Whether some entry of `s` has the name `n`.
spec fn has_name(s: Seq<NamedList>, n: Seq<char>) -> bool {
    exists|i: int| 0 <= i < s.len() && #[trigger] s[i].name@ == n
}

/// The position of the entry of `s` named `n`.
spec fn index_of_name(s: Seq<NamedList>, n: Seq<char>) -> int {
    choose|i: int| 0 <= i < s.len() && #[trigger] s[i].name@ == n
}

/// No two entries of `s` have the same name.
spec fn names_distinct(s: Seq<NamedList>) -> bool {
    forall|i: int, j: int|
        0 <= i < s.len() && 0 <= j < s.len() && i != j ==> #[trigger] s[i].name@ != #[trigger] s[j].name@
}

/// Some entry of `s` before position `upto` has the name `n`.
spec fn named_below(s: Seq<NamedList>, upto: int, n: Seq<char>) -> bool {
    exists|q: int| 0 <= q < upto && #[trigger] s[q].name@ == n
}

/// Some entry of `s` before position `upto` has the name `n` and holds `id`.
spec fn holder_below(s: Seq<NamedList>, upto: int, n: Seq<char>, id: u32) -> bool {
    exists|q: int| 0 <= q < upto && #[trigger] s[q].name@ == n && s[q].ids@.contains(id)
}

/// The named lists as a map from name to the set of ids.
spec fn lists_view(s: Seq<NamedList>) -> Map<Seq<char>, Set<u32>> {
    Map::new(|n: Seq<char>| has_name(s, n), |n: Seq<char>| s[index_of_name(s, n)].ids@)
}

proof fn lemma_view_at(s: Seq<NamedList>, k: int)
    requires
        names_distinct(s),
        0 <= k < s.len(),
    ensures
        lists_view(s).contains_key(s[k].name@),
        lists_view(s)[s[k].name@] == s[k].ids@,
{
    assert(has_name(s, s[k].name@));
    let i = index_of_name(s, s[k].name@);
    assert(s[i].name@ == s[k].name@);
}

proof fn lemma_view_update(s: Seq<NamedList>, k: int, e: NamedList)
    requires
        names_distinct(s),
        0 <= k < s.len(),
        e.name@ == s[k].name@,
    ensures
        names_distinct(s.update(k, e)),
        lists_view(s.update(k, e)) == lists_view(s).insert(e.name@, e.ids@),
{
    let t = s.update(k, e);
    assert forall|i: int, j: int| 0 <= i < t.len() && 0 <= j < t.len() && i != j implies #[trigger] t[i].name@
        != #[trigger] t[j].name@ by {
        if i == k {
            assert(s[j].name@ != s[k].name@);
        } else if j == k {
            assert(s[i].name@ != s[k].name@);
        } else {
            assert(s[i].name@ != s[j].name@);
        }
    }
    let a = lists_view(t);
    let b = lists_view(s).insert(e.name@, e.ids@);
    assert forall|n: Seq<char>| #[trigger] a.contains_key(n) <==> b.contains_key(n) by {
        if a.contains_key(n) {
            let i = choose|i: int| 0 <= i < t.len() && #[trigger] t[i].name@ == n;
            if i != k {
                assert(s[i].name@ == n);
                lemma_view_at(s, i);
            }
        }
        if b.contains_key(n) && n != e.name@ {
            let i = choose|i: int| 0 <= i < s.len() && #[trigger] s[i].name@ == n;
            assert(t[i].name@ == n);
            lemma_view_at(t, i);
        }
        if n == e.name@ {
            assert(t[k].name@ == n);
            lemma_view_at(t, k);
        }
    }
    assert forall|n: Seq<char>| #[trigger] a.contains_key(n) implies a[n] == b[n] by {
        let i = choose|i: int| 0 <= i < t.len() && #[trigger] t[i].name@ == n;
        lemma_view_at(t, i);
        if i != k {
            assert(s[i] == t[i]);
            lemma_view_at(s, i);
        }
    }
    assert(a =~= b);
}

proof fn lemma_view_push(s: Seq<NamedList>, e: NamedList)
    requires
        names_distinct(s),
        !has_name(s, e.name@),
    ensures
        names_distinct(s.push(e)),
        lists_view(s.push(e)) == lists_view(s).insert(e.name@, e.ids@),
{
    let t = s.push(e);
    let k = s.len() as int;
    assert forall|i: int, j: int| 0 <= i < t.len() && 0 <= j < t.len() && i != j implies #[trigger] t[i].name@
        != #[trigger] t[j].name@ by {
        if i == k {
            assert(t[j] == s[j]);
        } else if j == k {
            assert(t[i] == s[i]);
        } else {
            assert(t[i] == s[i]);
            assert(t[j] == s[j]);
        }
    }
    let a = lists_view(t);
    let b = lists_view(s).insert(e.name@, e.ids@);
    assert forall|n: Seq<char>| #[trigger] a.contains_key(n) <==> b.contains_key(n) by {
        if a.contains_key(n) {
            let i = choose|i: int| 0 <= i < t.len() && #[trigger] t[i].name@ == n;
            if i != k {
                assert(s[i].name@ == n);
                lemma_view_at(s, i);
            }
        }
        if b.contains_key(n) && n != e.name@ {
            let i = choose|i: int| 0 <= i < s.len() && #[trigger] s[i].name@ == n;
            assert(t[i].name@ == n);
            lemma_view_at(t, i);
        }
        if n == e.name@ {
            assert(t[k].name@ == n);
            lemma_view_at(t, k);
        }
    }
    assert forall|n: Seq<char>| #[trigger] a.contains_key(n) implies a[n] == b[n] by {
        let i = choose|i: int| 0 <= i < t.len() && #[trigger] t[i].name@ == n;
        lemma_view_at(t, i);
        if i != k {
            assert(s[i] == t[i]);
            lemma_view_at(s, i);
        }
    }
    assert(a =~= b);
}

proof fn lemma_view_remove(s: Seq<NamedList>, k: int)
    requires
        names_distinct(s),
        0 <= k < s.len(),
    ensures
        names_distinct(s.remove(k)),
        lists_view(s.remove(k)) == lists_view(s).remove(s[k].name@),
{
    let t = s.remove(k);
    let name = s[k].name@;
    assert forall|i: int, j: int| 0 <= i < t.len() && 0 <= j < t.len() && i != j implies #[trigger] t[i].name@
        != #[trigger] t[j].name@ by {
        let si = if i < k { i } else { i + 1 };
        let sj = if j < k { j } else { j + 1 };
        assert(t[i] == s[si]);
        assert(t[j] == s[sj]);
        assert(s[si].name@ != s[sj].name@);
    }
    let a = lists_view(t);
    let b = lists_view(s).remove(name);
    assert forall|n: Seq<char>| #[trigger] a.contains_key(n) <==> b.contains_key(n) by {
        if a.contains_key(n) {
            let i = choose|i: int| 0 <= i < t.len() && #[trigger] t[i].name@ == n;
            let si = if i < k { i } else { i + 1 };
            assert(t[i] == s[si]);
            assert(s[si].name@ != name);
            lemma_view_at(s, si);
        }
        if b.contains_key(n) {
            let i = choose|i: int| 0 <= i < s.len() && #[trigger] s[i].name@ == n;
            assert(i != k);
            let ti = if i < k { i } else { i - 1 };
            assert(t[ti] == s[i]);
            lemma_view_at(t, ti);
        }
    }
    assert forall|n: Seq<char>| #[trigger] a.contains_key(n) implies a[n] == b[n] by {
        let i = choose|i: int| 0 <= i < t.len() && #[trigger] t[i].name@ == n;
        lemma_view_at(t, i);
        let si = if i < k { i } else { i + 1 };
        assert(t[i] == s[si]);
        lemma_view_at(s, si);
    }
    assert(a =~= b);
}

proof fn lemma_lists_map_of_entries(s: Seq<NamedList>, e: Seq<(Seq<char>, Set<u32>)>)
    requires
        names_distinct(s),
        e.len() == s.len(),
        forall|a: int| 0 <= a < s.len() ==> (#[trigger] e[a]) == (s[a].name@, s[a].ids@),
    ensures
        lists_map(e) == lists_view(s),
    decreases s.len(),
{
    if s.len() == 0 {
        assert(lists_view(s) =~= Map::<Seq<char>, Set<u32>>::empty());
    } else {
        let si = s.drop_last();
        let ei = e.drop_last();
        assert forall|i: int, j: int| 0 <= i < si.len() && 0 <= j < si.len() && i != j implies #[trigger] si[i].name@
            != #[trigger] si[j].name@ by {
            assert(s[i].name@ != s[j].name@);
        }
        assert forall|a: int| 0 <= a < si.len() implies (#[trigger] ei[a]) == (si[a].name@, si[a].ids@) by {
            assert(e[a] == (s[a].name@, s[a].ids@));
        }
        lemma_lists_map_of_entries(si, ei);
        let last = s.last();
        assert(!has_name(si, last.name@)) by {
            if has_name(si, last.name@) {
                let q = choose|q: int| 0 <= q < si.len() && #[trigger] si[q].name@ == last.name@;
                assert(s[q].name@ != s[s.len() - 1].name@);
            }
        }
        lemma_view_push(si, last);
        assert(si.push(last) =~= s);
        assert(e.last() == (last.name@, last.ids@));
    }
}

proof fn lemma_view_absent(s: Seq<NamedList>, n: Seq<char>)
    requires
        forall|i: int| 0 <= i < s.len() ==> #[trigger] s[i].name@ != n,
    ensures
        !lists_view(s).contains_key(n),
{
}

} // verus!

verus! {

/// The ids of list `n` of `lists`: its set if the list exists, else the empty set.
pub open spec fn ids_of(lists: Map<Seq<char>, Set<u32>>, n: Seq<char>) -> Set<u32> {
    if lists.contains_key(n) {
        lists[n]
    } else {
        Set::empty()
    }
}

/// Every list of `lists` with the id taken out.
pub open spec fn without_id(lists: Map<Seq<char>, Set<u32>>, id: u32) -> Map<Seq<char>, Set<u32>> {
    lists.map_values(|s: Set<u32>| s.remove(id))
}

/// Whether a list other than `n` holds the id.
pub open spec fn held_elsewhere(lists: Map<Seq<char>, Set<u32>>, n: Seq<char>, id: u32) -> bool {
    exists|m: Seq<char>| #[trigger] lists.contains_key(m) && m != n && lists[m].contains(id)
}

/// The ids of list `n` that no other list holds.
pub open spec fn orphans(lists: Map<Seq<char>, Set<u32>>, n: Seq<char>) -> Set<u32> {
    lists[n].filter(|id: u32| !held_elsewhere(lists, n, id))
}

/// Whether some list holds the id.
pub open spec fn held(lists: Map<Seq<char>, Set<u32>>, id: u32) -> bool {
    exists|m: Seq<char>| #[trigger] lists.contains_key(m) && lists[m].contains(id)
}

/// When every list of `a` holds at least what it held before in `b`'s place,
/// ids that `a` held are still held.
proof fn lemma_held_kept(a: Map<Seq<char>, Set<u32>>, b: Map<Seq<char>, Set<u32>>, tasks: Map<u32, TaskView>)
    requires
        forall|k: u32| #[trigger] tasks.contains_key(k) ==> held(a, k),
        forall|m: Seq<char>, k: u32| #[trigger] a.contains_key(m) && #[trigger] a[m].contains(k) ==> b.contains_key(m)
            && b[m].contains(k),
    ensures
        forall|k: u32| #[trigger] tasks.contains_key(k) ==> held(b, k),
{
    assert forall|k: u32| #[trigger] tasks.contains_key(k) implies held(b, k) by {
        let m = choose|m: Seq<char>| #[trigger] a.contains_key(m) && a[m].contains(k);
        assert(b.contains_key(m) && b[m].contains(k));
    }
}

/// After the id leaves list `n`, some list holds it exactly when a list
/// other than `n` held it before.
proof fn lemma_held_after_take(lists: Map<Seq<char>, Set<u32>>, n: Seq<char>, id: u32)
    requires
        lists.contains_key(n),
    ensures
        held(lists.insert(n, lists[n].remove(id)), id) == held_elsewhere(lists, n, id),
{
    let l1 = lists.insert(n, lists[n].remove(id));
    if held(l1, id) {
        let m = choose|m: Seq<char>| #[trigger] l1.contains_key(m) && l1[m].contains(id);
        assert(m != n);
        assert(lists.contains_key(m) && lists[m].contains(id));
    }
    if held_elsewhere(lists, n, id) {
        let m = choose|m: Seq<char>| #[trigger] lists.contains_key(m) && m != n && lists[m].contains(id);
        assert(l1.contains_key(m) && l1[m].contains(id));
    }
}

/// Two maps of lists that agree on every list other than `n` agree on which
/// ids a list other than `n` holds.
proof fn lemma_held_elsewhere_same(
    a: Map<Seq<char>, Set<u32>>,
    b: Map<Seq<char>, Set<u32>>,
    n: Seq<char>,
    id: u32,
)
    requires
        a.contains_key(n),
        exists|s: Set<u32>| b == a.insert(n, s),
    ensures
        held_elsewhere(a, n, id) == held_elsewhere(b, n, id),
{
    if held_elsewhere(a, n, id) {
        let m = choose|m: Seq<char>| #[trigger] a.contains_key(m) && m != n && a[m].contains(id);
        assert(b.contains_key(m) && b[m].contains(id));
    }
    if held_elsewhere(b, n, id) {
        let m = choose|m: Seq<char>| #[trigger] b.contains_key(m) && m != n && b[m].contains(id);
        assert(a.contains_key(m) && a[m].contains(id));
    }
}

/// Taking an id out of one list, and out of the registry when no list holds
/// it any longer, keeps a consistent board consistent.
proof fn lemma_take_consistent(o: BoardView, v: BoardView, n: Seq<char>, id: u32)
    requires
        o.consistent(),
        o.lists.contains_key(n),
        v.lists == o.lists.insert(n, o.lists[n].remove(id)),
        held(v.lists, id) ==> v.tasks == o.tasks && v.next_id == o.next_id,
        !held(v.lists, id) ==> v.tasks == o.tasks.remove(id) && v.next_id == (if v.tasks.dom().is_empty() {
            1
        } else {
            o.next_id
        }),
    ensures
        v.consistent(),
{
    assert forall|m: Seq<char>, k: u32| #[trigger] v.lists.contains_key(m) && #[trigger] v.lists[m].contains(k)
        implies v.tasks.contains_key(k) by {
        assert(o.lists.contains_key(m) && o.lists[m].contains(k));
        if !held(v.lists, id) {
            assert(k != id);
        }
    }
    assert forall|k: u32| #[trigger] v.tasks.contains_key(k) implies held(v.lists, k) by {
        if k != id {
            let m = choose|m: Seq<char>| #[trigger] o.lists.contains_key(m) && o.lists[m].contains(k);
            assert(v.lists.contains_key(m) && v.lists[m].contains(k));
        }
    }
    assert forall|k: u32| #[trigger] v.tasks.contains_key(k) implies k < v.next_id by {
        if !held(v.lists, id) && v.tasks.dom().is_empty() {
            assert(v.tasks.dom().contains(k));
        }
    }
}

/// The map that stored lists build when each is inserted in order: where a
/// name comes twice, the later list stands.
pub open spec fn lists_map(s: Seq<(Seq<char>, Set<u32>)>) -> Map<Seq<char>, Set<u32>>
    decreases s.len(),
{
    if s.len() == 0 {
        Map::empty()
    } else {
        lists_map(s.drop_last()).insert(s.last().0, s.last().1)
    }
}

/// Stored lists, each name and set of ids taken by its view.
pub open spec fn list_views(s: Seq<(String, Vec<u32>)>) -> Seq<(Seq<char>, Set<u32>)> {
    s.map_values(|e: (String, Vec<u32>)| (e.0@, e.1@.to_set()))
}

/// The mathematical value of a [`Board`]: its tasks by id, its lists by name
/// (each the set of ids it holds), and the id that the next added task gets.
pub struct BoardView {
    pub tasks: Map<u32, TaskView>,
    pub lists: Map<Seq<char>, Set<u32>>,
    pub next_id: u32,
}

impl BoardView {
    /// The states that the operations of [`Board`] reach from [`Board::new`]:
    /// every id in use lies below `next_id` (which is at least 1), every id that
    /// a list holds is a task, and every task is held by some list.
    pub open spec fn consistent(self) -> bool {
        &&& 1 <= self.next_id
        &&& forall|k: u32| #[trigger] self.tasks.contains_key(k) ==> k < self.next_id
        &&& forall|n: Seq<char>, k: u32|
            #[trigger] self.lists.contains_key(n) && #[trigger] self.lists[n].contains(k)
                ==> self.tasks.contains_key(k)
        &&& forall|k: u32| #[trigger] self.tasks.contains_key(k) ==> held(self.lists, k)
    }
}

/// A registry of tasks by id, and named lists that each hold some of those
/// ids. Several lists may hold the same task; it is one task.
pub struct Board {
    tasks: HashMap<u32, Task>,
    lists: Vec<NamedList>,
    next_id: u32,
}

impl View for Board {
    type V = BoardView;

    closed spec fn view(&self) -> BoardView {
        BoardView {
            tasks: task_views(self.tasks@),
            lists: lists_view(self.lists@),
            next_id: self.next_id,
        }
    }
}

impl Board {
    /// The board's own bookkeeping is in order: no two lists share a name.
    pub closed spec fn wf(&self) -> bool {
        names_distinct(self.lists@)
    }

    /// A new board with no tasks and no lists. The first task added gets id 1.
    pub fn new() -> (board: Board)
        ensures
            board.wf(),
            board@.tasks == Map::<u32, TaskView>::empty(),
            board@.lists == Map::<Seq<char>, Set<u32>>::empty(),
            board@.next_id == 1,
            board@.consistent(),
    {
        let board = Board { tasks: HashMap::new(), lists: Vec::new(), next_id: 1 };
        assert(board@.tasks =~= Map::<u32, TaskView>::empty());
        assert(board@.lists =~= Map::<Seq<char>, Set<u32>>::empty());
        board
    }

    /// The position of the list named `name`, if there is one.
    fn find_list(&self, name: &String) -> (r: Option<usize>)
        requires
            self.wf(),
        ensures
            match r {
                Some(k) => k < self.lists@.len() && self.lists@[k as int].name@ == name@,
                None => forall|i: int| 0 <= i < self.lists@.len() ==> #[trigger] self.lists@[i].name@ != name@,
            },
    {
        let mut i: usize = 0;
        while i < self.lists.len()
            invariant
                i <= self.lists@.len(),
                forall|j: int| 0 <= j < i ==> #[trigger] self.lists@[j].name@ != name@,
            decreases self.lists.len() - i,
        {
            if self.lists[i].name == *name {
                return Some(i);
            }
            i = i + 1;
        }
        None
    }

    /// The position of the list named `name`, creating it empty if it does not exist.
    fn list_entry(&mut self, name: &str) -> (k: usize)
        requires
            old(self).wf(),
        ensures
            final(self).wf(),
            k < final(self).lists@.len(),
            final(self).lists@[k as int].name@ == name@,
            final(self).lists@[k as int].ids@ == ids_of(old(self)@.lists, name@),
            final(self)@.lists == old(self)@.lists.insert(name@, ids_of(old(self)@.lists, name@)),
            final(self).tasks == old(self).tasks,
            final(self).next_id == old(self).next_id,
    {
        let key = String::from_str(name);
        match self.find_list(&key) {
            Some(k) => {
                proof {
                    lemma_view_at(self.lists@, k as int);
                    assert(self@.lists =~= old(self)@.lists.insert(name@, ids_of(old(self)@.lists, name@)));
                }
                k
            },
            None => {
                let entry = NamedList { name: key, ids: HashSet::new() };
                proof {
                    lemma_view_absent(self.lists@, name@);
                    lemma_view_push(self.lists@, entry);
                }
                self.lists.push(entry);
                proof {
                    lemma_view_at(self.lists@, self.lists@.len() - 1);
                }
                self.lists.len() - 1
            },
        }
    }

    /// Creates an empty list with the given name, unless one exists already.
    pub fn create_list(&mut self, name: &str)
        requires
            old(self).wf(),
        ensures
            final(self).wf(),
            final(self)@.lists == (if old(self)@.lists.contains_key(name@) {
                old(self)@.lists
            } else {
                old(self)@.lists.insert(name@, Set::empty())
            }),
            final(self)@.tasks == old(self)@.tasks,
            final(self)@.next_id == old(self)@.next_id,
            old(self)@.consistent() ==> final(self)@.consistent(),
    {
        let _ = self.list_entry(name);
        proof {
            if old(self)@.lists.contains_key(name@) {
                assert(self@.lists =~= old(self)@.lists);
            } else if old(self)@.consistent() {
                lemma_held_kept(old(self)@.lists, self@.lists, old(self)@.tasks);
            }
        }
    }

    /// Puts the id into the list at position `k`.
    fn insert_into(&mut self, k: usize, id: u32)
        requires
            old(self).wf(),
            k < old(self).lists@.len(),
        ensures
            final(self).wf(),
            final(self)@.lists == old(self)@.lists.insert(
                old(self).lists@[k as int].name@,
                old(self).lists@[k as int].ids@.insert(id),
            ),
            final(self).tasks == old(self).tasks,
            final(self).next_id == old(self).next_id,
    {
        let ghost before = self.lists@;
        self.lists[k].ids.insert(id);
        proof {
            assert(self.lists@ =~= before.update(k as int, self.lists@[k as int]));
            lemma_view_update(before, k as int, self.lists@[k as int]);
        }
    }

    /// Registers `task` under the next id and puts it into the list named
    /// `list_name`, creating that list if needed.
    fn insert_new(&mut self, list_name: &str, task: Task) -> (id: u32)
        requires
            old(self).wf(),
            old(self)@.next_id < u32::MAX,
        ensures
            final(self).wf(),
            id == old(self)@.next_id,
            final(self)@.next_id == id + 1,
            final(self)@.tasks == old(self)@.tasks.insert(id, task@),
            final(self)@.lists == old(self)@.lists.insert(
                list_name@,
                ids_of(old(self)@.lists, list_name@).insert(id),
            ),
            old(self)@.consistent() ==> !old(self)@.tasks.contains_key(id),
            old(self)@.consistent() ==> final(self)@.consistent(),
    {
        let id = self.next_id;
        self.next_id = self.next_id + 1;
        let ghost t = task@;
        self.tasks.insert(id, task);
        assert(self@.tasks =~= old(self)@.tasks.insert(id, t));
        let k = self.list_entry(list_name);
        self.insert_into(k, id);
        proof {
            let lists = self@.lists;
            assert(lists =~= old(self)@.lists.insert(list_name@, ids_of(old(self)@.lists, list_name@).insert(id)));
            if old(self)@.consistent() {
                let old_lists = old(self)@.lists;
                assert forall|m: Seq<char>, j: u32| #[trigger] old_lists.contains_key(m) && #[trigger] old_lists[m].contains(j)
                    implies lists.contains_key(m) && lists[m].contains(j) by {}
                lemma_held_kept(old_lists, lists, old(self)@.tasks);
                assert(lists.contains_key(list_name@) && lists[list_name@].contains(id));
                assert(held(lists, id));
                assert forall|m: Seq<char>, j: u32| #[trigger] lists.contains_key(m) && #[trigger] lists[m].contains(j)
                    implies self@.tasks.contains_key(j) by {
                    if j != id {
                        if m == list_name@ {
                            assert(old_lists.contains_key(m) && old_lists[m].contains(j));
                        } else {
                            assert(old_lists.contains_key(m) && old_lists[m].contains(j));
                        }
                    }
                }
            }
        }
        id
    }

    /// Adds a new task with the given description, in status
    /// [`Status::Todo`], under the next id, and puts it into the list named
    /// `list_name`, creating that list if needed. Returns the new id.
    pub fn add_task(&mut self, list_name: &str, description: String) -> (id: u32)
        requires
            old(self).wf(),
            old(self)@.next_id < u32::MAX,
        ensures
            final(self).wf(),
            id == old(self)@.next_id,
            final(self)@.next_id == id + 1,
            final(self)@.tasks == old(self)@.tasks.insert(
                id,
                TaskView { description: description@, status: Status::Todo },
            ),
            final(self)@.lists == old(self)@.lists.insert(
                list_name@,
                ids_of(old(self)@.lists, list_name@).insert(id),
            ),
            old(self)@.consistent() ==> !old(self)@.tasks.contains_key(id),
            old(self)@.consistent() ==> final(self)@.consistent(),
    {
        self.insert_new(list_name, Task::new(description))
    }

    /// Adds a task as it stands, keeping its status, under the next id, and
    /// puts it into the list named `list_name`, creating that list if needed.
    /// Returns the new id.
    pub fn add_existing_task(&mut self, list_name: &str, task: Task) -> (id: u32)
        requires
            old(self).wf(),
            old(self)@.next_id < u32::MAX,
        ensures
            final(self).wf(),
            id == old(self)@.next_id,
            final(self)@.next_id == id + 1,
            final(self)@.tasks == old(self)@.tasks.insert(id, task@),
            final(self)@.lists == old(self)@.lists.insert(
                list_name@,
                ids_of(old(self)@.lists, list_name@).insert(id),
            ),
            old(self)@.consistent() ==> !old(self)@.tasks.contains_key(id),
            old(self)@.consistent() ==> final(self)@.consistent(),
    {
        self.insert_new(list_name, task)
    }

    /// Puts an existing task into the list named `list_name` as well,
    /// creating that list if needed. The task is not copied: both lists hold
    /// the same id.
    ///
    /// # Errors
    ///
    /// [`TodoError::TaskNotFound`] if no task has that id; the board is then unchanged.
    pub fn assign_task_to_list(&mut self, task_id: u32, list_name: &str) -> (r: Result<(), TodoError>)
        requires
            old(self).wf(),
        ensures
            final(self).wf(),
            old(self)@.tasks.contains_key(task_id) ==> {
                &&& r == Ok::<(), TodoError>(())
                &&& final(self)@.lists == old(self)@.lists.insert(
                    list_name@,
                    ids_of(old(self)@.lists, list_name@).insert(task_id),
                )
                &&& final(self)@.tasks == old(self)@.tasks
                &&& final(self)@.next_id == old(self)@.next_id
            },
            !old(self)@.tasks.contains_key(task_id) ==> {
                &&& r == Err::<(), TodoError>(TodoError::TaskNotFound(task_id))
                &&& final(self)@ == old(self)@
            },
            old(self)@.consistent() ==> final(self)@.consistent(),
    {
        if !self.tasks.contains_key(&task_id) {
            return Err(TodoError::TaskNotFound(task_id));
        }
        let k = self.list_entry(list_name);
        self.insert_into(k, task_id);
        proof {
            let lists = self@.lists;
            let old_lists = old(self)@.lists;
            assert(lists =~= old_lists.insert(list_name@, ids_of(old_lists, list_name@).insert(task_id)));
            if old(self)@.consistent() {
                assert forall|m: Seq<char>, j: u32| #[trigger] old_lists.contains_key(m) && #[trigger] old_lists[m].contains(j)
                    implies lists.contains_key(m) && lists[m].contains(j) by {}
                lemma_held_kept(old_lists, lists, old(self)@.tasks);
                assert forall|m: Seq<char>, j: u32| #[trigger] lists.contains_key(m) && #[trigger] lists[m].contains(j)
                    implies self@.tasks.contains_key(j) by {
                    if j != task_id {
                        assert(old_lists.contains_key(m) && old_lists[m].contains(j));
                    }
                }
            }
        }
        Ok(())
    }


    /// Marks the task with the given id [`Status::Done`], in every list that holds it.
    ///
    /// # Errors
    ///
    /// [`TodoError::TaskNotFound`] if no task has that id; the board is then unchanged.
    pub fn complete_task(&mut self, task_id: u32) -> (r: Result<(), TodoError>)
        requires
            old(self).wf(),
        ensures
            final(self).wf(),
            old(self)@.tasks.contains_key(task_id) ==> {
                &&& r == Ok::<(), TodoError>(())
                &&& final(self)@.tasks == old(self)@.tasks.insert(
                    task_id,
                    TaskView { status: Status::Done, ..old(self)@.tasks[task_id] },
                )
                &&& final(self)@.lists == old(self)@.lists
                &&& final(self)@.next_id == old(self)@.next_id
            },
            !old(self)@.tasks.contains_key(task_id) ==> {
                &&& r == Err::<(), TodoError>(TodoError::TaskNotFound(task_id))
                &&& final(self)@ == old(self)@
            },
            old(self)@.consistent() ==> final(self)@.consistent(),
    {
        self.set_status(task_id, Status::Done)
    }

    /// Marks the task with the given id [`Status::InProgress`], in every list that holds it.
    ///
    /// # Errors
    ///
    /// [`TodoError::TaskNotFound`] if no task has that id; the board is then unchanged.
    pub fn set_in_progress(&mut self, task_id: u32) -> (r: Result<(), TodoError>)
        requires
            old(self).wf(),
        ensures
            final(self).wf(),
            old(self)@.tasks.contains_key(task_id) ==> {
                &&& r == Ok::<(), TodoError>(())
                &&& final(self)@.tasks == old(self)@.tasks.insert(
                    task_id,
                    TaskView { status: Status::InProgress, ..old(self)@.tasks[task_id] },
                )
                &&& final(self)@.lists == old(self)@.lists
                &&& final(self)@.next_id == old(self)@.next_id
            },
            !old(self)@.tasks.contains_key(task_id) ==> {
                &&& r == Err::<(), TodoError>(TodoError::TaskNotFound(task_id))
                &&& final(self)@ == old(self)@
            },
            old(self)@.consistent() ==> final(self)@.consistent(),
    {
        self.set_status(task_id, Status::InProgress)
    }

    fn set_status(&mut self, task_id: u32, status: Status) -> (r: Result<(), TodoError>)
        requires
            old(self).wf(),
        ensures
            final(self).wf(),
            old(self)@.tasks.contains_key(task_id) ==> {
                &&& r == Ok::<(), TodoError>(())
                &&& final(self)@.tasks == old(self)@.tasks.insert(
                    task_id,
                    TaskView { status: status, ..old(self)@.tasks[task_id] },
                )
                &&& final(self)@.lists == old(self)@.lists
                &&& final(self)@.next_id == old(self)@.next_id
            },
            !old(self)@.tasks.contains_key(task_id) ==> {
                &&& r == Err::<(), TodoError>(TodoError::TaskNotFound(task_id))
                &&& final(self)@ == old(self)@
            },
            old(self)@.consistent() ==> final(self)@.consistent(),
    {
        match self.tasks.remove(&task_id) {
            Some(mut task) => {
                task.status = status;
                self.tasks.insert(task_id, task);
                assert(self@.tasks =~= old(self)@.tasks.insert(
                    task_id,
                    TaskView { status: status, ..old(self)@.tasks[task_id] },
                ));
                Ok(())
            },
            None => {
                assert(self@.tasks =~= old(self)@.tasks);
                Err(TodoError::TaskNotFound(task_id))
            },
        }
    }

    /// The tasks of the list named `list_name` as lines
    /// `"<id> <icon> <description>"`, by ascending id. Empty when there is no
    /// such list or it holds no task; ids that name no task are passed over.
    pub fn list_tasks(&self, list_name: &str) -> (lines: Vec<String>)
        requires
            self.wf(),
        ensures
            !self@.lists.contains_key(list_name@) ==> lines@.len() == 0,
            self@.lists.contains_key(list_name@) ==> texts(lines@) == listing(
                sorted_ids(self@.lists[list_name@].intersect(self@.tasks.dom())),
                self@.tasks,
            ),
    {
        let key = String::from_str(list_name);
        let k = match self.find_list(&key) {
            Some(k) => k,
            None => {
                proof {
                    lemma_view_absent(self.lists@, list_name@);
                }
                return Vec::new();
            },
        };
        proof {
            lemma_view_at(self.lists@, k as int);
        }
        let held_ids = collect_set(&self.lists[k].ids);
        let mut present: Vec<u32> = Vec::new();
        let mut i: usize = 0;
        while i < held_ids.len()
            invariant
                i <= held_ids.len(),
                forall|x: u32| #[trigger] present@.contains(x) <==> (held_ids@.take(i as int).contains(x)
                    && self@.tasks.contains_key(x)),
            decreases held_ids.len() - i,
        {
            let id = held_ids[i];
            let ghost before = present@;
            let ghost cur = held_ids@.take(i as int);
            let ghost nxt = held_ids@.take(i + 1);
            assert(nxt =~= cur.push(id));
            if self.tasks.contains_key(&id) {
                present.push(id);
                assert forall|x: u32| #[trigger] present@.contains(x) <==> (nxt.contains(x)
                    && self@.tasks.contains_key(x)) by {
                    if x == id {
                        assert(present@[before.len() as int] == x);
                        assert(nxt[i as int] == x);
                    } else {
                        if present@.contains(x) {
                            let j = choose|j: int| 0 <= j < present@.len() && present@[j] == x;
                            assert(before[j] == x);
                            assert(before.contains(x));
                            let j2 = choose|j2: int| 0 <= j2 < i && cur[j2] == x;
                            assert(nxt[j2] == x);
                        }
                        if nxt.contains(x) && self@.tasks.contains_key(x) {
                            let j = choose|j: int| 0 <= j < i + 1 && nxt[j] == x;
                            assert(cur[j] == x);
                            assert(before.contains(x));
                            let j2 = choose|j2: int| 0 <= j2 < before.len() && before[j2] == x;
                            assert(present@[j2] == x);
                        }
                    }
                }
            } else {
                assert forall|x: u32| #[trigger] present@.contains(x) <==> (nxt.contains(x)
                    && self@.tasks.contains_key(x)) by {
                    if present@.contains(x) {
                        let j2 = choose|j2: int| 0 <= j2 < i && cur[j2] == x;
                        assert(nxt[j2] == x);
                    }
                    if nxt.contains(x) && self@.tasks.contains_key(x) {
                        let j = choose|j: int| 0 <= j < i + 1 && nxt[j] == x;
                        assert(j != i);
                        assert(cur[j] == x);
                    }
                }
            }
            i = i + 1;
        }
        let ids = sort_ids(&present);
        proof {
            assert(held_ids@.take(held_ids@.len() as int) =~= held_ids@);
            let want = self@.lists[list_name@].intersect(self@.tasks.dom());
            assert(present@.to_set() =~= want);
            assert(self.tasks@.dom() =~= self@.tasks.dom());
            lemma_sorted_ids(want);
            assert forall|j: int| 0 <= j < ids@.len() implies task_views(self.tasks@).contains_key(
                #[trigger] ids@[j],
            ) by {
                assert(ids@.contains(ids@[j]));
            }
        }
        task_lines(&self.tasks, &ids)
    }

    /// Whether some list holds the id.
    fn any_list_holds(&self, task_id: u32) -> (r: bool)
        requires
            self.wf(),
        ensures
            r == held(self@.lists, task_id),
    {
        let mut i: usize = 0;
        while i < self.lists.len()
            invariant
                self.wf(),
                i <= self.lists@.len(),
                forall|j: int| 0 <= j < i ==> !(#[trigger] self.lists@[j]).ids@.contains(task_id),
            decreases self.lists.len() - i,
        {
            if self.lists[i].ids.contains(&task_id) {
                proof {
                    lemma_view_at(self.lists@, i as int);
                }
                return true;
            }
            i = i + 1;
        }
        proof {
            if held(self@.lists, task_id) {
                let m = choose|m: Seq<char>| #[trigger] self@.lists.contains_key(m) && self@.lists[m].contains(task_id);
                let j = choose|j: int| 0 <= j < self.lists@.len() && #[trigger] self.lists@[j].name@ == m;
                lemma_view_at(self.lists@, j);
                assert(!self.lists@[j].ids@.contains(task_id));
            }
        }
        false
    }

    /// The names of the lists that hold the given id, each once, in no
    /// particular order.
    pub fn lists_containing(&self, task_id: u32) -> (names: Vec<String>)
        requires
            self.wf(),
        ensures
            texts(names@).no_duplicates(),
            forall|n: Seq<char>| #[trigger] texts(names@).contains(n) <==> (self@.lists.contains_key(n)
                && self@.lists[n].contains(task_id)),
    {
        let mut names: Vec<String> = Vec::new();
        let mut i: usize = 0;
        while i < self.lists.len()
            invariant
                self.wf(),
                i <= self.lists@.len(),
                forall|j: int| 0 <= j < names@.len() ==> holder_below(self.lists@, i as int, (#[trigger] names@[j])@, task_id),
                forall|q: int| 0 <= q < i && (#[trigger] self.lists@[q]).ids@.contains(task_id) ==> texts(names@).contains(self.lists@[q].name@),
                texts(names@).no_duplicates(),
            decreases self.lists.len() - i,
        {
            let ghost before = names@;
            if self.lists[i].ids.contains(&task_id) {
                let name = self.lists[i].name.clone();
                names.push(name);
                proof {
                    assert(names@[before.len() as int]@ == self.lists@[i as int].name@);
                    assert forall|a: int, b: int| 0 <= a < b < texts(names@).len() implies texts(names@)[a] != texts(names@)[b] by {
                        if b == before.len() {
                            assert(before[a] == names@[a]);
                            assert(holder_below(self.lists@, i as int, before[a]@, task_id));
                            let q = choose|q: int| 0 <= q < i && #[trigger] self.lists@[q].name@ == before[a]@ && self.lists@[q].ids@.contains(task_id);
                            assert(self.lists@[q].name@ != self.lists@[i as int].name@);
                        } else {
                            assert(texts(before)[a] != texts(before)[b]);
                        }
                    }
                }
            }
            proof {
                assert forall|j: int| 0 <= j < names@.len() implies holder_below(self.lists@, i + 1, (#[trigger] names@[j])@, task_id) by {
                    if j < before.len() {
                        assert(names@[j] == before[j]);
                        assert(holder_below(self.lists@, i as int, before[j]@, task_id));
                        let q = choose|q: int| 0 <= q < i && #[trigger] self.lists@[q].name@ == before[j]@ && self.lists@[q].ids@.contains(task_id);
                        assert(self.lists@[q].name@ == names@[j]@);
                    } else {
                        assert(self.lists@[i as int].name@ == names@[j]@);
                    }
                }
                assert forall|q: int| 0 <= q < i + 1 && (#[trigger] self.lists@[q]).ids@.contains(task_id) implies texts(names@).contains(self.lists@[q].name@) by {
                    if q < i {
                        assert(texts(before).contains(self.lists@[q].name@));
                        let j = choose|j: int| 0 <= j < texts(before).len() && texts(before)[j] == self.lists@[q].name@;
                        assert(names@[j] == before[j]);
                        assert(texts(names@)[j] == self.lists@[q].name@);
                    } else {
                        assert(texts(names@)[before.len() as int] == self.lists@[q].name@);
                    }
                }
            }
            i = i + 1;
        }
        proof {
            assert forall|n: Seq<char>| #[trigger] texts(names@).contains(n) <==> (self@.lists.contains_key(n)
                && self@.lists[n].contains(task_id)) by {
                if texts(names@).contains(n) {
                    let j = choose|j: int| 0 <= j < texts(names@).len() && texts(names@)[j] == n;
                    assert(names@[j]@ == n);
                    assert(holder_below(self.lists@, i as int, names@[j]@, task_id));
                    let q = choose|q: int| 0 <= q < i && #[trigger] self.lists@[q].name@ == n && self.lists@[q].ids@.contains(task_id);
                    lemma_view_at(self.lists@, q);
                }
                if self@.lists.contains_key(n) && self@.lists[n].contains(task_id) {
                    let q = choose|q: int| 0 <= q < self.lists@.len() && #[trigger] self.lists@[q].name@ == n;
                    lemma_view_at(self.lists@, q);
                    assert(self.lists@[q].ids@.contains(task_id));
                }
            }
        }
        names
    }


    /// Takes a task out of one list. The task itself stays while another list
    /// holds it; once no list holds it, it leaves the registry too, and when
    /// the registry is then empty, numbering starts again at 1.
    ///
    /// # Errors
    ///
    /// [`TodoError::TaskNotFound`] if there is no list named `list_name` or it
    /// does not hold the id; the board is then unchanged.
    pub fn remove_from_list(&mut self, task_id: u32, list_name: &str) -> (r: Result<(), TodoError>)
        requires
            old(self).wf(),
        ensures
            final(self).wf(),
            !(old(self)@.lists.contains_key(list_name@) && old(self)@.lists[list_name@].contains(task_id)) ==> {
                &&& r == Err::<(), TodoError>(TodoError::TaskNotFound(task_id))
                &&& final(self)@ == old(self)@
            },
            (old(self)@.lists.contains_key(list_name@) && old(self)@.lists[list_name@].contains(task_id)) ==> {
                &&& r == Ok::<(), TodoError>(())
                &&& final(self)@.lists == old(self)@.lists.insert(
                    list_name@,
                    old(self)@.lists[list_name@].remove(task_id),
                )
                &&& held_elsewhere(old(self)@.lists, list_name@, task_id) ==> {
                    &&& final(self)@.tasks == old(self)@.tasks
                    &&& final(self)@.next_id == old(self)@.next_id
                }
                &&& !held_elsewhere(old(self)@.lists, list_name@, task_id) ==> {
                    &&& final(self)@.tasks == old(self)@.tasks.remove(task_id)
                    &&& final(self)@.next_id == (if final(self)@.tasks.dom().is_empty() {
                        1
                    } else {
                        old(self)@.next_id
                    })
                }
            },
            old(self)@.consistent() ==> final(self)@.consistent(),
    {
        let key = String::from_str(list_name);
        let k = match self.find_list(&key) {
            Some(k) => k,
            None => {
                proof {
                    lemma_view_absent(self.lists@, list_name@);
                }
                return Err(TodoError::TaskNotFound(task_id));
            },
        };
        proof {
            lemma_view_at(self.lists@, k as int);
        }
        let ghost before = self.lists@;
        let removed = self.lists[k].ids.remove(&task_id);
        proof {
            assert(self.lists@ =~= before.update(k as int, self.lists@[k as int]));
            lemma_view_update(before, k as int, self.lists@[k as int]);
        }
        if !removed {
            proof {
                assert(self.lists@[k as int].ids@ =~= before[k as int].ids@);
                assert(self@.lists =~= old(self)@.lists);
            }
            return Err(TodoError::TaskNotFound(task_id));
        }
        proof {
            lemma_held_after_take(old(self)@.lists, list_name@, task_id);
        }
        if !self.any_list_holds(task_id) {
            self.tasks.remove(&task_id);
            assert(self@.tasks =~= old(self)@.tasks.remove(task_id));
            if self.tasks.is_empty() {
                self.next_id = 1;
            }
            proof {
                assert(self@.tasks.dom() =~= self.tasks@.dom());
            }
        }
        proof {
            if old(self)@.consistent() {
                lemma_take_consistent(old(self)@, self@, list_name@, task_id);
            }
        }
        Ok(())
    }

    /// Removes a task entirely: from the registry and from every list.
    /// When the registry is then empty, numbering starts again at 1.
    ///
    /// # Errors
    ///
    /// [`TodoError::TaskNotFound`] if no task has that id; the board is then unchanged.
    pub fn remove_task(&mut self, task_id: u32) -> (r: Result<(), TodoError>)
        requires
            old(self).wf(),
        ensures
            final(self).wf(),
            !old(self)@.tasks.contains_key(task_id) ==> {
                &&& r == Err::<(), TodoError>(TodoError::TaskNotFound(task_id))
                &&& final(self)@ == old(self)@
            },
            old(self)@.tasks.contains_key(task_id) ==> {
                &&& r == Ok::<(), TodoError>(())
                &&& final(self)@.tasks == old(self)@.tasks.remove(task_id)
                &&& final(self)@.lists == without_id(old(self)@.lists, task_id)
                &&& final(self)@.next_id == (if final(self)@.tasks.dom().is_empty() {
                    1
                } else {
                    old(self)@.next_id
                })
            },
            old(self)@.consistent() ==> final(self)@.consistent(),
    {
        match self.tasks.remove(&task_id) {
            None => {
                assert(self@.tasks =~= old(self)@.tasks);
                return Err(TodoError::TaskNotFound(task_id));
            },
            Some(_) => {},
        }
        assert(self@.tasks =~= old(self)@.tasks.remove(task_id));
        let ghost before = self.lists@;
        let ghost tasks_after = self.tasks@;
        let mut i: usize = 0;
        while i < self.lists.len()
            invariant
                self.tasks@ == tasks_after,
                self.next_id == old(self).next_id,
                names_distinct(before),
                i <= self.lists@.len(),
                self.lists@.len() == before.len(),
                forall|j: int| 0 <= j < before.len() ==> (#[trigger] self.lists@[j]).name@ == before[j].name@,
                forall|j: int| 0 <= j < i ==> (#[trigger] self.lists@[j]).ids@ == before[j].ids@.remove(task_id),
                forall|j: int| i <= j < before.len() ==> (#[trigger] self.lists@[j]).ids@ == before[j].ids@,
            decreases self.lists.len() - i,
        {
            let ghost prev = self.lists@;
            self.lists[i].ids.remove(&task_id);
            assert(self.lists@ =~= prev.update(i as int, self.lists@[i as int]));
            i = i + 1;
        }
        proof {
            assert forall|a: int, b: int| 0 <= a < self.lists@.len() && 0 <= b < self.lists@.len() && a != b implies
                #[trigger] self.lists@[a].name@ != #[trigger] self.lists@[b].name@ by {
                assert(before[a].name@ != before[b].name@);
            }
            let after = lists_view(self.lists@);
            let want = without_id(lists_view(before), task_id);
            assert forall|n: Seq<char>| #[trigger] after.contains_key(n) <==> want.contains_key(n) by {
                if after.contains_key(n) {
                    let q = choose|q: int| 0 <= q < self.lists@.len() && #[trigger] self.lists@[q].name@ == n;
                    assert(before[q].name@ == n);
                    lemma_view_at(before, q);
                }
                if want.contains_key(n) {
                    let q = choose|q: int| 0 <= q < before.len() && #[trigger] before[q].name@ == n;
                    assert(self.lists@[q].name@ == n);
                    lemma_view_at(self.lists@, q);
                }
            }
            assert forall|n: Seq<char>| #[trigger] after.contains_key(n) implies after[n] == want[n] by {
                let q = choose|q: int| 0 <= q < self.lists@.len() && #[trigger] self.lists@[q].name@ == n;
                lemma_view_at(self.lists@, q);
                assert(before[q].name@ == n);
                lemma_view_at(before, q);
            }
            assert(after =~= want);
        }
        if self.tasks.is_empty() {
            self.next_id = 1;
        }
        proof {
            assert(self@.tasks.dom() =~= self.tasks@.dom());
            assert(before == old(self).lists@);
            assert(self@.lists == without_id(old(self)@.lists, task_id));
            assert(self@.tasks == old(self)@.tasks.remove(task_id));
            if old(self)@.consistent() {
                let v = self@;
                let o = old(self)@;
                assert forall|n: Seq<char>, k: u32| #[trigger] v.lists.contains_key(n) && #[trigger] v.lists[n].contains(k)
                    implies v.tasks.contains_key(k) by {
                    assert(v.lists[n] == o.lists[n].remove(task_id));
                    assert(o.lists.contains_key(n) && o.lists[n].contains(k));
                    assert(k != task_id);
                }
                assert forall|k: u32| #[trigger] v.tasks.contains_key(k) implies held(v.lists, k) by {
                    assert(held(o.lists, k));
                    let m = choose|m: Seq<char>| #[trigger] o.lists.contains_key(m) && o.lists[m].contains(k);
                    assert(v.lists[m] == o.lists[m].remove(task_id));
                    assert(v.lists.contains_key(m) && v.lists[m].contains(k));
                }
            }
        }
        Ok(())
    }


    /// Deletes the list named `list_name`. Each task it holds is first taken
    /// out of it as [`Board::remove_from_list`] does, so the tasks that no
    /// other list holds leave the registry; then the list itself goes.
    ///
    /// # Errors
    ///
    /// [`TodoError::ListNotFound`] with the name if there is no such list; the
    /// board is then unchanged.
    pub fn delete_list(&mut self, list_name: &str) -> (r: Result<(), TodoError>)
        requires
            old(self).wf(),
        ensures
            final(self).wf(),
            !old(self)@.lists.contains_key(list_name@) ==> {
                &&& r matches Err(TodoError::ListNotFound(name)) && name@ == list_name@
                &&& final(self)@ == old(self)@
            },
            old(self)@.lists.contains_key(list_name@) ==> {
                let gone = orphans(old(self)@.lists, list_name@);
                &&& r == Ok::<(), TodoError>(())
                &&& final(self)@.lists == old(self)@.lists.remove(list_name@)
                &&& final(self)@.tasks == old(self)@.tasks.remove_keys(gone)
                &&& final(self)@.next_id == (if !gone.is_empty() && final(self)@.tasks.dom().is_empty() {
                    1
                } else {
                    old(self)@.next_id
                })
            },
            old(self)@.consistent() ==> final(self)@.consistent(),
    {
        let key = String::from_str(list_name);
        let k = match self.find_list(&key) {
            Some(k) => k,
            None => {
                proof {
                    lemma_view_absent(self.lists@, list_name@);
                }
                return Err(TodoError::ListNotFound(key));
            },
        };
        proof {
            lemma_view_at(self.lists@, k as int);
        }
        let ids = collect_set(&self.lists[k].ids);
        let ghost o = self@;
        let ghost n = list_name@;
        let ghost gone = orphans(o.lists, n);
        proof {
            let none = ids@.take(0).to_set();
            assert(none =~= Set::<u32>::empty());
            assert(o.lists[n].difference(none) =~= o.lists[n]);
            assert(o.lists.insert(n, o.lists[n].difference(none)) =~= o.lists);
            assert(gone.intersect(none) =~= Set::<u32>::empty());
            assert(o.tasks.remove_keys(gone.intersect(none)) =~= o.tasks);
        }
        let mut i: usize = 0;
        while i < ids.len()
            invariant
                self.wf(),
                i <= ids@.len(),
                o.lists.contains_key(n),
                ids@.no_duplicates(),
                ids@.to_set() == o.lists[n],
                gone == orphans(o.lists, n),
                self@.lists == o.lists.insert(n, o.lists[n].difference(ids@.take(i as int).to_set())),
                self@.tasks == o.tasks.remove_keys(gone.intersect(ids@.take(i as int).to_set())),
                self@.next_id == (if !gone.intersect(ids@.take(i as int).to_set()).is_empty()
                    && self@.tasks.dom().is_empty() {
                    1
                } else {
                    o.next_id
                }),
                o.consistent() ==> self@.consistent(),
                n == list_name@,
            decreases ids.len() - i,
        {
            let id = ids[i];
            let ghost cur = self@;
            let ghost done_before = ids@.take(i as int).to_set();
            let ghost done_after = ids@.take(i + 1).to_set();
            proof {
                assert(ids@.take(i + 1) =~= ids@.take(i as int).push(id));
                ids@.take(i as int).lemma_push_to_set_commute(id);
                assert(done_after =~= done_before.insert(id));
                assert(ids@.to_set().contains(id));
                if done_before.contains(id) {
                    let j = choose|j: int| 0 <= j < i && ids@.take(i as int)[j] == id;
                    assert(ids@[j] == ids@[i as int]);
                }
                assert(cur.lists[n].contains(id));
                lemma_held_elsewhere_same(o.lists, cur.lists, n, id);
            }
            let _ = self.remove_from_list(id, list_name);
            proof {
                assert(cur.lists[n].remove(id) =~= o.lists[n].difference(done_after));
                assert(self@.lists =~= o.lists.insert(n, o.lists[n].difference(done_after)));
                if held_elsewhere(o.lists, n, id) {
                    assert(!gone.contains(id));
                    assert(gone.intersect(done_after) =~= gone.intersect(done_before));
                } else {
                    assert(gone.contains(id));
                    assert(gone.intersect(done_after) =~= gone.intersect(done_before).insert(id));
                    assert(self@.tasks =~= o.tasks.remove_keys(gone.intersect(done_after)));
                    if !self@.tasks.dom().is_empty() {
                        let x = self@.tasks.dom().choose();
                        assert(self@.tasks.dom().contains(x));
                        assert(cur.tasks.dom().contains(x));
                    }
                }
            }
            i = i + 1;
        }
        proof {
            assert(ids@.take(i as int) =~= ids@);
            assert(ids@.take(i as int).to_set() =~= o.lists[n]);
            assert(gone.intersect(o.lists[n]) =~= gone);
            assert(o.lists[n].difference(o.lists[n]) =~= Set::<u32>::empty());
        }
        let k2 = match self.find_list(&key) {
            Some(k2) => k2,
            None => {
                proof {
                    lemma_view_absent(self.lists@, list_name@);
                    assert(false);
                }
                return Ok(());
            },
        };
        let ghost mid = self@;
        proof {
            lemma_view_remove(self.lists@, k2 as int);
        }
        self.lists.remove(k2);
        proof {
            assert(self@.lists =~= o.lists.remove(n));
            if o.consistent() {
                assert(mid.consistent());
                let v = self@;
                assert forall|m: Seq<char>, x: u32| #[trigger] v.lists.contains_key(m) && #[trigger] v.lists[m].contains(x)
                    implies v.tasks.contains_key(x) by {
                    assert(mid.lists.contains_key(m) && mid.lists[m].contains(x));
                }
                assert forall|x: u32| #[trigger] v.tasks.contains_key(x) implies held(v.lists, x) by {
                    assert(held(mid.lists, x));
                    let m = choose|m: Seq<char>| #[trigger] mid.lists.contains_key(m) && mid.lists[m].contains(x);
                    assert(m != n);
                    assert(v.lists.contains_key(m) && v.lists[m].contains(x));
                }
            }
        }
        Ok(())
    }


    /// The names of all lists, empty ones included, in ascending order
    /// ([`text_lt`], the order of Rust's string comparison).
    pub fn list_names(&self) -> (names: Vec<String>)
        requires
            self.wf(),
        ensures
            forall|a: int, b: int| 0 <= a < b < names@.len() ==> text_lt(#[trigger] names@[a]@, #[trigger] names@[b]@),
            forall|n: Seq<char>| #[trigger] texts(names@).contains(n) <==> self@.lists.contains_key(n),
    {
        let mut names: Vec<String> = Vec::new();
        let mut i: usize = 0;
        while i < self.lists.len()
            invariant
                self.wf(),
                i <= self.lists@.len(),
                forall|a: int, b: int| 0 <= a < b < names@.len() ==> text_lt(#[trigger] names@[a]@, #[trigger] names@[b]@),
                forall|n: Seq<char>| #[trigger] texts(names@).contains(n) <==> named_below(self.lists@, i as int, n),
            decreases self.lists.len() - i,
        {
            let name = self.lists[i].name.clone();
            let ghost x = name@;
            assert(x == self.lists@[i as int].name@);
            assert(!texts(names@).contains(x)) by {
                if texts(names@).contains(x) {
                    let q = choose|q: int| 0 <= q < i && #[trigger] self.lists@[q].name@ == x;
                    assert(self.lists@[q].name@ != self.lists@[i as int].name@);
                }
            }
            let mut p: usize = 0;
            while p < names.len() && text_less(&names[p], &name)
                invariant
                    p <= names@.len(),
                    forall|q: int| 0 <= q < p ==> text_lt(#[trigger] names@[q]@, x),
                    name@ == x,
                decreases names.len() - p,
            {
                p = p + 1;
            }
            let ghost before = names@;
            proof {
                if p < before.len() {
                    assert(texts(before)[p as int] == before[p as int]@);
                    assert(before[p as int]@ != x);
                    lemma_text_lt_total(before[p as int]@, x);
                }
            }
            names.insert(p, name);
            proof {
                assert forall|a: int, b: int| 0 <= a < b < names@.len() implies text_lt(#[trigger] names@[a]@, #[trigger] names@[b]@) by {
                    if b < p {
                        assert(names@[a] == before[a] && names@[b] == before[b]);
                    } else if b == p {
                        assert(names@[a] == before[a]);
                    } else if a < p {
                        assert(names@[a] == before[a] && names@[b] == before[b - 1]);
                        if b - 1 > p {
                            lemma_text_lt_transitive(x, before[p as int]@, before[b - 1]@);
                        }
                        lemma_text_lt_transitive(before[a]@, x, before[b - 1]@);
                    } else if a == p {
                        assert(names@[b] == before[b - 1]);
                        if b - 1 > p {
                            lemma_text_lt_transitive(x, before[p as int]@, before[b - 1]@);
                        }
                    } else {
                        assert(names@[a] == before[a - 1] && names@[b] == before[b - 1]);
                    }
                }
                assert forall|n: Seq<char>| #[trigger] texts(names@).contains(n) <==> named_below(self.lists@, i + 1, n) by {
                    if texts(names@).contains(n) {
                        let j = choose|j: int| 0 <= j < texts(names@).len() && texts(names@)[j] == n;
                        if j < p {
                            assert(texts(before)[j] == n);
                        } else if j > p {
                            assert(texts(before)[j - 1] == n);
                        } else {
                            assert(self.lists@[i as int].name@ == n);
                        }
                        if n != x {
                            assert(texts(before).contains(n));
                            let q = choose|q: int| 0 <= q < i && #[trigger] self.lists@[q].name@ == n;
                            assert(self.lists@[q].name@ == n);
                        }
                    }
                    if named_below(self.lists@, i + 1, n) {
                        let q = choose|q: int| 0 <= q < i + 1 && #[trigger] self.lists@[q].name@ == n;
                        if q == i {
                            assert(texts(names@)[p as int] == n);
                        } else {
                            assert(named_below(self.lists@, i as int, n));
                            assert(texts(before).contains(n));
                            let j = choose|j: int| 0 <= j < texts(before).len() && texts(before)[j] == n;
                            if j < p {
                                assert(texts(names@)[j] == n);
                            } else {
                                assert(texts(names@)[j + 1] == n);
                            }
                        }
                    }
                }
            }
            i = i + 1;
        }
        proof {
            assert forall|n: Seq<char>| #[trigger] texts(names@).contains(n) <==> self@.lists.contains_key(n) by {
                if named_below(self.lists@, i as int, n) {
                    let q = choose|q: int| 0 <= q < i && #[trigger] self.lists@[q].name@ == n;
                    lemma_view_at(self.lists@, q);
                }
                if self@.lists.contains_key(n) {
                    let q = choose|q: int| 0 <= q < self.lists@.len() && #[trigger] self.lists@[q].name@ == n;
                    assert(named_below(self.lists@, i as int, n));
                }
            }
        }
        names
    }


    /// Replaces the set of ids of the list at position `k`.
    fn set_ids(&mut self, k: usize, ids: HashSet<u32>)
        requires
            old(self).wf(),
            k < old(self).lists@.len(),
        ensures
            final(self).wf(),
            final(self)@.lists == old(self)@.lists.insert(old(self).lists@[k as int].name@, ids@),
            final(self).tasks == old(self).tasks,
            final(self).next_id == old(self).next_id,
    {
        let ghost before = self.lists@;
        self.lists[k].ids = ids;
        proof {
            assert(self.lists@ =~= before.update(k as int, self.lists@[k as int]));
            lemma_view_update(before, k as int, self.lists@[k as int]);
        }
    }

    /// A board made of stored parts: the task entries and the lists, each
    /// inserted in order (where an id or a name comes twice the later one
    /// stands), and the id counter as stored.
    pub fn from_parts(tasks: &Vec<(u32, Task)>, lists: &Vec<(String, Vec<u32>)>, next_id: u32) -> (board: Board)
        ensures
            board.wf(),
            board@.tasks == entries_map(entry_views(tasks@)),
            board@.lists == lists_map(list_views(lists@)),
            board@.next_id == next_id,
    {
        let mut board = Board { tasks: build_task_map(tasks), lists: Vec::new(), next_id };
        proof {
            assert(board@.lists =~= lists_map(list_views(lists@).take(0)));
        }
        let mut i: usize = 0;
        while i < lists.len()
            invariant
                board.wf(),
                i <= lists@.len(),
                board@.tasks == entries_map(entry_views(tasks@)),
                board@.next_id == next_id,
                board@.lists == lists_map(list_views(lists@).take(i as int)),
            decreases lists.len() - i,
        {
            let mut set: HashSet<u32> = HashSet::new();
            let mut j: usize = 0;
            while j < lists[i].1.len()
                invariant
                    i < lists@.len(),
                    j <= lists@[i as int].1@.len(),
                    set@ == lists@[i as int].1@.take(j as int).to_set(),
                decreases lists@[i as int].1@.len() - j,
            {
                let id = lists[i].1[j];
                set.insert(id);
                proof {
                    lists@[i as int].1@.take(j as int).lemma_push_to_set_commute(id);
                    assert(lists@[i as int].1@.take(j + 1) =~= lists@[i as int].1@.take(j as int).push(id));
                }
                j = j + 1;
            }
            proof {
                assert(lists@[i as int].1@.take(j as int) =~= lists@[i as int].1@);
            }
            let k = board.list_entry(lists[i].0.as_str());
            board.set_ids(k, set);
            proof {
                let all = list_views(lists@);
                assert(all.take(i + 1).drop_last() =~= all.take(i as int));
                assert(all.take(i + 1).last() == (lists@[i as int].0@, lists@[i as int].1@.to_set()));
                assert(board@.lists =~= lists_map(all.take(i + 1)));
            }
            i = i + 1;
        }
        proof {
            assert(list_views(lists@).take(i as int) =~= list_views(lists@));
        }
        board
    }

    /// The tasks with their ids, by ascending id.
    pub fn task_entries(&self) -> (entries: Vec<(u32, Task)>)
        ensures
            entry_views(entries@).map_values(|e: (u32, TaskView)| e.0) == sorted_ids(self@.tasks.dom()),
            entries_map(entry_views(entries@)) == self@.tasks,
    {
        let ids = sort_ids(&collect_keys(&self.tasks));
        proof {
            assert(self.tasks@.dom() =~= self@.tasks.dom());
            lemma_sorted_ids(self@.tasks.dom());
            assert forall|j: int| 0 <= j < ids@.len() implies task_views(self.tasks@).contains_key(
                #[trigger] ids@[j],
            ) by {
                assert(ids@.contains(ids@[j]));
            }
        }
        task_entries(&self.tasks, &ids)
    }

    /// Every list with the ids it holds (by ascending id), one entry per
    /// list, names all different.
    pub fn list_entries(&self) -> (entries: Vec<(String, Vec<u32>)>)
        requires
            self.wf(),
        ensures
            lists_map(list_views(entries@)) == self@.lists,
            forall|a: int, b: int| 0 <= a < b < entries@.len() ==> (#[trigger] entries@[a]).0@ != (#[trigger] entries@[b]).0@,
            forall|a: int| 0 <= a < entries@.len() ==> (#[trigger] entries@[a]).1@ == sorted_ids(entries@[a].1@.to_set()),
    {
        let mut entries: Vec<(String, Vec<u32>)> = Vec::new();
        let mut i: usize = 0;
        while i < self.lists.len()
            invariant
                self.wf(),
                i <= self.lists@.len(),
                entries@.len() == i,
                forall|a: int| 0 <= a < i ==> (#[trigger] entries@[a]).0@ == self.lists@[a].name@,
                forall|a: int| 0 <= a < i ==> (#[trigger] entries@[a]).1@.to_set() == self.lists@[a].ids@,
                forall|a: int| 0 <= a < i ==> (#[trigger] entries@[a]).1@ == sorted_ids(entries@[a].1@.to_set()),
            decreases self.lists.len() - i,
        {
            let ids = sort_ids(&collect_set(&self.lists[i].ids));
            proof {
                lemma_sorted_ids(self.lists@[i as int].ids@);
                assert(ids@.to_set() =~= self.lists@[i as int].ids@);
            }
            entries.push((self.lists[i].name.clone(), ids));
            i = i + 1;
        }
        proof {
            lemma_lists_map_of_entries(self.lists@, list_views(entries@));
            assert forall|a: int, b: int| 0 <= a < b < entries@.len() implies (#[trigger] entries@[a]).0@ != (#[trigger] entries@[b]).0@ by {
                assert(self.lists@[a].name@ != self.lists@[b].name@);
            }
        }
        entries
    }

    /// The id that the next added task gets.
    pub fn next_id(&self) -> (n: u32)
        ensures
            n == self@.next_id,
    {
        self.next_id
    }

}

} // verus!
