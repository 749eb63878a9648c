//! Task ids in ascending order: the listing of a set of ids, and how to
//! obtain it from ids that come in any order.
use vstd::prelude::*;
use vstd::std_specs::iter::IteratorSpec;

verus! {

/// Every id of `s` is smaller than the next one.
pub open spec fn ascending(s: Seq<u32>) -> bool {
    forall|i: int, j: int| 0 <= i < j < s.len() ==> s[i] < s[j]
}

/// The ids of `set` that are below `n`, in ascending order.
pub open spec fn ascending_below(set: Set<u32>, n: nat) -> Seq<u32>
    decreases n,
{
    if n == 0 {
        Seq::empty()
    } else {
        let prev = ascending_below(set, (n - 1) as nat);
        if set.contains((n - 1) as u32) {
            prev.push((n - 1) as u32)
        } else {
            prev
        }
    }
}

/// All ids of `set` in ascending order.
pub open spec fn sorted_ids(set: Set<u32>) -> Seq<u32> {
    ascending_below(set, 0x1_0000_0000)
}

proof fn lemma_ascending_below(set: Set<u32>, n: nat)
    requires
        n <= 0x1_0000_0000,
    ensures
        ascending(ascending_below(set, n)),
        forall|x: u32| #[trigger] ascending_below(set, n).contains(x) <==> (set.contains(x) && x < n),
    decreases n,
{
    if n > 0 {
        lemma_ascending_below(set, (n - 1) as nat);
        let prev = ascending_below(set, (n - 1) as nat);
        assert((n - 1) as u32 == n - 1);
        if set.contains((n - 1) as u32) {
            let pushed = prev.push((n - 1) as u32);
            assert forall|x: u32| #[trigger] pushed.contains(x) <==> (set.contains(x) && x < n) by {
                if x == (n - 1) as u32 {
                    assert(pushed[prev.len() as int] == x);
                } else if pushed.contains(x) {
                    let k = choose|k: int| 0 <= k < pushed.len() && pushed[k] == x;
                    assert(k != prev.len());
                    assert(prev[k] == x);
                    assert(prev.contains(x));
                } else if set.contains(x) && x < n {
                    assert(prev.contains(x));
                    let k = choose|k: int| 0 <= k < prev.len() && prev[k] == x;
                    assert(pushed[k] == x);
                }
            }
            assert forall|i: int, j: int| 0 <= i < j < pushed.len() implies #[trigger] pushed[i]
                < #[trigger] pushed[j] by {
                if j == prev.len() {
                    assert(prev.contains(prev[i]));
                }
            }
        }
    }
}

proof fn lemma_ascending_unique(set: Set<u32>, n: nat, ks: Seq<u32>)
    requires
        n <= 0x1_0000_0000,
        ascending(ks),
        forall|x: u32| #[trigger] ks.contains(x) <==> (set.contains(x) && x < n),
    ensures
        ks == ascending_below(set, n),
    decreases n,
{
    if n == 0 {
        if ks.len() > 0 {
            assert(ks.contains(ks[0]));
        }
        assert(ks =~= Seq::<u32>::empty());
    } else {
        let m = (n - 1) as u32;
        if set.contains(m) {
            assert(ks.contains(m));
            let j = choose|j: int| 0 <= j < ks.len() && ks[j] == m;
            let last = ks.len() - 1;
            if j < last {
                assert(ks.contains(ks[last]));
                assert(false);
            }
            let rest = ks.drop_last();
            assert forall|x: u32| #[trigger] rest.contains(x) <==> (set.contains(x) && x < m) by {
                if rest.contains(x) {
                    let k = choose|k: int| 0 <= k < rest.len() && rest[k] == x;
                    assert(ks[k] == x);
                    assert(ks.contains(x));
                } else if set.contains(x) && x < m {
                    assert(ks.contains(x));
                    let k = choose|k: int| 0 <= k < ks.len() && ks[k] == x;
                    assert(k != last);
                    assert(rest[k] == x);
                }
            }
            lemma_ascending_unique(set, (n - 1) as nat, rest);
            assert(ks =~= rest.push(m));
        } else {
            assert forall|x: u32| #[trigger] ks.contains(x) <==> (set.contains(x) && x < m) by {
                if ks.contains(x) {
                    assert(x != m);
                }
            }
            lemma_ascending_unique(set, (n - 1) as nat, ks);
        }
    }
}

/// The ascending listing of a set of ids holds exactly its ids, in ascending order.
pub proof fn lemma_sorted_ids(set: Set<u32>)
    ensures
        ascending(sorted_ids(set)),
        forall|x: u32| #[trigger] sorted_ids(set).contains(x) <==> set.contains(x),
{
    lemma_ascending_below(set, 0x1_0000_0000);
}

/// An ascending sequence of ids is the ascending listing of the set of its ids.
pub proof fn lemma_sorted_ids_unique(set: Set<u32>, ks: Seq<u32>)
    requires
        ascending(ks),
        forall|x: u32| #[trigger] ks.contains(x) <==> set.contains(x),
    ensures
        ks == sorted_ids(set),
{
    lemma_ascending_unique(set, 0x1_0000_0000, ks);
}

/// Sorts distinct ids into ascending order (insertion sort).
pub fn sort_ids(v: &Vec<u32>) -> (r: Vec<u32>)
    ensures
        r@ == sorted_ids(v@.to_set()),
{
    let mut r: Vec<u32> = Vec::new();
    let mut i: usize = 0;
    while i < v.len()
        invariant
            i <= v.len(),
            ascending(r@),
            forall|x: u32| #[trigger] r@.contains(x) <==> v@.take(i as int).contains(x),
        decreases v.len() - i,
    {
        let x = v[i];
        let mut p: usize = 0;
        while p < r.len() && r[p] < x
            invariant
                p <= r.len(),
                forall|k: int| 0 <= k < p ==> r@[k] < x,
            decreases r.len() - p,
        {
            p = p + 1;
        }
        let ghost old_r = r@;
        let ghost cur = v@.take(i as int);
        let ghost next = v@.take(i + 1);
        assert(next =~= cur.push(x));
        if p < r.len() && r[p] == x {
            assert forall|y: u32| #[trigger] r@.contains(y) <==> next.contains(y) by {
                if y == x {
                    assert(r@[p as int] == x);
                    assert(next[i as int] == x);
                } else if next.contains(y) {
                    let k = choose|k: int| 0 <= k < i + 1 && next[k] == y;
                    assert(cur[k] == y);
                    assert(cur.contains(y));
                } else if r@.contains(y) {
                    assert(cur.contains(y));
                    let k = choose|k: int| 0 <= k < i && cur[k] == y;
                    assert(next[k] == y);
                }
            }
        } else {
            r.insert(p, x);
            assert forall|a: int, b: int| 0 <= a < b < r@.len() implies r@[a] < r@[b] by {
                if b < p {
                } else if b == p {
                } else if a < p {
                    assert(r@[b] == old_r[b - 1]);
                    if p < old_r.len() {
                        assert(old_r[p as int] >= x);
                        if b - 1 > p {
                            assert(old_r[p as int] < old_r[b - 1]);
                        }
                    }
                } else if a == p {
                    assert(r@[b] == old_r[b - 1]);
                    if b - 1 > p {
                        assert(old_r[p as int] < old_r[b - 1]);
                    }
                } else {
                    assert(r@[a] == old_r[a - 1]);
                    assert(r@[b] == old_r[b - 1]);
                }
            }
            assert forall|y: u32| #[trigger] r@.contains(y) <==> next.contains(y) by {
                if r@.contains(y) {
                    let k = choose|k: int| 0 <= k < r@.len() && r@[k] == y;
                    if y != x {
                        if k < p {
                            assert(old_r[k] == y);
                            assert(old_r.contains(y));
                        } else {
                            assert(old_r[k - 1] == y);
                            assert(old_r.contains(y));
                        }
                        assert(cur.contains(y));
                        let k2 = choose|k2: int| 0 <= k2 < i && cur[k2] == y;
                        assert(next[k2] == y);
                    } else {
                        assert(next[i as int] == x);
                    }
                }
                if next.contains(y) {
                    if y == x {
                        assert(r@[p as int] == x);
                    } else {
                        let k1 = choose|k1: int| 0 <= k1 < i + 1 && next[k1] == y;
                        assert(cur[k1] == y);
                        assert(cur.contains(y));
                        assert(old_r.contains(y));
                        let k = choose|k: int| 0 <= k < old_r.len() && old_r[k] == y;
                        if k < p {
                            assert(r@[k] == y);
                        } else {
                            assert(r@[k + 1] == y);
                        }
                    }
                }
            }
        }
        i = i + 1;
    }
    proof {
        assert(v@.take(v@.len() as int) =~= v@);
        assert forall|x: u32| #[trigger] r@.contains(x) <==> v@.to_set().contains(x) by {}
        lemma_sorted_ids_unique(v@.to_set(), r@);
    }
    r
}

} // verus!

verus! {

/// The ids that are keys of `m`, in the order in which the map hands them out.
pub fn collect_keys<V>(m: &std::collections::HashMap<u32, V>) -> (v: Vec<u32>)
    ensures
        v@.to_set() == m@.dom(),
{
    broadcast use vstd::std_specs::hash::group_hash_axioms;
    let mut v: Vec<u32> = Vec::new();
    let ghost all: Seq<u32> = m.keys().remaining().unref();
    for k in it: m.keys()
        invariant
            it.seq().unref() == all,
            all.to_set() == m@.dom(),
            v@ == all.take(it.index() as int),
    {
        v.push(*k);
        assert(v@ =~= all.take(it.index() + 1));
    }
    assert(v@ =~= all);
    v
}

} // verus!

verus! {

/// The ids of `set`, in the order in which the set hands them out.
pub fn collect_set(set: &std::collections::HashSet<u32>) -> (v: Vec<u32>)
    ensures
        v@.to_set() == set@,
        v@.no_duplicates(),
{
    broadcast use vstd::std_specs::hash::group_hash_axioms;
    let mut v: Vec<u32> = Vec::new();
    let ghost all: Seq<u32> = set.iter().remaining().unref();
    for k in it: set.iter()
        invariant
            it.seq().unref() == all,
            all.to_set() == set@,
            all.no_duplicates(),
            v@ == all.take(it.index() as int),
    {
        v.push(*k);
        assert(v@ =~= all.take(it.index() + 1));
    }
    assert(v@ =~= all);
    v
}

} // verus!
