//! Cleaning up after a timed-out agent: which processes to kill.
//!
//! The caller lists the running processes (`/proc`) and sends the signals; this
//! module reads a process's parent from its status text and collects a process
//! together with all of its descendants.

use vstd::prelude::*;
use vstd::set_lib::lemma_len_subset;
use std::collections::{HashMap, VecDeque};
use crate::text::{
    decimal,
    has_prefix,
    is_digit,
    is_white_space,
    law_parse_decimal_roundtrip,
    lemma_decimal_digits,
    parse_u32,
    parse_u32_spec,
    push_chars,
    chars_of,
};

verus! {

// ───────────────────────────── descendants ─────────────────────────────

/// Some listing entry names `child` as a process whose parent is `parent`.
pub open spec fn lists_child(procs: Seq<(u32, u32)>, child: u32, parent: u32) -> bool {
    exists|m: int| 0 <= m < procs.len() && #[trigger] procs[m] == (child, parent)
}

/// The processes to kill for `root`: `root` first, each process at most once,
/// every later one listed as a child of an earlier one, and every listed child
/// of a collected process collected too. Together these make the collection
/// exactly `root` and its descendants.
pub open spec fn is_kill_set(root: u32, procs: Seq<(u32, u32)>, r: Seq<u32>) -> bool {
    &&& r.len() >= 1
    &&& r[0] == root
    &&& r.no_duplicates()
    &&& forall|j: int|
        1 <= j < r.len() ==> exists|k: int| 0 <= k < j && lists_child(procs, #[trigger] r[j], r[k])
    &&& forall|m: int, k: int|
        #![trigger procs[m], r[k]]
        0 <= m < procs.len() && 0 <= k < r.len() && procs[m].1 == r[k] ==> r.contains(procs[m].0)
}

fn contains_pid(v: &Vec<u32>, x: u32) -> (b: bool)
    ensures
        b == v@.contains(x),
{
    let mut i: usize = 0;
    while i < v.len()
        invariant
            i <= v@.len(),
            forall|j: int| 0 <= j < i ==> v@[j] != x,
        decreases v@.len() - i,
    {
        if v[i] == x {
            return true;
        }
        i = i + 1;
    }
    false
}

/// The candidates: `root` and every listed process.
pub open spec fn universe(root: u32, procs: Seq<(u32, u32)>) -> Seq<u32> {
    seq![root] + procs.map_values(|p: (u32, u32)| p.0)
}

proof fn lemma_distinct_bound(r: Seq<u32>, u: Seq<u32>)
    requires
        r.no_duplicates(),
        forall|i: int| 0 <= i < r.len() ==> u.contains(#[trigger] r[i]),
    ensures
        r.len() <= u.len(),
{
    broadcast use vstd::seq_lib::group_seq_properties;
    r.unique_seq_to_set();
    u.lemma_cardinality_of_set();
    assert(r.to_set().subset_of(u.to_set()));
    lemma_len_subset(r.to_set(), u.to_set());
}

/// The positions, in increasing order, of the first `n` listing entries whose
/// parent is `p`.
pub open spec fn entries_of(procs: Seq<(u32, u32)>, p: u32, n: nat) -> Seq<usize>
    decreases n,
{
    if n == 0 {
        Seq::empty()
    } else if procs[n - 1].1 == p {
        entries_of(procs, p, (n - 1) as nat).push((n - 1) as usize)
    } else {
        entries_of(procs, p, (n - 1) as nat)
    }
}

/// `entries_of` holds exactly the matching positions below `n`, each once and
/// in increasing order.
proof fn lemma_entries_of(procs: Seq<(u32, u32)>, p: u32, n: nat)
    requires
        n <= procs.len() <= usize::MAX,
    ensures
        forall|t: int|
            0 <= t < entries_of(procs, p, n).len() ==> {
                &&& #[trigger] entries_of(procs, p, n)[t] < n
                &&& procs[entries_of(procs, p, n)[t] as int].1 == p
            },
        forall|t: int, t2: int|
            0 <= t < t2 < entries_of(procs, p, n).len() ==> #[trigger] entries_of(procs, p, n)[t]
                < #[trigger] entries_of(procs, p, n)[t2],
        forall|mm: int|
            0 <= mm < n && #[trigger] procs[mm].1 == p ==> exists|t: int|
                0 <= t < entries_of(procs, p, n).len() && #[trigger] entries_of(procs, p, n)[t]
                    == mm,
    decreases n,
{
    if n > 0 {
        lemma_entries_of(procs, p, (n - 1) as nat);
        let e0 = entries_of(procs, p, (n - 1) as nat);
        let e = entries_of(procs, p, n);
        if procs[n - 1].1 == p {
            assert(e == e0.push((n - 1) as usize));
            assert forall|mm: int| 0 <= mm < n && #[trigger] procs[mm].1 == p implies exists|t: int|
                0 <= t < e.len() && #[trigger] e[t] == mm by {
                if mm == n - 1 {
                    assert(e[e0.len() as int] == mm);
                } else {
                    let t = choose|t: int| 0 <= t < e0.len() && #[trigger] e0[t] == mm;
                    assert(e[t] == e0[t]);
                }
            }
        }
    }
}

/// Groups the listing by parent: each parent id maps to the positions of its
/// entries, in listing order.
fn children_by_parent(procs: &Vec<(u32, u32)>) -> (map: HashMap<u32, Vec<usize>>)
    ensures
        forall|p: u32|
            #[trigger] map@.contains_key(p) <==> entries_of(procs@, p, procs@.len()).len() > 0,
        forall|p: u32| #[trigger] map@.contains_key(p) ==> map@[p]@ == entries_of(procs@, p, procs@.len()),
{
    broadcast use vstd::std_specs::hash::group_hash_axioms;
    let mut map: HashMap<u32, Vec<usize>> = HashMap::new();
    let mut m: usize = 0;
    while m < procs.len()
        invariant
            m <= procs@.len(),
            forall|p: u32|
                #[trigger] map@.contains_key(p) <==> entries_of(procs@, p, m as nat).len() > 0,
            forall|p: u32| #[trigger] map@.contains_key(p) ==> map@[p]@ == entries_of(procs@, p, m as nat),
        decreases procs@.len() - m,
    {
        let (_c, pp) = procs[m];
        let ghost old_map = map@;
        let entries = match map.remove(&pp) {
            Some(mut v) => {
                v.push(m);
                v
            },
            None => {
                let mut v: Vec<usize> = Vec::new();
                v.push(m);
                v
            },
        };
        map.insert(pp, entries);
        proof {
            assert forall|p: u32| #[trigger] map@.contains_key(p) <==> entries_of(procs@, p, (m + 1) as nat).len() > 0 by {
                if p != pp {
                    assert(entries_of(procs@, p, (m + 1) as nat) == entries_of(procs@, p, m as nat));
                }
            }
            assert forall|p: u32| #[trigger] map@.contains_key(p) implies map@[p]@ == entries_of(procs@, p, (m + 1) as nat) by {
                if p != pp {
                    assert(entries_of(procs@, p, (m + 1) as nat) == entries_of(procs@, p, m as nat));
                } else if old_map.contains_key(pp) {
                    assert(entries_of(procs@, p, (m + 1) as nat) == entries_of(procs@, p, m as nat).push(m));
                } else {
                    assert(entries_of(procs@, p, m as nat).len() == 0);
                    assert(entries_of(procs@, p, (m + 1) as nat) =~= seq![m]);
                }
            }
        }
        m = m + 1;
    }
    map
}

/// The position of entry `t` of `idxs`, or `n` past the last one.
pub open spec fn next_entry(idxs: Seq<usize>, t: int, n: nat) -> int {
    if 0 <= t < idxs.len() {
        idxs[t] as int
    } else {
        n as int
    }
}

/// Between entry `t` of a parent's positions and the next one (or the end of
/// the listing), no entry has that parent.
proof fn lemma_no_entry_between(procs: Seq<(u32, u32)>, p: u32, idxs: Seq<usize>, t: int, mm: int)
    requires
        procs.len() <= usize::MAX,
        idxs == entries_of(procs, p, procs.len()),
        0 <= t < idxs.len(),
        idxs[t] < mm < next_entry(idxs, t + 1, procs.len()),
        mm < procs.len(),
    ensures
        procs[mm].1 != p,
{
    lemma_entries_of(procs, p, procs.len());
    if procs[mm].1 == p {
        let t2 = choose|t2: int| 0 <= t2 < idxs.len() && #[trigger] idxs[t2] == mm;
        if t2 <= t {
            if t2 < t {
                assert(idxs[t2] < idxs[t]);
            }
        } else if t2 > t + 1 {
            assert(idxs[t + 1] < idxs[t2]);
        }
    }
}

/// `a` comes before `b` in lexicographic order.
pub open spec fn lex_lt(a: (int, int), b: (int, int)) -> bool {
    a.0 < b.0 || (a.0 == b.0 && a.1 < b.1)
}

/// `keys[j] = (k, m)` records how `r[j]` (for `j >= 1`) was reached: listing
/// entry `m` names it as a child of `r[k]`, an earlier element.
pub open spec fn reached_by(procs: Seq<(u32, u32)>, r: Seq<u32>, keys: Seq<(int, int)>, j: int) -> bool {
    &&& 0 <= keys[j].0 < j
    &&& 0 <= keys[j].1 < procs.len()
    &&& procs[keys[j].1] == (r[j], r[keys[j].0])
}

/// Breadth-first order: each element after `root` is reached through its
/// earliest-collected parent and, among that parent's entries, the first in the
/// listing; and the elements come in the order of these (parent, entry) pairs.
pub open spec fn is_breadth_first(procs: Seq<(u32, u32)>, r: Seq<u32>, keys: Seq<(int, int)>) -> bool {
    &&& keys.len() == r.len()
    &&& forall|j: int| 1 <= j < r.len() ==> #[trigger] reached_by(procs, r, keys, j)
    &&& forall|j: int, j2: int|
        1 <= j < j2 < r.len() ==> lex_lt(#[trigger] keys[j], #[trigger] keys[j2])
    &&& forall|j: int, k: int, m: int|
        #![trigger procs[m], r[j], r[k]]
        1 <= j < r.len() && 0 <= k < r.len() && 0 <= m < procs.len() && procs[m] == (r[j], r[k])
            ==> !lex_lt((k, m), keys[j])
}

/// `root` and all of its descendants in the process listing `procs` (pairs of
/// a process id and its parent's id), breadth first: `root`, then the children
/// of each collected process in listing order. The listing is grouped by parent
/// once; a queue holds the processes whose children are still to be collected.
/// A process reached a second time (a reused id that closes a cycle, or an id
/// listed twice) is collected once, so the walk always ends; on a listing where
/// each process appears once and no cycle is reachable this never happens (see
/// `law_kill_order_takes_every_entry`).
pub fn kill_order(root: u32, procs: &Vec<(u32, u32)>) -> (r: Vec<u32>)
    ensures
        is_kill_set(root, procs@, r@),
        exists|keys: Seq<(int, int)>| is_breadth_first(procs@, r@, keys),
{
    broadcast use vstd::std_specs::hash::group_hash_axioms;
    let children_of = children_by_parent(procs);
    let ghost u = universe(root, procs@);
    let mut r: Vec<u32> = Vec::new();
    r.push(root);
    let mut queue: VecDeque<u32> = VecDeque::new();
    queue.push_back(root);
    let ghost mut keys: Seq<(int, int)> = seq![(-1int, -1int)];
    assert(u[0] == root);
    let mut i: usize = 0;
    let n = procs.len();
    assert(procs@.len() == n);
    while queue.len() > 0
        invariant
            u == universe(root, procs@),
            procs@.len() <= usize::MAX,
            forall|q: u32|
                #[trigger] children_of@.contains_key(q) <==> entries_of(procs@, q, procs@.len()).len()
                    > 0,
            forall|q: u32|
                #[trigger] children_of@.contains_key(q) ==> children_of@[q]@ == entries_of(
                    procs@,
                    q,
                    procs@.len(),
                ),
            1 <= r@.len() <= procs@.len() + 1,
            r@[0] == root,
            i <= r@.len(),
            queue@ == r@.subrange(i as int, r@.len() as int),
            r@.no_duplicates(),
            forall|j: int| 0 <= j < r@.len() ==> u.contains(#[trigger] r@[j]),
            keys.len() == r@.len(),
            forall|j: int| 1 <= j < r@.len() ==> #[trigger] reached_by(procs@, r@, keys, j),
            forall|j: int, j2: int|
                1 <= j < j2 < r@.len() ==> lex_lt(#[trigger] keys[j], #[trigger] keys[j2]),
            forall|j: int| 1 <= j < r@.len() ==> lex_lt(#[trigger] keys[j], (i as int, 0)),
            forall|k: int, m: int|
                #![trigger procs@[m], r@[k]]
                0 <= m < procs@.len() && 0 <= k < i && procs@[m].1 == r@[k] ==> exists|j: int|
                    0 <= j < r@.len() && #[trigger] r@[j] == procs@[m].0 && (j == 0 || !lex_lt(
                        (k, m),
                        keys[j],
                    )),
        decreases procs@.len() + 1 - i,
    {
        let p = queue.pop_front().unwrap();
        assert(p == r@[i as int]);
        let empty: Vec<usize> = Vec::new();
        let idxs: &Vec<usize> = match children_of.get(&p) {
            Some(v) => v,
            None => &empty,
        };
        proof {
            if !children_of@.contains_key(p) {
                assert(entries_of(procs@, p, procs@.len() as nat) =~= idxs@);
            }
            lemma_entries_of(procs@, p, procs@.len() as nat);
            assert forall|j: int| 1 <= j < r@.len() implies lex_lt(
                #[trigger] keys[j],
                (i as int, next_entry(idxs@, 0, procs@.len())),
            ) by {
                assert(lex_lt(keys[j], (i as int, 0)));
            }
        }
        let mut t: usize = 0;
        while t < idxs.len()
            invariant
                u == universe(root, procs@),
                procs@.len() <= usize::MAX,
                idxs@ == entries_of(procs@, p, procs@.len() as nat),
                1 <= r@.len() <= procs@.len() + 1,
                r@[0] == root,
                i < r@.len(),
                p == r@[i as int],
                t <= idxs@.len(),
                queue@ == r@.subrange(i + 1, r@.len() as int),
                r@.no_duplicates(),
                forall|j: int| 0 <= j < r@.len() ==> u.contains(#[trigger] r@[j]),
                keys.len() == r@.len(),
                forall|j: int| 1 <= j < r@.len() ==> #[trigger] reached_by(procs@, r@, keys, j),
                forall|j: int, j2: int|
                    1 <= j < j2 < r@.len() ==> lex_lt(#[trigger] keys[j], #[trigger] keys[j2]),
                forall|j: int|
                    1 <= j < r@.len() ==> lex_lt(
                        #[trigger] keys[j],
                        (i as int, next_entry(idxs@, t as int, procs@.len())),
                    ),
                forall|k: int, mm: int|
                    #![trigger procs@[mm], r@[k]]
                    0 <= mm < procs@.len() && (0 <= k < i || (k == i && mm < next_entry(
                        idxs@,
                        t as int,
                        procs@.len(),
                    ))) && procs@[mm].1 == r@[k] ==> exists|j: int|
                        0 <= j < r@.len() && #[trigger] r@[j] == procs@[mm].0 && (j == 0 || !lex_lt(
                            (k, mm),
                            keys[j],
                        )),
            decreases idxs@.len() - t,
        {
            proof {
                lemma_entries_of(procs@, p, procs@.len() as nat);
            }
            let m = idxs[t];
            let (c, pp) = procs[m];
            assert(pp == p);
            let ghost before = r@;
            let ghost keys0 = keys;
            let ghost b0 = next_entry(idxs@, t as int, procs@.len());
            let ghost b1 = next_entry(idxs@, t + 1, procs@.len());
            assert(b0 == m);
            assert(m < b1) by {
                if t + 1 < idxs@.len() {
                    assert(idxs@[t as int] < idxs@[t + 1]);
                }
            }
            if !contains_pid(&r, c) {
                r.push(c);
                queue.push_back(c);
                proof {
                    keys = keys.push((i as int, m as int));
                    assert(procs@.map_values(|q: (u32, u32)| q.0)[m as int] == c);
                    assert(u[m + 1] == c);
                    assert(queue@ =~= r@.subrange(i + 1, r@.len() as int));
                    assert forall|j: int| 0 <= j < r@.len() implies u.contains(#[trigger] r@[j]) by {
                        if j < before.len() {
                            assert(r@[j] == before[j]);
                        }
                    }
                    assert forall|a: int, b: int| 0 <= a < b < r@.len() implies r@[a] != r@[b] by {
                        if b < before.len() {
                            assert(r@[a] == before[a] && r@[b] == before[b]);
                        } else {
                            assert(r@[a] == before[a]);
                            assert(!before.contains(c));
                        }
                    }
                    assert(r@.no_duplicates());
                    lemma_distinct_bound(r@, u);
                    assert(u.len() == procs@.len() + 1);
                    assert forall|j: int| 1 <= j < r@.len() implies #[trigger] reached_by(
                        procs@,
                        r@,
                        keys,
                        j,
                    ) by {
                        if j < before.len() {
                            assert(reached_by(procs@, before, keys0, j));
                            assert(r@[j] == before[j]);
                            assert(r@[keys[j].0] == before[keys0[j].0]);
                        } else {
                            assert(procs@[m as int] == (c, p));
                        }
                    }
                    assert forall|j: int, j2: int| 1 <= j < j2 < r@.len() implies lex_lt(
                        #[trigger] keys[j],
                        #[trigger] keys[j2],
                    ) by {
                        if j2 < before.len() {
                            assert(keys[j] == keys0[j] && keys[j2] == keys0[j2]);
                        } else {
                            assert(keys[j] == keys0[j]);
                            assert(lex_lt(keys0[j], (i as int, b0)));
                        }
                    }
                    assert forall|j: int| 1 <= j < r@.len() implies lex_lt(
                        #[trigger] keys[j],
                        (i as int, b1),
                    ) by {
                        if j < before.len() {
                            assert(keys[j] == keys0[j]);
                            assert(lex_lt(keys0[j], (i as int, b0)));
                        }
                    }
                    assert forall|k: int, mm: int|
                        #![trigger procs@[mm], r@[k]]
                        0 <= mm < procs@.len() && (0 <= k < i || (k == i && mm < b1))
                            && procs@[mm].1 == r@[k] implies exists|j: int|
                        0 <= j < r@.len() && #[trigger] r@[j] == procs@[mm].0 && (j == 0
                            || !lex_lt((k, mm), keys[j])) by {
                        assert(r@[k] == before[k]);
                        if k == i && mm == m {
                            let j = before.len() as int;
                            assert(r@[j] == c);
                        } else {
                            if k == i && mm > m {
                                lemma_no_entry_between(procs@, p, idxs@, t as int, mm);
                            }
                            assert(procs@[mm].1 == before[k]);
                            let j = choose|j: int|
                                0 <= j < before.len() && #[trigger] before[j] == procs@[mm].0 && (j
                                    == 0 || !lex_lt((k, mm), keys0[j]));
                            assert(r@[j] == before[j]);
                            assert(keys[j] == keys0[j]);
                        }
                    }
                }
            } else {
                proof {
                    assert forall|j: int| 1 <= j < r@.len() implies lex_lt(
                        #[trigger] keys[j],
                        (i as int, b1),
                    ) by {
                        assert(lex_lt(keys[j], (i as int, b0)));
                    }
                    assert forall|k: int, mm: int|
                        #![trigger procs@[mm], r@[k]]
                        0 <= mm < procs@.len() && (0 <= k < i || (k == i && mm < b1))
                            && procs@[mm].1 == r@[k] implies exists|j: int|
                        0 <= j < r@.len() && #[trigger] r@[j] == procs@[mm].0 && (j == 0
                            || !lex_lt((k, mm), keys[j])) by {
                        if k == i && mm == m {
                            assert(r@.contains(c));
                            let j = choose|j: int| 0 <= j < r@.len() && r@[j] == c;
                            assert(r@[j] == procs@[mm].0);
                            if j > 0 {
                                assert(lex_lt(keys[j], (i as int, b0)));
                            }
                        } else {
                            if k == i && mm > m {
                                lemma_no_entry_between(procs@, p, idxs@, t as int, mm);
                            }
                            assert(procs@[mm].1 == r@[k]);
                        }
                    }
                }
            }
            t = t + 1;
        }
        proof {
            assert forall|j: int| 1 <= j < r@.len() implies lex_lt(#[trigger] keys[j], (i + 1, 0)) by {
                assert(lex_lt(keys[j], (i as int, next_entry(idxs@, t as int, procs@.len()))));
            }
        }
        assert(r@.len() == r.len());
        i = i + 1;
    }
    proof {
        assert forall|j: int| 1 <= j < r@.len() implies exists|k: int|
            0 <= k < j && lists_child(procs@, #[trigger] r@[j], r@[k]) by {
            assert(reached_by(procs@, r@, keys, j));
            let k = keys[j].0;
            assert(procs@[keys[j].1] == (r@[j], r@[k]));
            assert(lists_child(procs@, r@[j], r@[k]));
        }
        assert forall|mm: int, k: int|
            #![trigger procs@[mm], r@[k]]
            0 <= mm < procs@.len() && 0 <= k < r@.len() && procs@[mm].1 == r@[k] implies r@.contains(
                procs@[mm].0,
            ) by {
            let j = choose|j: int|
                0 <= j < r@.len() && #[trigger] r@[j] == procs@[mm].0 && (j == 0 || !lex_lt(
                    (k, mm),
                    keys[j],
                ));
        }
        assert forall|j: int, k: int, mm: int|
            #![trigger procs@[mm], r@[j], r@[k]]
            1 <= j < r@.len() && 0 <= k < r@.len() && 0 <= mm < procs@.len() && procs@[mm] == (
                r@[j],
                r@[k],
            ) implies !lex_lt((k, mm), keys[j]) by {
            let j2 = choose|j2: int|
                0 <= j2 < r@.len() && #[trigger] r@[j2] == procs@[mm].0 && (j2 == 0 || !lex_lt(
                    (k, mm),
                    keys[j2],
                ));
            assert(r@[j2] == r@[j]);
            assert(j2 == j);
        }
        assert(is_breadth_first(procs@, r@, keys));
    }
    r
}

/// Every process appears at most once in the listing, as `/proc` lists it.
pub open spec fn listed_once(procs: Seq<(u32, u32)>) -> bool {
    forall|a: int, b: int| 0 <= a < b < procs.len() ==> #[trigger] procs[a].0 != #[trigger] procs[b].0
}

/// Where every process is listed once and `root` is not listed as the child of
/// a collected process (so that no cycle is reachable from it), every listing
/// entry under a collected process contributes an element of its own, reached
/// through that very entry: no entry is passed over as already collected, and
/// the collection is the order in which a breadth-first walk that keeps no
/// record of what it has seen takes the processes.
pub proof fn law_kill_order_takes_every_entry(
    root: u32,
    procs: Seq<(u32, u32)>,
    r: Seq<u32>,
    keys: Seq<(int, int)>,
)
    requires
        is_kill_set(root, procs, r),
        is_breadth_first(procs, r, keys),
        listed_once(procs),
        forall|m: int, k: int|
            #![trigger procs[m], r[k]]
            0 <= m < procs.len() && 0 <= k < r.len() && procs[m].1 == r[k] ==> procs[m].0 != root,
    ensures
        forall|m: int, k: int|
            #![trigger procs[m], r[k]]
            0 <= m < procs.len() && 0 <= k < r.len() && procs[m].1 == r[k] ==> exists|j: int|
                1 <= j < r.len() && #[trigger] r[j] == procs[m].0 && keys[j] == (k, m),
{
    assert forall|m: int, k: int|
        #![trigger procs[m], r[k]]
        0 <= m < procs.len() && 0 <= k < r.len() && procs[m].1 == r[k] implies exists|j: int|
        1 <= j < r.len() && #[trigger] r[j] == procs[m].0 && keys[j] == (k, m) by {
        assert(r.contains(procs[m].0));
        let j = choose|j: int| 0 <= j < r.len() && r[j] == procs[m].0;
        assert(j != 0);
        assert(reached_by(procs, r, keys, j));
        let m2 = keys[j].1;
        let k2 = keys[j].0;
        assert(procs[m2].0 == procs[m].0);
        if m2 != m {
            if m2 < m {
                assert(procs[m2].0 != procs[m].0);
            } else {
                assert(procs[m].0 != procs[m2].0);
            }
        }
        assert(r[k2] == r[k]);
        assert(k2 == k);
        assert(keys[j] == (k, m));
    }
}

// ───────────────────────────── parent of a process ─────────────────────────────

/// The end of the line that starts at `i`: the position of the next line feed,
/// or the end of the text.
pub open spec fn line_end(s: Seq<char>, i: nat) -> nat
    decreases s.len() - i,
{
    if i < s.len() && s[i as int] != '\n' {
        line_end(s, i + 1)
    } else {
        i
    }
}

/// A line ends at or after its start, and within the text.
pub proof fn lemma_line_end(s: Seq<char>, i: nat)
    ensures
        i <= line_end(s, i),
        i <= s.len() ==> line_end(s, i) <= s.len(),
    decreases s.len() - i,
{
    if i < s.len() && s[i as int] != '\n' {
        lemma_line_end(s, i + 1);
    }
}

/// The first line, from position `i` on, that starts with `PPid:` (lines end at
/// a line feed, as `str::lines` splits them; a carriage return left at a line's
/// end is white space and so does not change the fields read below).
pub open spec fn ppid_line(s: Seq<char>, i: nat) -> Option<Seq<char>>
    decreases s.len() - i,
{
    if i >= s.len() {
        None
    } else {
        let e = line_end(s, i);
        proof {
            lemma_line_end(s, i);
        }
        if has_prefix(s.subrange(i as int, e as int), "PPid:"@) {
            Some(s.subrange(i as int, e as int))
        } else if e >= s.len() {
            None
        } else {
            ppid_line(s, e + 1)
        }
    }
}

/// The first position at or after `i` that does not hold white space.
pub open spec fn skip_space(s: Seq<char>, i: nat) -> nat
    decreases s.len() - i,
{
    if i < s.len() && is_white_space(s[i as int]) {
        skip_space(s, i + 1)
    } else {
        i
    }
}

/// The first position at or after `i` that holds white space.
pub open spec fn skip_field(s: Seq<char>, i: nat) -> nat
    decreases s.len() - i,
{
    if i < s.len() && !is_white_space(s[i as int]) {
        skip_field(s, i + 1)
    } else {
        i
    }
}

/// The second white-space separated field of a line
/// (`split_whitespace().nth(1)`).
pub open spec fn second_field(line: Seq<char>) -> Option<Seq<char>> {
    let a = skip_space(line, 0);
    let b = skip_field(line, a);
    let c = skip_space(line, b);
    let d = skip_field(line, c);
    if c < line.len() {
        Some(line.subrange(c as int, d as int))
    } else {
        None
    }
}

/// The parent process id in the text of `/proc/<pid>/status`: the second field
/// of the first `PPid:` line, as a `u32`.
pub open spec fn ppid_of(status: Seq<char>) -> Option<u32> {
    match ppid_line(status, 0) {
        Some(line) => match second_field(line) {
            Some(f) => parse_u32_spec(f),
            None => None,
        },
        None => None,
    }
}

fn skip_space_from(v: &Vec<char>, from: usize, to: usize) -> (r: usize)
    requires
        from <= to <= v@.len(),
    ensures
        r == skip_space(v@.subrange(0, to as int), from as nat),
        from <= r <= to,
{
    let ghost s = v@.subrange(0, to as int);
    let mut i = from;
    while i < to && crate::text::is_whitespace(v[i])
        invariant
            from <= i <= to <= v@.len(),
            s == v@.subrange(0, to as int),
            skip_space(s, from as nat) == skip_space(s, i as nat),
        decreases to - i,
    {
        assert(s[i as int] == v@[i as int]);
        i = i + 1;
    }
    if i < to {
        assert(s[i as int] == v@[i as int]);
    }
    i
}

fn skip_field_from(v: &Vec<char>, from: usize, to: usize) -> (r: usize)
    requires
        from <= to <= v@.len(),
    ensures
        r == skip_field(v@.subrange(0, to as int), from as nat),
        from <= r <= to,
{
    let ghost s = v@.subrange(0, to as int);
    let mut i = from;
    while i < to && !crate::text::is_whitespace(v[i])
        invariant
            from <= i <= to <= v@.len(),
            s == v@.subrange(0, to as int),
            skip_field(s, from as nat) == skip_field(s, i as nat),
        decreases to - i,
    {
        assert(s[i as int] == v@[i as int]);
        i = i + 1;
    }
    if i < to {
        assert(s[i as int] == v@[i as int]);
    }
    i
}

proof fn lemma_skip_shift(s: Seq<char>, start: nat, i: nat, e: nat)
    requires
        start <= i <= e <= s.len(),
    ensures
        skip_space(s.subrange(start as int, e as int), (i - start) as nat) + start == skip_space(
            s.subrange(0, e as int),
            i,
        ),
        skip_field(s.subrange(start as int, e as int), (i - start) as nat) + start == skip_field(
            s.subrange(0, e as int),
            i,
        ),
    decreases e - i,
{
    let t = s.subrange(start as int, e as int);
    let u = s.subrange(0, e as int);
    if i < e {
        assert(t[(i - start) as int] == u[i as int]);
        lemma_skip_shift(s, start, i + 1, e);
    }
}

/// A line runs from its start up to the next line feed, or to the end.
proof fn lemma_line_end_props(s: Seq<char>, i: nat)
    requires
        i <= s.len(),
    ensures
        i <= line_end(s, i) <= s.len(),
        forall|k: int| i <= k < line_end(s, i) ==> s[k] != '\n',
        line_end(s, i) < s.len() ==> s[line_end(s, i) as int] == '\n',
    decreases s.len() - i,
{
    if i < s.len() && s[i as int] != '\n' {
        lemma_line_end_props(s, i + 1);
    }
}

/// A line reaches at least as far as the text holds no line feed.
proof fn lemma_line_end_reaches(s: Seq<char>, i: nat, j: nat)
    requires
        i <= j <= s.len(),
        forall|k: int| i <= k < j ==> s[k] != '\n',
    ensures
        j <= line_end(s, i),
    decreases j - i,
{
    if i < j {
        assert(s[i as int] != '\n');
        assert(line_end(s, i) == line_end(s, i + 1));
        lemma_line_end_reaches(s, i + 1, j);
    } else {
        lemma_line_end(s, i);
    }
}

/// Scanning over characters that are not white space stops at the first that is.
proof fn lemma_skip_field_to(s: Seq<char>, i: nat, j: nat)
    requires
        i <= j <= s.len(),
        forall|k: int| i <= k < j ==> !is_white_space(#[trigger] s[k]),
        j == s.len() || is_white_space(s[j as int]),
    ensures
        skip_field(s, i) == j,
    decreases j - i,
{
    if i < j {
        lemma_skip_field_to(s, i + 1, j);
    }
}

/// Scanning over white space stops at the first character that is not.
proof fn lemma_skip_space_to(s: Seq<char>, i: nat, j: nat)
    requires
        i <= j <= s.len(),
        forall|k: int| i <= k < j ==> is_white_space(#[trigger] s[k]),
        j == s.len() || !is_white_space(s[j as int]),
    ensures
        skip_space(s, i) == j,
    decreases j - i,
{
    if i < j {
        lemma_skip_space_to(s, i + 1, j);
    }
}

/// Lines of a prefix that ends with a line feed and has no `PPid:` line are
/// passed over whatever follows them.
proof fn lemma_ppid_line_skips_prefix(pre: Seq<char>, t: Seq<char>, i: nat)
    requires
        i <= pre.len(),
        i == 0 || pre[i - 1] == '\n',
        pre.len() == 0 || pre[pre.len() - 1] == '\n',
        ppid_line(pre, i) is None,
        t.len() > 0,
    ensures
        ppid_line(pre + t, i) == ppid_line(pre + t, pre.len()),
    decreases pre.len() - i,
{
    if i < pre.len() {
        let s = pre + t;
        lemma_line_end_props(pre, i);
        let e = line_end(pre, i);
        if e == pre.len() {
            assert(pre[pre.len() - 1] != '\n');
        }
        assert(e < pre.len());
        assert forall|k: int| i <= k < e implies s[k] != '\n' by {
            assert(s[k] == pre[k]);
        }
        assert(s[e as int] == pre[e as int]);
        lemma_line_end_props(s, i);
        lemma_line_end_reaches(s, i, e);
        assert(line_end(s, i) == e);
        assert(s.subrange(i as int, e as int) =~= pre.subrange(i as int, e as int));
        lemma_ppid_line_skips_prefix(pre, t, e + 1);
    }
}

/// The parent id is read from the first `PPid:` line, whatever it is: after
/// lines that are not `PPid:` lines, a line `PPid:`, white space, and the
/// decimal text of any `u32` `n` (then the end of the line, white space, or the
/// rest of the text) gives `n`, as `str::parse::<u32>` reads it.
pub proof fn law_ppid_reads_parent(pre: Seq<char>, ws: Seq<char>, n: u32, rest: Seq<char>)
    requires
        pre.len() == 0 || pre[pre.len() - 1] == '\n',
        ppid_line(pre, 0) is None,
        ws.len() > 0,
        forall|k: int| 0 <= k < ws.len() ==> is_white_space(#[trigger] ws[k]) && ws[k] != '\n',
        rest.len() == 0 || is_white_space(rest[0]),
    ensures
        ppid_of(pre + "PPid:"@ + ws + decimal(n as nat) + rest) == Some(n),
{
    reveal_strlit("PPid:");
    let d = decimal(n as nat);
    lemma_decimal_digits(n as nat);
    law_parse_decimal_roundtrip(n);
    let head = "PPid:"@ + ws + d;
    let t = head + rest;
    let s = pre + t;
    assert(s =~= pre + "PPid:"@ + ws + d + rest);
    let p0 = pre.len();
    let hl = head.len();
    assert forall|k: int| 0 <= k < hl implies head[k] != '\n' && (k < 5 || 5 + ws.len() <= k
        ==> !is_white_space(#[trigger] head[k])) by {
        if k < 5 {
        } else if k < 5 + ws.len() {
            assert(head[k] == ws[k - 5]);
        } else {
            assert(head[k] == d[k - 5 - ws.len()]);
            assert(is_digit(d[k - 5 - ws.len()]));
        }
    }
    lemma_ppid_line_skips_prefix(pre, t, 0);
    // The `PPid:` line starts right after the prefix.
    lemma_line_end_props(s, p0);
    assert forall|k: int| p0 <= k < p0 + hl implies s[k] != '\n' by {
        assert(s[k] == head[k - p0]);
    }
    lemma_line_end_reaches(s, p0, p0 + hl);
    let e = line_end(s, p0);
    let line = s.subrange(p0 as int, e as int);
    assert(line.subrange(0, 5) =~= "PPid:"@);
    assert(ppid_line(s, p0) == Some(line));
    // Its second field is the decimal text.
    assert forall|k: int| 0 <= k < hl implies line[k] == head[k] by {}
    assert(!is_white_space(line[0]));
    lemma_skip_space_to(line, 0, 0);
    lemma_skip_field_to(line, 0, 5);
    lemma_skip_space_to(line, 5, 5 + ws.len());
    if e > p0 + hl {
        assert(line[hl as int] == rest[0]);
    }
    lemma_skip_field_to(line, 5 + ws.len(), hl);
    assert(line.subrange((5 + ws.len()) as int, hl as int) =~= d);
    assert(second_field(line) == Some(d));
}

/// The parent process id recorded in a `/proc/<pid>/status` text (see `ppid_of`).
pub fn parse_ppid(status: &str) -> (r: Option<u32>)
    ensures
        r == ppid_of(status@),
{
    let v = chars_of(status);
    let n = v.len();
    let prefix = chars_of("PPid:");
    let mut i: usize = 0;
    while i < n
        invariant
            v@ == status@,
            n == v@.len(),
            prefix@ == "PPid:"@,
            i <= n,
            ppid_line(status@, i as nat) == ppid_line(status@, 0),
        decreases n - i,
    {
        let mut e = i;
        while e < n && v[e] != '\n'
            invariant
                i <= e <= n,
                n == v@.len(),
                line_end(v@, i as nat) == line_end(v@, e as nat),
            decreases n - e,
        {
            e = e + 1;
        }
        proof {
            lemma_line_end(v@, i as nat);
        }
        let line_len = e - i;
        let starts = prefix.len() <= line_len && {
            let mut k: usize = 0;
            let mut ok = true;
            while k < prefix.len()
                invariant
                    prefix.len() <= line_len,
                    line_len == e - i,
                    i <= e <= n,
                    n == v@.len(),
                    k <= prefix@.len(),
                    ok == forall|j: int| 0 <= j < k ==> v@[i + j] == prefix@[j],
                decreases prefix@.len() - k,
            {
                if v[i + k] != prefix[k] {
                    ok = false;
                }
                k = k + 1;
            }
            ok
        };
        proof {
            let line = v@.subrange(i as int, e as int);
            if prefix@.len() <= line_len {
                if starts {
                    assert(line.subrange(0, prefix@.len() as int) =~= prefix@);
                } else {
                    let j = choose|j: int| 0 <= j < prefix@.len() && v@[i + j] != prefix@[j];
                    assert(line.subrange(0, prefix@.len() as int)[j] != prefix@[j]);
                }
            }
        }
        if starts {
            // The line is v[i..e]: read its second field.
            let a = skip_space_from(&v, i, e);
            let b = skip_field_from(&v, a, e);
            let c = skip_space_from(&v, b, e);
            let d = skip_field_from(&v, c, e);
            proof {
                let line = v@.subrange(i as int, e as int);
                lemma_skip_shift(v@, i as nat, i as nat, e as nat);
                lemma_skip_shift(v@, i as nat, a as nat, e as nat);
                lemma_skip_shift(v@, i as nat, b as nat, e as nat);
                lemma_skip_shift(v@, i as nat, c as nat, e as nat);
            }
            if c < e {
                let mut field = String::new();
                push_chars(&mut field, &v, c, d);
                proof {
                    let line = v@.subrange(i as int, e as int);
                    assert(line.subrange((c - i) as int, (d - i) as int) =~= v@.subrange(
                        c as int,
                        d as int,
                    ));
                }
                return parse_u32(field.as_str());
            } else {
                return None;
            }
        }
        if e == n {
            return None;
        }
        i = e + 1;
    }
    None
}

} // verus!
