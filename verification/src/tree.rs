//! Process tree construction.
//!
//! The flat process table carries parent pids that may be inconsistent: a
//! parent may have exited, or a corrupted table may even put a process among
//! its own descendants.  The tree builder therefore works arena-style over
//! record indices: a record is a root when it has no parent pid or its parent
//! pid is absent from the table; roots and each node's children are ordered
//! by descending CPU usage, ties keeping input order; traversal is depth-first
//! pre-order with an explicit visited set, bounded by a fuel argument, so
//! every record is emitted exactly once at its first-visited depth no matter
//! how inconsistent the parent graph is.

use vstd::prelude::*;
use vstd::multiset::Multiset;

use crate::process::{PView, ProcessInfo, clone_info, record_views};

verus! {

/// The record's parent pid names a record in the table.
pub open spec fn parent_present(s: Seq<PView>, j: int) -> bool
    recommends
        0 <= j < s.len(),
{
    match s[j].parent_pid {
        Some(p) => exists|k: int| 0 <= k < s.len() && (#[trigger] s[k]).pid == p,
        None => false,
    }
}

/// A root: no parent pid, or a stale parent pid naming no record.
pub open spec fn is_root(s: Seq<PView>, j: int) -> bool
    recommends
        0 <= j < s.len(),
{
    !parent_present(s, j)
}

/// The root indices among the first `m` records, in input order.
pub open spec fn roots_upto(s: Seq<PView>, m: int) -> Seq<usize>
    decreases m,
{
    if m <= 0 || m > s.len() {
        Seq::empty()
    } else if is_root(s, m - 1) {
        roots_upto(s, m - 1).push((m - 1) as usize)
    } else {
        roots_upto(s, m - 1)
    }
}

/// The children of record `i` among the first `m` records, in input order.
pub open spec fn children_upto(s: Seq<PView>, i: usize, m: int) -> Seq<usize>
    decreases m,
{
    if m <= 0 || m > s.len() {
        Seq::empty()
    } else if s[m - 1].parent_pid == Some(s[i as int].pid) {
        children_upto(s, i, m - 1).push((m - 1) as usize)
    } else {
        children_upto(s, i, m - 1)
    }
}

/// All children of record `i`, in input order.
pub open spec fn children_of(s: Seq<PView>, i: usize) -> Seq<usize> {
    children_upto(s, i, s.len() as int)
}

/// All root indices, in input order.
pub open spec fn roots_of(s: Seq<PView>) -> Seq<usize> {
    roots_upto(s, s.len() as int)
}

/// Sibling order: `a` may stay before `b` (CPU usage descending; a tie lets
/// stability decide).
pub open spec fn idx_before(s: Seq<PView>, a: usize, b: usize) -> bool {
    s[a as int].cpu_usage >= s[b as int].cpu_usage
}

/// Strict sibling order: higher CPU usage first, ties by input position.
pub open spec fn idx_ord(s: Seq<PView>, a: usize, b: usize) -> bool {
    s[a as int].cpu_usage > s[b as int].cpu_usage || (s[a as int].cpu_usage == s[b as int].cpu_usage
        && a < b)
}

/// Stable insertion of index `x` into the ordered index list `l`.
pub open spec fn insert_idx(s: Seq<PView>, x: usize, l: Seq<usize>) -> Seq<usize>
    decreases l.len(),
{
    if l.len() == 0 {
        seq![x]
    } else if idx_before(s, l[0], x) {
        seq![l[0]] + insert_idx(s, x, l.drop_first())
    } else {
        seq![x] + l
    }
}

/// Stable sort of an index list by descending CPU usage.
pub open spec fn sort_idx(s: Seq<PView>, l: Seq<usize>) -> Seq<usize>
    decreases l.len(),
{
    if l.len() == 0 {
        Seq::empty()
    } else {
        insert_idx(s, l.last(), sort_idx(s, l.drop_last()))
    }
}

/// Adjacent pairs respect the strict sibling order.
pub open spec fn sibling_sorted(s: Seq<PView>, l: Seq<usize>) -> bool {
    forall|k: int| 0 <= k < l.len() - 1 ==> idx_ord(s, #[trigger] l[k], l[k + 1])
}

/// Index list bounded by the table length.
pub open spec fn idx_bounded(l: Seq<usize>, n: int) -> bool {
    forall|k: int| 0 <= k < l.len() ==> (#[trigger] l[k]) < n
}

/// Strictly increasing index list.
pub open spec fn idx_increasing(l: Seq<usize>) -> bool {
    forall|k1: int, k2: int| 0 <= k1 < k2 < l.len() ==> #[trigger] l[k1] < #[trigger] l[k2]
}

/// A record re-emitted at depth `d`.
pub open spec fn set_depth(p: PView, d: nat) -> PView {
    PView {
        pid: p.pid,
        parent_pid: p.parent_pid,
        name: p.name,
        cpu_usage: p.cpu_usage,
        memory: p.memory,
        memory_percent: p.memory_percent,
        status: p.status,
        depth: d,
    }
}

/// `r` is an input record with only its depth changed.
pub open spec fn from_input(s: Seq<PView>, r: PView) -> bool {
    exists|j: int| 0 <= j < s.len() && r == set_depth(#[trigger] s[j], r.depth)
}

/// Depth-first pre-order emission of one node: skipped when already visited
/// or the fuel is exhausted; otherwise the record is emitted at `depth` and
/// its children follow at `depth + 1`, ordered by descending CPU usage.
/// Returns the emitted records and the updated visited set.
pub open spec fn walk_node(s: Seq<PView>, idx: usize, depth: nat, v: Seq<bool>, fuel: nat) -> (
    Seq<PView>,
    Seq<bool>,
)
    decreases fuel, 0nat,
{
    if !(idx < s.len() && v.len() == s.len()) {
        (Seq::empty(), v)
    } else if v[idx as int] {
        (Seq::empty(), v)
    } else if fuel == 0 {
        (Seq::empty(), v)
    } else {
        let v1 = v.update(idx as int, true);
        let kids = sort_idx(s, children_of(s, idx));
        let sub = walk_list(s, kids, depth + 1, v1, (fuel - 1) as nat);
        (seq![set_depth(s[idx as int], depth)] + sub.0, sub.1)
    }
}

/// Emission of a list of nodes in order, threading the visited set.
pub open spec fn walk_list(s: Seq<PView>, idxs: Seq<usize>, depth: nat, v: Seq<bool>, fuel: nat)
    -> (Seq<PView>, Seq<bool>)
    decreases fuel, idxs.len() + 1,
{
    if idxs.len() == 0 {
        (Seq::empty(), v)
    } else {
        let first = walk_node(s, idxs[0], depth, v, fuel);
        let rest = walk_list(s, idxs.drop_first(), depth, first.1, fuel);
        (first.0 + rest.0, rest.1)
    }
}

/// The indices `0, 1, ..., n-1`.
pub open spec fn idx_range(n: nat) -> Seq<usize> {
    Seq::new(n, |i: int| i as usize)
}

/// The whole tree: roots in CPU order first; then a sweep in input order
/// that emits, as additional depth-0 subtrees, any records unreachable from
/// every root (possible only when the parent graph contains a cycle).
pub open spec fn tree_spec(s: Seq<PView>) -> Seq<PView> {
    let n = s.len();
    let v0 = Seq::new(n, |i: int| false);
    let phase1 = walk_list(s, sort_idx(s, roots_of(s)), 0, v0, n);
    let phase2 = walk_list(s, idx_range(n), 0, phase1.1, n);
    phase1.0 + phase2.0
}

/// The pids of a record list, in order.
pub open spec fn pid_seq(s: Seq<PView>) -> Seq<u32> {
    s.map_values(|p: PView| p.pid)
}

/// The pids of a record list, as a multiset.
pub open spec fn pid_mset(s: Seq<PView>) -> Multiset<u32> {
    pid_seq(s).to_multiset()
}

/// The pids of the not-yet-visited records among the first `m`.
pub open spec fn unseen_upto(s: Seq<PView>, v: Seq<bool>, m: int) -> Multiset<u32>
    decreases m,
{
    if m <= 0 || m > s.len() || v.len() != s.len() {
        Multiset::empty()
    } else if v[m - 1] {
        unseen_upto(s, v, m - 1)
    } else {
        unseen_upto(s, v, m - 1).insert(s[m - 1].pid)
    }
}

/// The pids of all not-yet-visited records.
pub open spec fn unseen(s: Seq<PView>, v: Seq<bool>) -> Multiset<u32> {
    unseen_upto(s, v, s.len() as int)
}

// ---------------------------------------------------------------------------
// Lemmas about the visited set

/// Marking one unvisited record moves its pid out of the unseen multiset.
proof fn lemma_unseen_update_upto(s: Seq<PView>, v: Seq<bool>, idx: int, m: int)
    requires
        v.len() == s.len(),
        0 <= idx < s.len(),
        !v[idx],
        m <= s.len(),
    ensures
        m <= idx ==> unseen_upto(s, v.update(idx, true), m) == unseen_upto(s, v, m),
        m > idx ==> unseen_upto(s, v, m) == unseen_upto(s, v.update(idx, true), m).insert(
            s[idx].pid,
        ),
    decreases m,
{
    broadcast use vstd::multiset::group_multiset_axioms;

    let v1 = v.update(idx, true);
    if m <= 0 || m > s.len() {
    } else {
        lemma_unseen_update_upto(s, v, idx, m - 1);
        if m - 1 == idx {
            assert(v1[m - 1]);
            assert(!v[m - 1]);
            assert(unseen_upto(s, v, m) == unseen_upto(s, v, m - 1).insert(s[idx].pid));
            assert(unseen_upto(s, v1, m) == unseen_upto(s, v1, m - 1));
            assert(unseen_upto(s, v1, m - 1) == unseen_upto(s, v, m - 1));
        } else {
            assert(v1[m - 1] == v[m - 1]);
            if m > idx && !v[m - 1] {
                assert(unseen_upto(s, v, m) =~= unseen_upto(s, v1, m).insert(s[idx].pid));
            }
        }
    }
}

/// Marking one unvisited record moves its pid out of the unseen multiset.
proof fn lemma_unseen_update(s: Seq<PView>, v: Seq<bool>, idx: int)
    requires
        v.len() == s.len(),
        0 <= idx < s.len(),
        !v[idx],
    ensures
        unseen(s, v) == unseen(s, v.update(idx, true)).insert(s[idx].pid),
{
    lemma_unseen_update_upto(s, v, idx, s.len() as int);
}

/// At most `m` pids are unseen among the first `m` records.
proof fn lemma_unseen_upto_le(s: Seq<PView>, v: Seq<bool>, m: int)
    ensures
        unseen_upto(s, v, m).len() <= if m >= 0 {
            m
        } else {
            0
        },
    decreases m,
{
    broadcast use vstd::multiset::group_multiset_axioms;

    if m > 0 && m <= s.len() && v.len() == s.len() {
        lemma_unseen_upto_le(s, v, m - 1);
    }
}

/// With every record visited, nothing is unseen.
proof fn lemma_unseen_all_visited(s: Seq<PView>, v: Seq<bool>, m: int)
    requires
        v.len() == s.len(),
        forall|j: int| 0 <= j < v.len() ==> v[j],
    ensures
        unseen_upto(s, v, m) == Multiset::<u32>::empty(),
    decreases m,
{
    if m > 0 && m <= s.len() {
        lemma_unseen_all_visited(s, v, m - 1);
    }
}

/// With nothing visited, the unseen pids are exactly the table's pids.
proof fn lemma_unseen_all_false(s: Seq<PView>, m: int)
    requires
        0 <= m <= s.len(),
    ensures
        unseen_upto(s, Seq::new(s.len(), |i: int| false), m) == pid_seq(s).take(m).to_multiset(),
    decreases m,
{
    broadcast use vstd::seq_lib::group_to_multiset_ensures;
    broadcast use vstd::multiset::group_multiset_axioms;

    let v = Seq::new(s.len(), |i: int| false);
    if m == 0 {
        assert(pid_seq(s).take(0) =~= Seq::<u32>::empty());
        assert(Seq::<u32>::empty().to_multiset() =~= Multiset::<u32>::empty());
    } else {
        lemma_unseen_all_false(s, m - 1);
        assert(pid_seq(s).take(m) =~= pid_seq(s).take(m - 1).push(s[m - 1].pid));
    }
}

// ---------------------------------------------------------------------------
// Lemmas about the walk

/// The walk only marks records visited, and every emitted record is an input
/// record re-emitted at some depth: the emitted pids are exactly the pids
/// that changed from unseen to visited.
proof fn lemma_walk_node_props(s: Seq<PView>, idx: usize, depth: nat, v: Seq<bool>, fuel: nat)
    requires
        v.len() == s.len(),
    ensures
        walk_node(s, idx, depth, v, fuel).1.len() == s.len(),
        forall|j: int| 0 <= j < s.len() && v[j] ==> walk_node(s, idx, depth, v, fuel).1[j],
        pid_mset(walk_node(s, idx, depth, v, fuel).0).add(
            unseen(s, walk_node(s, idx, depth, v, fuel).1),
        ) == unseen(s, v),
        forall|k: int|
            0 <= k < walk_node(s, idx, depth, v, fuel).0.len() ==> from_input(
                s,
                #[trigger] walk_node(s, idx, depth, v, fuel).0[k],
            ),
    decreases fuel, 0nat,
{
    broadcast use vstd::seq_lib::group_to_multiset_ensures;
    broadcast use vstd::multiset::group_multiset_axioms;
    broadcast use vstd::multiset::lemma_multiset_empty_len;

    let r = walk_node(s, idx, depth, v, fuel);
    if !(idx < s.len()) || v[idx as int] || fuel == 0 {
        assert(r.0 =~= Seq::<PView>::empty());
        assert(pid_seq(r.0) =~= Seq::<u32>::empty());
        assert(pid_mset(r.0).len() == 0);
        assert(pid_mset(r.0) =~= Multiset::<u32>::empty());
        assert(pid_mset(r.0).add(unseen(s, v)) =~= unseen(s, v));
    } else {
        let v1 = v.update(idx as int, true);
        assert(forall|j: int| 0 <= j < s.len() && v[j] ==> v1[j]);
        let kids = sort_idx(s, children_of(s, idx));
        let sub = walk_list(s, kids, depth + 1, v1, (fuel - 1) as nat);
        lemma_walk_list_props(s, kids, depth + 1, v1, (fuel - 1) as nat);
        lemma_unseen_update(s, v, idx as int);
        let rec = set_depth(s[idx as int], depth);
        assert(pid_seq(seq![rec] + sub.0) =~= seq![rec.pid] + pid_seq(sub.0));
        vstd::seq_lib::lemma_multiset_commutative(seq![rec.pid], pid_seq(sub.0));
        assert(seq![rec.pid] =~= Seq::<u32>::empty().push(rec.pid));
        assert(seq![rec.pid].to_multiset() =~= Multiset::<u32>::empty().insert(rec.pid));
        assert(pid_mset(r.0).add(unseen(s, r.1)) =~= unseen(s, v1).insert(s[idx as int].pid));
        assert(from_input(s, rec)) by {
            assert(0 <= idx < s.len() && rec == set_depth(s[idx as int], rec.depth));
        }
        assert(forall|k: int| 0 <= k < r.0.len() ==> from_input(s, #[trigger] r.0[k])) by {
            assert(forall|k: int| 1 <= k < r.0.len() ==> r.0[k] == sub.0[k - 1]);
            assert(r.0[0] == rec);
        }
    }
}

/// List form of `lemma_walk_node_props`.
proof fn lemma_walk_list_props(s: Seq<PView>, idxs: Seq<usize>, depth: nat, v: Seq<bool>, fuel: nat)
    requires
        v.len() == s.len(),
    ensures
        walk_list(s, idxs, depth, v, fuel).1.len() == s.len(),
        forall|j: int| 0 <= j < s.len() && v[j] ==> walk_list(s, idxs, depth, v, fuel).1[j],
        pid_mset(walk_list(s, idxs, depth, v, fuel).0).add(
            unseen(s, walk_list(s, idxs, depth, v, fuel).1),
        ) == unseen(s, v),
        forall|k: int|
            0 <= k < walk_list(s, idxs, depth, v, fuel).0.len() ==> from_input(
                s,
                #[trigger] walk_list(s, idxs, depth, v, fuel).0[k],
            ),
    decreases fuel, idxs.len() + 1,
{
    broadcast use vstd::seq_lib::group_to_multiset_ensures;
    broadcast use vstd::multiset::group_multiset_axioms;
    broadcast use vstd::multiset::lemma_multiset_empty_len;

    let r = walk_list(s, idxs, depth, v, fuel);
    if idxs.len() == 0 {
        assert(r.0 =~= Seq::<PView>::empty());
        assert(pid_seq(r.0) =~= Seq::<u32>::empty());
        assert(pid_mset(r.0).len() == 0);
        assert(pid_mset(r.0) =~= Multiset::<u32>::empty());
        assert(pid_mset(r.0).add(unseen(s, v)) =~= unseen(s, v));
    } else {
        let first = walk_node(s, idxs[0], depth, v, fuel);
        lemma_walk_node_props(s, idxs[0], depth, v, fuel);
        let rest = walk_list(s, idxs.drop_first(), depth, first.1, fuel);
        lemma_walk_list_props(s, idxs.drop_first(), depth, first.1, fuel);
        assert(pid_seq(first.0 + rest.0) =~= pid_seq(first.0) + pid_seq(rest.0));
        vstd::seq_lib::lemma_multiset_commutative(pid_seq(first.0), pid_seq(rest.0));
        assert(pid_mset(r.0).add(unseen(s, r.1)) =~= pid_mset(first.0).add(
            pid_mset(rest.0).add(unseen(s, rest.1)),
        ));
        assert(forall|k: int| 0 <= k < r.0.len() ==> from_input(s, #[trigger] r.0[k])) by {
            assert(forall|k: int|
                0 <= k < first.0.len() ==> r.0[k] == first.0[k]);
            assert(forall|k: int|
                first.0.len() <= k < r.0.len() ==> r.0[k] == rest.0[k - first.0.len()]);
        }
    }
}

/// With fuel at least the number of unseen records, a walked node ends up
/// visited.
proof fn lemma_walk_node_visits(s: Seq<PView>, idx: usize, depth: nat, v: Seq<bool>, fuel: nat)
    requires
        v.len() == s.len(),
        fuel >= unseen(s, v).len(),
    ensures
        idx < s.len() ==> walk_node(s, idx, depth, v, fuel).1[idx as int],
    decreases fuel, 0nat,
{
    broadcast use vstd::multiset::group_multiset_axioms;

    if idx < s.len() && !v[idx as int] {
        lemma_unseen_update(s, v, idx as int);
        assert(unseen(s, v).len() > 0);
        assert(fuel > 0);
        let v1 = v.update(idx as int, true);
        assert(v1[idx as int]);
        let kids = sort_idx(s, children_of(s, idx));
        lemma_walk_list_props(s, kids, depth + 1, v1, (fuel - 1) as nat);
        assert(walk_node(s, idx, depth, v, fuel).1 == walk_list(
            s,
            kids,
            depth + 1,
            v1,
            (fuel - 1) as nat,
        ).1);
    }
}

/// With fuel at least the number of unseen records, every valid index in the
/// list ends up visited.
proof fn lemma_walk_list_visits(s: Seq<PView>, idxs: Seq<usize>, depth: nat, v: Seq<bool>, fuel: nat)
    requires
        v.len() == s.len(),
        fuel >= unseen(s, v).len(),
    ensures
        forall|k: int|
            0 <= k < idxs.len() && (#[trigger] idxs[k]) < s.len() ==> walk_list(
                s,
                idxs,
                depth,
                v,
                fuel,
            ).1[idxs[k] as int],
    decreases fuel, idxs.len() + 1,
{
    broadcast use vstd::multiset::group_multiset_axioms;

    if idxs.len() > 0 {
        let first = walk_node(s, idxs[0], depth, v, fuel);
        lemma_walk_node_props(s, idxs[0], depth, v, fuel);
        lemma_walk_node_visits(s, idxs[0], depth, v, fuel);
        assert(unseen(s, first.1).len() <= unseen(s, v).len()) by {
            assert(pid_mset(first.0).add(unseen(s, first.1)) == unseen(s, v));
        }
        lemma_walk_list_visits(s, idxs.drop_first(), depth, first.1, fuel);
        lemma_walk_list_props(s, idxs.drop_first(), depth, first.1, fuel);
        let r = walk_list(s, idxs, depth, v, fuel);
        assert(forall|k: int|
            0 <= k < idxs.len() && (#[trigger] idxs[k]) < s.len() ==> r.1[idxs[k] as int]) by {
            assert(forall|k: int|
                1 <= k < idxs.len() ==> idxs[k] == idxs.drop_first()[k - 1]);
            assert(idxs[0] < s.len() ==> first.1[idxs[0] as int]);
        }
    }
}

/// Appending one index to a walked list walks it after the list.
proof fn lemma_walk_list_snoc(
    s: Seq<PView>,
    idxs: Seq<usize>,
    x: usize,
    depth: nat,
    v: Seq<bool>,
    fuel: nat,
)
    ensures
        walk_list(s, idxs.push(x), depth, v, fuel).0 == walk_list(s, idxs, depth, v, fuel).0
            + walk_node(s, x, depth, walk_list(s, idxs, depth, v, fuel).1, fuel).0,
        walk_list(s, idxs.push(x), depth, v, fuel).1 == walk_node(
            s,
            x,
            depth,
            walk_list(s, idxs, depth, v, fuel).1,
            fuel,
        ).1,
    decreases idxs.len(),
{
    if idxs.len() == 0 {
        reveal_with_fuel(walk_list, 3);
        let p = idxs.push(x);
        assert(p[0] == x);
        assert(p.drop_first() =~= Seq::<usize>::empty());
        let first = walk_node(s, x, depth, v, fuel);
        assert(walk_list(s, p.drop_first(), depth, first.1, fuel).0 =~= Seq::<PView>::empty());
        assert(walk_list(s, p, depth, v, fuel).0 =~= first.0);
        assert(walk_list(s, idxs, depth, v, fuel).0 + first.0 =~= first.0);
    } else {
        let p = idxs.push(x);
        assert(p[0] == idxs[0]);
        assert(p.drop_first() =~= idxs.drop_first().push(x));
        let first = walk_node(s, idxs[0], depth, v, fuel);
        lemma_walk_list_snoc(s, idxs.drop_first(), x, depth, first.1, fuel);
        let mid = walk_list(s, idxs.drop_first(), depth, first.1, fuel);
        let last = walk_node(s, x, depth, mid.1, fuel);
        assert(first.0 + (mid.0 + last.0) =~= (first.0 + mid.0) + last.0);
    }
}

// ---------------------------------------------------------------------------
// Lemmas about sibling ordering

/// Children lists hold indices below the table length, in increasing order.
proof fn lemma_children_shape(s: Seq<PView>, i: usize, m: int)
    requires
        m <= usize::MAX as int + 1,
    ensures
        idx_bounded(children_upto(s, i, m), m),
        idx_increasing(children_upto(s, i, m)),
    decreases m,
{
    if m > 0 && m <= s.len() {
        lemma_children_shape(s, i, m - 1);
        let t = children_upto(s, i, m - 1);
        if s[m - 1].parent_pid == Some(s[i as int].pid) {
            let r = children_upto(s, i, m);
            assert(forall|k: int| 0 <= k < t.len() ==> (#[trigger] t[k]) < m - 1);
            assert(forall|k: int| 0 <= k < t.len() ==> #[trigger] r[k] == t[k]);
            assert(r[r.len() - 1] == (m - 1) as usize);
        }
    }
}

/// Root lists hold indices below the table length, in increasing order.
proof fn lemma_roots_shape(s: Seq<PView>, m: int)
    requires
        m <= usize::MAX as int + 1,
    ensures
        idx_bounded(roots_upto(s, m), m),
        idx_increasing(roots_upto(s, m)),
    decreases m,
{
    if m > 0 && m <= s.len() {
        lemma_roots_shape(s, m - 1);
        let t = roots_upto(s, m - 1);
        if is_root(s, m - 1) {
            let r = roots_upto(s, m);
            assert(forall|k: int| 0 <= k < t.len() ==> (#[trigger] t[k]) < m - 1);
            assert(forall|k: int| 0 <= k < t.len() ==> #[trigger] r[k] == t[k]);
            assert(r[r.len() - 1] == (m - 1) as usize);
        }
    }
}

/// Inserting a later index keeps adjacent pairs strictly ordered.
proof fn lemma_insert_idx_ord(s: Seq<PView>, x: usize, l: Seq<usize>)
    requires
        sibling_sorted(s, l),
        forall|k: int| 0 <= k < l.len() ==> (#[trigger] l[k]) < x,
    ensures
        sibling_sorted(s, insert_idx(s, x, l)),
    decreases l.len(),
{
    if l.len() == 0 {
    } else if idx_before(s, l[0], x) {
        assert(sibling_sorted(s, l.drop_first())) by {
            assert(forall|k: int|
                0 <= k < l.len() - 1 ==> #[trigger] l.drop_first()[k] == l[k + 1]);
        }
        lemma_insert_idx_ord(s, x, l.drop_first());
        let t = insert_idx(s, x, l.drop_first());
        let r = seq![l[0]] + t;
        assert(t.len() > 0);
        assert(t[0] == x || (l.drop_first().len() > 0 && t[0] == l.drop_first()[0]));
        assert(idx_ord(s, r[0], r[1]));
        assert(forall|k: int| 1 <= k < r.len() ==> r[k] == t[k - 1]);
    } else {
        let r = seq![x] + l;
        assert(idx_ord(s, x, l[0]));
        assert(forall|k: int| 1 <= k < r.len() ==> r[k] == l[k - 1]);
    }
}

/// Insertion adds exactly the one index.
proof fn lemma_insert_idx_mset(s: Seq<PView>, x: usize, l: Seq<usize>)
    ensures
        insert_idx(s, x, l).to_multiset() == l.to_multiset().insert(x),
        insert_idx(s, x, l).len() == l.len() + 1,
    decreases l.len(),
{
    broadcast use vstd::seq_lib::group_to_multiset_ensures;
    broadcast use vstd::multiset::group_multiset_axioms;

    if l.len() == 0 {
        assert(insert_idx(s, x, l) =~= Seq::<usize>::empty().push(x));
        assert(l.to_multiset() =~= Multiset::<usize>::empty());
        assert(Seq::<usize>::empty().to_multiset() =~= Multiset::<usize>::empty());
    } else if idx_before(s, l[0], x) {
        lemma_insert_idx_mset(s, x, l.drop_first());
        let t = insert_idx(s, x, l.drop_first());
        let r = seq![l[0]] + t;
        vstd::seq_lib::lemma_multiset_commutative(seq![l[0]], t);
        vstd::seq_lib::lemma_multiset_commutative(seq![l[0]], l.drop_first());
        assert(l =~= seq![l[0]] + l.drop_first());
        assert(r.to_multiset() =~= l.to_multiset().insert(x));
    } else {
        let r = seq![x] + l;
        vstd::seq_lib::lemma_multiset_commutative(seq![x], l);
        assert(seq![x] =~= Seq::<usize>::empty().push(x));
        assert(r.to_multiset() =~= l.to_multiset().insert(x));
    }
}

/// The sibling sort of an increasing index list is a permutation whose
/// adjacent pairs are strictly ordered: CPU usage descending, ties in input
/// order.
pub proof fn lemma_sort_idx(s: Seq<PView>, l: Seq<usize>)
    requires
        idx_increasing(l),
    ensures
        sibling_sorted(s, sort_idx(s, l)),
        sort_idx(s, l).to_multiset() == l.to_multiset(),
        sort_idx(s, l).len() == l.len(),
    decreases l.len(),
{
    broadcast use vstd::seq_lib::group_to_multiset_ensures;
    broadcast use vstd::multiset::group_multiset_axioms;

    if l.len() == 0 {
        assert(sort_idx(s, l).to_multiset() =~= l.to_multiset());
    } else {
        assert(idx_increasing(l.drop_last())) by {
            assert(forall|k: int|
                0 <= k < l.len() - 1 ==> #[trigger] l.drop_last()[k] == l[k]);
        }
        lemma_sort_idx(s, l.drop_last());
        let t = sort_idx(s, l.drop_last());
        assert(forall|k: int| 0 <= k < t.len() ==> (#[trigger] t[k]) < l.last()) by {
            assert(forall|z: usize| t.to_multiset().count(z) > 0 ==> l.drop_last().to_multiset().count(z) > 0);
            assert(forall|k: int|
                0 <= k < t.len() ==> l.drop_last().to_multiset().count(#[trigger] t[k]) > 0);
            assert(forall|z: usize|
                l.drop_last().to_multiset().count(z) > 0 ==> l.drop_last().contains(z));
            assert(forall|k: int| 0 <= k < l.len() - 1 ==> #[trigger] l.drop_last()[k] == l[k]);
            assert(forall|k: int| 0 <= k < l.len() - 1 ==> #[trigger] l[k] < l.last());
        }
        lemma_insert_idx_ord(s, l.last(), t);
        lemma_insert_idx_mset(s, l.last(), t);
        assert(l =~= l.drop_last().push(l.last()));
        assert(l.drop_last().push(l.last()).to_multiset() =~= l.drop_last().to_multiset().insert(
            l.last(),
        ));
    }
}

/// A sorted index list keeps its bound.
proof fn lemma_sort_idx_bounded(s: Seq<PView>, l: Seq<usize>, n: int)
    requires
        idx_increasing(l),
        idx_bounded(l, n),
    ensures
        idx_bounded(sort_idx(s, l), n),
{
    broadcast use vstd::seq_lib::group_to_multiset_ensures;
    broadcast use vstd::multiset::group_multiset_axioms;

    lemma_sort_idx(s, l);
    let t = sort_idx(s, l);
    assert(forall|k: int| 0 <= k < t.len() ==> (#[trigger] t[k]) < n) by {
        assert(forall|k: int|
            0 <= k < t.len() ==> t.to_multiset().count(#[trigger] t[k]) > 0);
        assert(forall|z: usize| l.to_multiset().count(z) > 0 ==> l.contains(z));
    }
}

// ---------------------------------------------------------------------------
// The completeness theorem

/// Tree completeness and acyclicity: every record of the table appears in
/// the built tree exactly as often as in the input — in particular exactly
/// once each when pids are unique — and each output record is an input
/// record re-emitted at its tree depth.  The walk itself terminates on any
/// parent graph, dangling or cyclic: its `decreases` measures are accepted
/// by Verus unconditionally, and the visited set makes every fuel-consuming
/// step mark a fresh record, so the table-length fuel never runs out before
/// the walk does.
pub proof fn lemma_tree_complete(s: Seq<PView>)
    requires
        s.len() <= usize::MAX,
    ensures
        pid_mset(tree_spec(s)) == pid_mset(s),
        tree_spec(s).len() == s.len(),
        forall|k: int| 0 <= k < tree_spec(s).len() ==> from_input(s, #[trigger] tree_spec(s)[k]),
{
    broadcast use vstd::seq_lib::group_to_multiset_ensures;
    broadcast use vstd::multiset::group_multiset_axioms;
    broadcast use vstd::multiset::lemma_multiset_empty_len;

    let n = s.len();
    let v0 = Seq::new(n, |i: int| false);
    let roots = sort_idx(s, roots_of(s));
    let phase1 = walk_list(s, roots, 0, v0, n);
    let phase2 = walk_list(s, idx_range(n), 0, phase1.1, n);
    let out = tree_spec(s);

    lemma_unseen_all_false(s, n as int);
    assert(pid_seq(s).take(n as int) =~= pid_seq(s));
    lemma_unseen_upto_le(s, v0, n as int);
    lemma_walk_list_props(s, roots, 0, v0, n);
    lemma_unseen_upto_le(s, phase1.1, n as int);
    lemma_walk_list_visits(s, idx_range(n), 0, phase1.1, n);
    lemma_walk_list_props(s, idx_range(n), 0, phase1.1, n);

    assert forall|j: int| 0 <= j < n implies phase2.1[j] by {
        let u = idx_range(n)[j];
        assert(u == j as usize);
        assert(u < s.len());
        assert(phase2.1[u as int]);
    }
    lemma_unseen_all_visited(s, phase2.1, n as int);

    assert(pid_seq(out) =~= pid_seq(phase1.0) + pid_seq(phase2.0));
    vstd::seq_lib::lemma_multiset_commutative(pid_seq(phase1.0), pid_seq(phase2.0));
    assert(pid_mset(out) =~= pid_mset(s));
    assert(pid_mset(out).len() == pid_seq(out).len());
    assert(pid_mset(s).len() == pid_seq(s).len());

    assert(forall|k: int| 0 <= k < out.len() ==> from_input(s, #[trigger] out[k])) by {
        assert(forall|k: int| 0 <= k < phase1.0.len() ==> out[k] == phase1.0[k]);
        assert(forall|k: int|
            phase1.0.len() <= k < out.len() ==> out[k] == phase2.0[k - phase1.0.len()]);
    }
}

// ---------------------------------------------------------------------------
// Executable tree construction

/// Whether any record carries this pid.
fn pid_exists(s: &Vec<ProcessInfo>, p: u32) -> (r: bool)
    ensures
        r == exists|k: int|
            0 <= k < s@.len() && (#[trigger] record_views(s@)[k]).pid == p,
{
    let ghost sv = record_views(s@);
    let mut k: usize = 0;
    while k < s.len()
        invariant
            k <= s@.len(),
            sv == record_views(s@),
            forall|j: int| 0 <= j < k ==> (#[trigger] sv[j]).pid != p,
        decreases s@.len() - k,
    {
        if s[k].pid == p {
            proof {
                assert(sv[k as int].pid == p);
            }
            return true;
        }
        k = k + 1;
    }
    false
}

/// The root indices, in input order.
fn roots_exec(s: &Vec<ProcessInfo>) -> (r: Vec<usize>)
    ensures
        r@ == roots_of(record_views(s@)),
{
    let ghost sv = record_views(s@);
    let mut out: Vec<usize> = Vec::new();
    proof {
        assert(out@ =~= roots_upto(sv, 0));
    }
    let mut j: usize = 0;
    while j < s.len()
        invariant
            j <= s@.len(),
            sv == record_views(s@),
            out@ == roots_upto(sv, j as int),
        decreases s@.len() - j,
    {
        let root = match s[j].parent_pid {
            None => true,
            Some(p) => !pid_exists(s, p),
        };
        proof {
            assert(sv[j as int].parent_pid == s@[j as int].parent_pid);
            assert(root == is_root(sv, j as int));
        }
        if root {
            out.push(j);
            proof {
                assert(out@ =~= roots_upto(sv, j + 1));
            }
        }
        j = j + 1;
    }
    out
}

/// The children of record `idx`, in input order.
fn children_exec(s: &Vec<ProcessInfo>, idx: usize) -> (r: Vec<usize>)
    requires
        idx < s@.len(),
    ensures
        r@ == children_of(record_views(s@), idx),
{
    let ghost sv = record_views(s@);
    let pid = s[idx].pid;
    proof {
        assert(sv[idx as int].pid == pid);
    }
    let mut out: Vec<usize> = Vec::new();
    proof {
        assert(out@ =~= children_upto(sv, idx, 0));
    }
    let mut j: usize = 0;
    while j < s.len()
        invariant
            j <= s@.len(),
            idx < s@.len(),
            sv == record_views(s@),
            pid == sv[idx as int].pid,
            out@ == children_upto(sv, idx, j as int),
        decreases s@.len() - j,
    {
        let is_child = match s[j].parent_pid {
            Some(p) => p == pid,
            None => false,
        };
        proof {
            assert(sv[j as int].parent_pid == s@[j as int].parent_pid);
            assert(is_child == (sv[j as int].parent_pid == Some(sv[idx as int].pid)));
        }
        if is_child {
            out.push(j);
            proof {
                assert(out@ =~= children_upto(sv, idx, j + 1));
            }
        }
        j = j + 1;
    }
    out
}

/// Splitting at the first non-ordered position realizes stable insertion.
proof fn lemma_insert_idx_split(s: Seq<PView>, x: usize, l: Seq<usize>, j: int)
    requires
        0 <= j <= l.len(),
        forall|k: int| 0 <= k < j ==> idx_before(s, #[trigger] l[k], x),
        j < l.len() ==> !idx_before(s, l[j], x),
    ensures
        insert_idx(s, x, l) == l.take(j) + seq![x] + l.skip(j),
    decreases j,
{
    if j == 0 {
        assert(insert_idx(s, x, l) =~= l.take(0) + seq![x] + l.skip(0));
    } else {
        let t = l.drop_first();
        assert(forall|k: int| 0 <= k < j - 1 ==> #[trigger] t[k] == l[k + 1]);
        lemma_insert_idx_split(s, x, t, j - 1);
        assert(insert_idx(s, x, l) == seq![l[0]] + (t.take(j - 1) + seq![x] + t.skip(j - 1)));
        assert(seq![l[0]] + (t.take(j - 1) + seq![x] + t.skip(j - 1)) =~= l.take(j) + seq![x]
            + l.skip(j));
    }
}

/// The position where stable insertion places index `x`.
fn find_idx_pos(s: &Vec<ProcessInfo>, out: &Vec<usize>, x: usize) -> (j: usize)
    requires
        x < s@.len(),
        idx_bounded(out@, s@.len() as int),
    ensures
        j <= out@.len(),
        forall|k: int| 0 <= k < j ==> idx_before(record_views(s@), #[trigger] out@[k], x),
        j < out@.len() ==> !idx_before(record_views(s@), out@[j as int], x),
{
    let ghost sv = record_views(s@);
    let mut j: usize = 0;
    while j < out.len()
        invariant
            j <= out@.len(),
            sv == record_views(s@),
            x < s@.len(),
            idx_bounded(out@, s@.len() as int),
            forall|k: int| 0 <= k < j ==> idx_before(sv, #[trigger] out@[k], x),
        decreases out@.len() - j,
    {
        proof {
            assert(sv[out@[j as int] as int].cpu_usage == s@[out@[j as int] as int]@.cpu_usage);
            assert(sv[x as int].cpu_usage == s@[x as int]@.cpu_usage);
        }
        if s[out[j]].cpu_usage < s[x].cpu_usage {
            return j;
        }
        j = j + 1;
    }
    j
}

/// Stable sort of an index list by descending CPU usage of the records.
fn sort_idx_exec(s: &Vec<ProcessInfo>, idxs: &Vec<usize>) -> (r: Vec<usize>)
    requires
        idx_bounded(idxs@, s@.len() as int),
    ensures
        r@ == sort_idx(record_views(s@), idxs@),
        idx_bounded(r@, s@.len() as int),
{
    let ghost sv = record_views(s@);
    let mut out: Vec<usize> = Vec::new();
    proof {
        assert(idxs@.take(0) =~= Seq::<usize>::empty());
        assert(out@ =~= sort_idx(sv, idxs@.take(0)));
    }
    let mut i: usize = 0;
    while i < idxs.len()
        invariant
            i <= idxs@.len(),
            sv == record_views(s@),
            idx_bounded(idxs@, s@.len() as int),
            idx_bounded(out@, s@.len() as int),
            out@ == sort_idx(sv, idxs@.take(i as int)),
        decreases idxs@.len() - i,
    {
        let x = idxs[i];
        let j = find_idx_pos(s, &out, x);
        proof {
            lemma_insert_idx_split(sv, x, out@, j as int);
            assert(idxs@.take(i + 1).drop_last() =~= idxs@.take(i as int));
            assert(idxs@.take(i + 1).last() == idxs@[i as int]);
        }
        let ghost before = out@;
        out.insert(j, x);
        proof {
            assert(out@ =~= before.take(j as int) + seq![x] + before.skip(j as int));
        }
        i = i + 1;
    }
    proof {
        assert(idxs@.take(idxs@.len() as int) =~= idxs@);
    }
    out
}

/// One node of the depth-first walk: emits the record at `depth` unless
/// already visited, then its children, ordered by descending CPU usage, at
/// `depth + 1`.  The fuel bounds the recursion depth; the top-level call
/// supplies the table length, which the visited set proves sufficient.
fn walk_node_exec(
    s: &Vec<ProcessInfo>,
    idx: usize,
    depth: usize,
    fuel: usize,
    visited: &mut Vec<bool>,
    out: &mut Vec<ProcessInfo>,
)
    requires
        idx < s@.len(),
        old(visited)@.len() == s@.len(),
        depth + fuel <= s@.len(),
    ensures
        final(visited)@ == walk_node(
            record_views(s@),
            idx,
            depth as nat,
            old(visited)@,
            fuel as nat,
        ).1,
        record_views(final(out)@) == record_views(old(out)@) + walk_node(
            record_views(s@),
            idx,
            depth as nat,
            old(visited)@,
            fuel as nat,
        ).0,
        final(visited)@.len() == s@.len(),
    decreases fuel,
{
    let ghost sv = record_views(s@);
    let ghost v0 = visited@;
    let ghost spec_result = walk_node(sv, idx, depth as nat, v0, fuel as nat);
    let n_bound = s.len();
    proof {
        assert(n_bound == s@.len());
    }
    if visited[idx] {
        proof {
            assert(spec_result.0 =~= Seq::<PView>::empty());
            assert(record_views(out@) + spec_result.0 =~= record_views(out@));
        }
        return;
    }
    if fuel == 0 {
        proof {
            assert(spec_result.0 =~= Seq::<PView>::empty());
            assert(record_views(out@) + spec_result.0 =~= record_views(out@));
        }
        return;
    }
    visited[idx] = true;
    let ghost v1 = visited@;
    proof {
        assert(v1 =~= v0.update(idx as int, true));
    }

    let mut rec = clone_info(&s[idx]);
    rec.depth = depth;
    proof {
        assert(s@[idx as int]@ == sv[idx as int]);
        assert(rec@ == set_depth(sv[idx as int], depth as nat));
    }
    let ghost out_marked = record_views(out@).push(rec@);
    out.push(rec);
    proof {
        assert(record_views(out@) =~= out_marked);
    }

    let raw_kids = children_exec(s, idx);
    proof {
        lemma_children_shape(sv, idx, sv.len() as int);
    }
    let kids = sort_idx_exec(s, &raw_kids);
    let ghost kv = kids@;
    let ghost base_out = record_views(out@);

    proof {
        assert(walk_list(sv, kv.take(0), (depth + 1) as nat, v1, (fuel - 1) as nat).0
            =~= Seq::<PView>::empty());
        assert(base_out + Seq::<PView>::empty() =~= base_out);
    }
    let mut k: usize = 0;
    while k < kids.len()
        invariant
            k <= kv.len(),
            kv == kids@,
            sv == record_views(s@),
            idx_bounded(kv, s@.len() as int),
            visited@.len() == s@.len(),
            depth + fuel <= s@.len(),
            s@.len() <= usize::MAX,
            fuel >= 1,
            base_out.len() >= 0,
            visited@ == walk_list(sv, kv.take(k as int), (depth + 1) as nat, v1, (
            fuel - 1) as nat).1,
            record_views(out@) == base_out + walk_list(
                sv,
                kv.take(k as int),
                (depth + 1) as nat,
                v1,
                (fuel - 1) as nat,
            ).0,
        decreases kv.len() - k,
    {
        let ghost mid = walk_list(sv, kv.take(k as int), (depth + 1) as nat, v1, (
        fuel - 1) as nat);
        walk_node_exec(s, kids[k], depth + 1, fuel - 1, visited, out);
        proof {
            lemma_walk_list_snoc(sv, kv.take(k as int), kv[k as int], (depth + 1) as nat, v1, (
            fuel - 1) as nat);
            assert(kv.take(k + 1) =~= kv.take(k as int).push(kv[k as int]));
            let nxt = walk_node(sv, kv[k as int], (depth + 1) as nat, mid.1, (fuel - 1) as nat);
            assert(record_views(out@) =~= base_out + (mid.0 + nxt.0));
        }
        k = k + 1;
    }
    proof {
        assert(kv.take(kv.len() as int) =~= kv);
        assert(kv == sort_idx(sv, children_of(sv, idx)));
        assert(spec_result.1 == walk_list(sv, kv, (depth + 1) as nat, v1, (fuel - 1) as nat).1);
        assert(spec_result.0 == seq![set_depth(sv[idx as int], depth as nat)] + walk_list(
            sv,
            kv,
            (depth + 1) as nat,
            v1,
            (fuel - 1) as nat,
        ).0);
        assert(base_out =~= record_views(old(out)@).push(rec@));
        assert(record_views(old(out)@) + spec_result.0 =~= base_out + walk_list(
            sv,
            kv,
            (depth + 1) as nat,
            v1,
            (fuel - 1) as nat,
        ).0);
    }
}

/// Builds the depth-annotated tree view of the process table: roots ordered
/// by descending CPU usage, each node's children likewise, depth-first
/// pre-order, every record emitted exactly once, at its first-visited
/// depth, however inconsistent the parent graph is.  Termination on
/// dangling or cyclic parent links is part of what Verus checks: the
/// recursion's `decreases` measure holds with no precondition on the
/// table.
pub fn build_process_tree(records: Vec<ProcessInfo>) -> (r: Vec<ProcessInfo>)
    ensures
        record_views(r@) == tree_spec(record_views(records@)),
        r@.len() == records@.len(),
        pid_mset(record_views(r@)) == pid_mset(record_views(records@)),
        forall|k: int|
            0 <= k < r@.len() ==> from_input(record_views(records@), #[trigger] record_views(
                r@,
            )[k]),
{
    let ghost sv = record_views(records@);
    let n = records.len();
    let mut visited: Vec<bool> = Vec::new();
    let mut i: usize = 0;
    while i < n
        invariant
            i <= n,
            visited@ == Seq::new(i as nat, |j: int| false),
        decreases n - i,
    {
        visited.push(false);
        proof {
            assert(visited@ =~= Seq::new((i + 1) as nat, |j: int| false));
        }
        i = i + 1;
    }
    let ghost v0 = visited@;

    let mut out: Vec<ProcessInfo> = Vec::new();

    let raw_roots = roots_exec(&records);
    proof {
        lemma_roots_shape(sv, sv.len() as int);
    }
    let roots = sort_idx_exec(&records, &raw_roots);
    let ghost rv = roots@;

    proof {
        assert(record_views(out@) =~= Seq::<PView>::empty());
        assert(walk_list(sv, rv.take(0), 0, v0, n as nat).0 =~= Seq::<PView>::empty());
        assert(record_views(out@) =~= Seq::<PView>::empty() + walk_list(
            sv,
            rv.take(0),
            0,
            v0,
            n as nat,
        ).0);
    }
    let mut k: usize = 0;
    while k < roots.len()
        invariant
            k <= rv.len(),
            rv == roots@,
            sv == record_views(records@),
            n == records@.len(),
            idx_bounded(rv, n as int),
            visited@.len() == n,
            visited@ == walk_list(sv, rv.take(k as int), 0, v0, n as nat).1,
            record_views(out@) == walk_list(sv, rv.take(k as int), 0, v0, n as nat).0,
        decreases rv.len() - k,
    {
        let ghost mid = walk_list(sv, rv.take(k as int), 0, v0, n as nat);
        walk_node_exec(&records, roots[k], 0, n, &mut visited, &mut out);
        proof {
            lemma_walk_list_snoc(sv, rv.take(k as int), rv[k as int], 0, v0, n as nat);
            assert(rv.take(k + 1) =~= rv.take(k as int).push(rv[k as int]));
            let nxt = walk_node(sv, rv[k as int], 0, mid.1, n as nat);
            assert(record_views(out@) =~= mid.0 + nxt.0);
        }
        k = k + 1;
    }
    proof {
        assert(rv.take(rv.len() as int) =~= rv);
    }
    let ghost phase1 = walk_list(sv, rv, 0, v0, n as nat);

    let ghost range = idx_range(n as nat);
    proof {
        assert(range.take(0) =~= Seq::<usize>::empty());
        assert(phase1.0 + walk_list(sv, range.take(0), 0, phase1.1, n as nat).0 =~= phase1.0);
    }
    let mut j: usize = 0;
    while j < n
        invariant
            j <= n,
            sv == record_views(records@),
            n == records@.len(),
            range == idx_range(n as nat),
            visited@.len() == n,
            visited@ == walk_list(sv, range.take(j as int), 0, phase1.1, n as nat).1,
            record_views(out@) == phase1.0 + walk_list(sv, range.take(j as int), 0, phase1.1, n as nat).0,
        decreases n - j,
    {
        let ghost mid = walk_list(sv, range.take(j as int), 0, phase1.1, n as nat);
        walk_node_exec(&records, j, 0, n, &mut visited, &mut out);
        proof {
            lemma_walk_list_snoc(sv, range.take(j as int), range[j as int], 0, phase1.1, n as nat);
            assert(range[j as int] == j);
            assert(range.take(j + 1) =~= range.take(j as int).push(range[j as int]));
            let nxt = walk_node(sv, range[j as int], 0, mid.1, n as nat);
            assert(record_views(out@) =~= phase1.0 + (mid.0 + nxt.0));
        }
        j = j + 1;
    }
    proof {
        assert(range.take(range.len() as int) =~= range);
        assert(v0 =~= Seq::new(sv.len(), |x: int| false));
        assert(rv == sort_idx(sv, roots_of(sv)));
        assert(record_views(out@) =~= tree_spec(sv));
        lemma_tree_complete(sv);
        assert(out@.len() == record_views(out@).len());
    }
    out
}

/// Tree ordering law: the sibling list the walk uses for record `i` — and
/// likewise the root list — is a permutation of the children (roots) in
/// which adjacent entries have non-increasing CPU usage, and entries of
/// equal CPU usage keep their input order (their indices increase).
pub proof fn lemma_sibling_order(s: Seq<PView>, i: usize)
    requires
        s.len() <= usize::MAX,
    ensures
        sibling_sorted(s, sort_idx(s, children_of(s, i))),
        sort_idx(s, children_of(s, i)).to_multiset() == children_of(s, i).to_multiset(),
        sibling_sorted(s, sort_idx(s, roots_of(s))),
        sort_idx(s, roots_of(s)).to_multiset() == roots_of(s).to_multiset(),
{
    lemma_children_shape(s, i, s.len() as int);
    lemma_sort_idx(s, children_of(s, i));
    lemma_roots_shape(s, s.len() as int);
    lemma_sort_idx(s, roots_of(s));
}

} // verus!
