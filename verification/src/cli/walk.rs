//! The part of a graph around a node.

use crate::cli::inspect::Direction;
use crate::collections::{fx_set, fx_set_contains, fx_set_insert};
use rustc_hash::FxHashSet;
use vstd::prelude::*;

verus! {

/// Where a walk comes to an edge.
pub open spec fn near(e: (u32, u32), dir: Direction) -> u32 {
    match dir {
        Direction::Down => e.0,
        Direction::Up => e.1,
    }
}

/// Where an edge leads a walk.
pub open spec fn far(e: (u32, u32), dir: Direction) -> u32 {
    match dir {
        Direction::Down => e.1,
        Direction::Up => e.0,
    }
}

fn near_end(e: (u32, u32), dir: Direction) -> (r: u32)
    ensures
        r == near(e, dir),
{
    match dir {
        Direction::Down => e.0,
        Direction::Up => e.1,
    }
}

fn far_end(e: (u32, u32), dir: Direction) -> (r: u32)
    ensures
        r == far(e, dir),
{
    match dir {
        Direction::Down => e.1,
        Direction::Up => e.0,
    }
}

/// Whether one of the first `n` edges leads from a set of nodes to a node.
pub open spec fn led_to(edges: Seq<(u32, u32)>, dir: Direction, from: Set<u32>, v: u32, n: int)
    -> bool {
    exists|i: int| 0 <= i < n && from.contains(near(edges[i], dir)) && #[trigger] far(edges[i], dir)
        == v
}

/// The nodes that are no more than `depth` edges away.
pub open spec fn within(edges: Seq<(u32, u32)>, start: u32, dir: Direction, depth: nat) -> Set<u32>
    decreases depth,
{
    if depth == 0 {
        set![start]
    } else {
        let before = within(edges, start, dir, (depth - 1) as nat);
        Set::new(|v: u32| before.contains(v) || led_to(edges, dir, before, v, edges.len() as int))
    }
}

/// Those of the first `n` edges that a walk over some nodes meets, each once.
pub open spec fn met(edges: Seq<(u32, u32)>, dir: Direction, nodes: Set<u32>, n: int) -> Seq<
    (u32, u32),
>
    decreases n,
{
    if n <= 0 {
        Seq::empty()
    } else {
        let before = met(edges, dir, nodes, n - 1);
        if nodes.contains(near(edges[n - 1], dir)) && !before.contains(edges[n - 1]) {
            before.push(edges[n - 1])
        } else {
            before
        }
    }
}

/// A walk that finds nothing new in one step finds nothing new at all.
proof fn settled(edges: Seq<(u32, u32)>, start: u32, dir: Direction, depth: nat, more: nat)
    requires
        within(edges, start, dir, depth + 1) == within(edges, start, dir, depth),
    ensures
        within(edges, start, dir, depth + more) == within(edges, start, dir, depth),
    decreases more,
{
    if more > 0 {
        settled(edges, start, dir, depth, (more - 1) as nat);
        let k = (depth + more - 1) as nat;
        assert(within(edges, start, dir, k) == within(edges, start, dir, depth));
        assert(within(edges, start, dir, k + 1) =~= within(edges, start, dir, depth + 1));
    }
}

/// Going deeper loses nothing.
pub proof fn deeper_holds_more(
    edges: Seq<(u32, u32)>,
    start: u32,
    dir: Direction,
    depth: nat,
    more: nat,
)
    ensures
        within(edges, start, dir, depth).subset_of(within(edges, start, dir, depth + more)),
    decreases more,
{
    if more > 0 {
        deeper_holds_more(edges, start, dir, depth, (more - 1) as nat);
        let k = (depth + more - 1) as nat;
        assert(within(edges, start, dir, k).subset_of(within(edges, start, dir, k + 1)));
    }
}

/// The nodes that a walk of one step finds, in the order of the edges.
fn next_nodes(edges: &Vec<(u32, u32)>, dir: Direction, known: &FxHashSet<u32>) -> (r: Vec<u32>)
    ensures
        r@.no_duplicates(),
        forall|v: u32| #[trigger]
            r@.contains(v) <==> !known@.contains(v) && led_to(
                edges@,
                dir,
                known@,
                v,
                edges@.len() as int,
            ),
{
    let mut fresh: FxHashSet<u32> = fx_set();
    let mut out: Vec<u32> = Vec::new();
    let mut i: usize = 0;
    while i < edges.len()
        invariant
            i <= edges@.len(),
            out@.no_duplicates(),
            forall|v: u32| #[trigger] fresh@.contains(v) <==> out@.contains(v),
            forall|v: u32| #[trigger]
                out@.contains(v) <==> !known@.contains(v) && led_to(
                    edges@,
                    dir,
                    known@,
                    v,
                    i as int,
                ),
        decreases edges@.len() - i,
    {
        let e = edges[i];
        let to = far_end(e, dir);
        let ghost before = out@;
        if fx_set_contains(known, near_end(e, dir)) && !fx_set_contains(known, to) {
            if fx_set_insert(&mut fresh, to) {
                out.push(to);
                assert(!before.contains(to));
                assert forall|v: u32| #[trigger] out@.contains(v) <==> before.contains(v) || v
                    == to by {
                    if before.contains(v) {
                        let k = choose|k: int| 0 <= k < before.len() && before[k] == v;
                        assert(out@[k] == v);
                    }
                    if v == to {
                        assert(out@[before.len() as int] == v);
                    }
                }
            }
        }
        assert forall|v: u32| #[trigger] out@.contains(v) <==> !known@.contains(v) && led_to(
            edges@,
            dir,
            known@,
            v,
            i + 1,
        ) by {
            if led_to(edges@, dir, known@, v, i as int) {
                assert(led_to(edges@, dir, known@, v, i + 1)) by {
                    let k = choose|k: int|
                        0 <= k < i && known@.contains(near(edges@[k], dir)) && far(edges@[k], dir)
                            == v;
                    assert(far(edges@[k], dir) == v);
                }
            }
            if known@.contains(near(e, dir)) && v == to {
                assert(far(edges@[i as int], dir) == v);
                assert(led_to(edges@, dir, known@, v, i + 1));
            }
            if led_to(edges@, dir, known@, v, i + 1) && !led_to(edges@, dir, known@, v, i as int) {
                let k = choose|k: int|
                    0 <= k < i + 1 && known@.contains(near(edges@[k], dir)) && far(edges@[k], dir)
                        == v;
                assert(k == i);
            }
        }
        i = i + 1;
    }
    out
}

/// Those of the edges that a walk over some nodes meets, each once.
fn edges_met(edges: &Vec<(u32, u32)>, dir: Direction, nodes: &FxHashSet<u32>) -> (r: Vec<
    (u32, u32),
>)
    ensures
        r@ == met(edges@, dir, nodes@, edges@.len() as int),
{
    let mut seen: FxHashSet<(u32, u32)> = fx_set();
    let mut out: Vec<(u32, u32)> = Vec::new();
    let mut i: usize = 0;
    assert(out@ =~= met(edges@, dir, nodes@, 0));
    while i < edges.len()
        invariant
            i <= edges@.len(),
            forall|e: (u32, u32)| #[trigger] seen@.contains(e) <==> out@.contains(e),
            out@ == met(edges@, dir, nodes@, i as int),
        decreases edges@.len() - i,
    {
        let e = edges[i];
        if fx_set_contains(nodes, near_end(e, dir)) {
            let ghost before = out@;
            if fx_set_insert(&mut seen, e) {
                out.push(e);
                assert forall|x: (u32, u32)| #[trigger] out@.contains(x) <==> before.contains(x) || x
                    == e by {
                    if before.contains(x) {
                        let k = choose|k: int| 0 <= k < before.len() && before[k] == x;
                        assert(out@[k] == x);
                    }
                    if x == e {
                        assert(out@[before.len() as int] == x);
                    }
                }
            }
        }
        i = i + 1;
    }
    out
}

/// The nodes that are no more than `depth` edges away from a node, nearest
/// first, and the edges that lead to them.
pub fn walk(edges: &Vec<(u32, u32)>, start: u32, dir: Direction, depth: u32) -> (r: (
    Vec<u32>,
    Vec<(u32, u32)>,
))
    requires
        depth >= 1,
    ensures
        r.0@.no_duplicates(),
        forall|v: u32| #[trigger]
            r.0@.contains(v) <==> within(edges@, start, dir, depth as nat).contains(v),
        r.1@ == met(
            edges@,
            dir,
            within(edges@, start, dir, (depth - 1) as nat),
            edges@.len() as int,
        ),
{
    let mut known: FxHashSet<u32> = fx_set();
    fx_set_insert(&mut known, start);
    let mut nodes: Vec<u32> = Vec::new();
    nodes.push(start);
    assert(known@ =~= within(edges@, start, dir, 0));
    assert(nodes@[0] == start);
    let mut level: u32 = 0;
    let last = depth - 1;
    while level < last
        invariant
            level <= last,
            known@ == within(edges@, start, dir, level as nat),
            nodes@.no_duplicates(),
            forall|v: u32| #[trigger] nodes@.contains(v) <==> known@.contains(v),
        decreases last - level,
    {
        let fresh = next_nodes(edges, dir, &known);
        let ghost goal = within(edges@, start, dir, (level + 1) as nat);
        if fresh.len() == 0 {
            proof {
                assert forall|v: u32| known@.contains(v) <==> goal.contains(v) by {
                    assert(!fresh@.contains(v));
                }
                assert(goal =~= known@);
                settled(edges@, start, dir, level as nat, (last - level) as nat);
            }
            level = last;
        } else {
            let ghost before = known@;
            add_all(&mut known, &mut nodes, &fresh);
            assert(known@ =~= goal);
            level = level + 1;
        }
    }
    let inner = edges_met(edges, dir, &known);
    let fresh = next_nodes(edges, dir, &known);
    let ghost before = known@;
    add_all(&mut known, &mut nodes, &fresh);
    assert(known@ =~= within(edges@, start, dir, depth as nat));
    (nodes, inner)
}

/// Adds new nodes.
fn add_all(known: &mut FxHashSet<u32>, nodes: &mut Vec<u32>, fresh: &Vec<u32>)
    requires
        old(nodes)@.no_duplicates(),
        fresh@.no_duplicates(),
        forall|v: u32| #[trigger] old(nodes)@.contains(v) <==> old(known)@.contains(v),
        forall|v: u32| #[trigger] fresh@.contains(v) ==> !old(known)@.contains(v),
    ensures
        final(nodes)@.no_duplicates(),
        forall|v: u32| #[trigger] final(nodes)@.contains(v) <==> final(known)@.contains(v),
        forall|v: u32| #[trigger]
            final(known)@.contains(v) <==> old(known)@.contains(v) || fresh@.contains(v),
{
    let ghost start = nodes@;
    let ghost set = known@;
    let mut i: usize = 0;
    assert(nodes@ =~= start + fresh@.take(0));
    while i < fresh.len()
        invariant
            i <= fresh@.len(),
            nodes@ == start + fresh@.take(i as int),
            forall|v: u32| #[trigger]
                known@.contains(v) <==> set.contains(v) || fresh@.take(i as int).contains(v),
        decreases fresh@.len() - i,
    {
        let ghost before = known@;
        fx_set_insert(known, fresh[i]);
        nodes.push(fresh[i]);
        proof {
            assert(fresh@.take(i + 1) =~= fresh@.take(i as int).push(fresh@[i as int]));
            assert(nodes@ =~= start + fresh@.take(i + 1));
            assert forall|v: u32| #[trigger] known@.contains(v) <==> set.contains(v) || fresh@.take(
                i + 1,
            ).contains(v) by {
                let t = fresh@.take(i as int);
                if t.contains(v) {
                    let k = choose|k: int| 0 <= k < t.len() && t[k] == v;
                    assert(fresh@.take(i + 1)[k] == v);
                }
                if v == fresh@[i as int] {
                    assert(fresh@.take(i + 1)[i as int] == v);
                }
                let u = fresh@.take(i + 1);
                if u.contains(v) {
                    let k = choose|k: int| 0 <= k < u.len() && u[k] == v;
                    if k < i {
                        assert(t[k] == v);
                    }
                }
            }
        }
        i = i + 1;
    }
    proof {
        assert(fresh@.take(i as int) =~= fresh@);
        assert forall|v: u32| #[trigger] nodes@.contains(v) <==> known@.contains(v) by {
            if start.contains(v) {
                let k = choose|k: int| 0 <= k < start.len() && start[k] == v;
                assert(nodes@[k] == v);
            }
            if fresh@.contains(v) {
                let k = choose|k: int| 0 <= k < fresh@.len() && fresh@[k] == v;
                assert(nodes@[start.len() + k] == v);
            }
            if nodes@.contains(v) {
                let k = choose|k: int| 0 <= k < nodes@.len() && nodes@[k] == v;
                if k < start.len() {
                    assert(start[k] == v);
                } else {
                    assert(fresh@[k - start.len()] == v);
                }
            }
        }
        assert forall|a: int, b: int| 0 <= a < nodes@.len() && 0 <= b < nodes@.len() && a
            != b implies nodes@[a] != nodes@[b] by {
            if a < start.len() && b >= start.len() {
                assert(start.contains(nodes@[a]));
                assert(fresh@.contains(fresh@[b - start.len()]));
            }
            if b < start.len() && a >= start.len() {
                assert(start.contains(nodes@[b]));
                assert(fresh@.contains(fresh@[a - start.len()]));
            }
        }
    }
}

} // verus!
