//! What is known while a graph is solved only grows, and what is new waits to
//! be looked at.

use crate::analysis::pag::{list_of, with_listed, PagV};
use crate::analysis::solver::{with_value, SUMMARY_MEM_CAP};
use crate::analysis::state::{fresh, with_members, SolverV};
use crate::collections::with_member;
use crate::ir::ids::LocId;
use vstd::prelude::*;

verus! {

/// Whether a node may hold a location.
pub open spec fn holds(st: SolverV, n: u32, l: u32) -> bool {
    st.pts_of(n).contains(l)
}

/// Whether a location is news at a node.
pub open spec fn waits(st: SolverV, n: u32, l: u32) -> bool {
    st.delta_pending.contains((n, l))
}

/// Whether a list begins with another.
pub open spec fn begins_with<T>(longer: Seq<T>, s: Seq<T>) -> bool {
    s.len() <= longer.len() && longer.take(s.len() as int) == s
}

/// What every state of the solver keeps to:
/// news are listed, and their node is among those to look at; which nodes may
/// hold a location is listed; what a node has seen of a place it holds, as far
/// as the place lets it out.
pub open spec fn sound(st: SolverV) -> bool {
    &&& forall|n: u32, l: u32| #[trigger]
        waits(st, n, l) ==> list_of(st.delta, n).contains(l) && st.queued.contains(n)
    &&& forall|n: u32| #[trigger] st.queued.contains(n) ==> st.worklist.contains(n)
    &&& forall|n: u32, l: u32| #[trigger]
        holds(st, n, l) ==> list_of(st.loc_nodes, l).contains(n)
    &&& forall|n: u32, m: u32| #[trigger] has_seen(st, n, m)
    &&& forall|n: u32, l: u32| #[trigger] list_of(st.loc_nodes, l).contains(n) ==> holds(st, n, l)
    &&& forall|n: u32, l: u32| #[trigger] list_of(st.delta, n).contains(l) ==> holds(st, n, l)
}

/// Whether a node holds what it has seen of a place, as far as the place lets
/// it out.
pub open spec fn has_seen(st: SolverV, n: u32, m: u32) -> bool {
    &&& st.seen_of(n, m) <= st.memory_of(m).len()
    &&& forall|k: int|
        0 <= k < st.seen_of(n, m) && st.lets_out(m, #[trigger] st.memory_of(m)[k]) ==> holds(
            st,
            n,
            st.memory_of(m)[k],
        )
}

/// What has been seen stays seen where nothing is lost.
proof fn seen_kept(a: SolverV, b: SolverV, n: u32, m: u32)
    requires
        has_seen(a, n, m),
        b.seen_of(n, m) == a.seen_of(n, m),
        begins_with(b.memory_of(m), a.memory_of(m)),
        b.slot_guard == a.slot_guard,
        b.fn_arity == a.fn_arity,
        b.fn_locs == a.fn_locs,
        forall|l: u32| holds(a, n, l) ==> #[trigger] holds(b, n, l),
    ensures
        has_seen(b, n, m),
{
    assert forall|k: int|
        0 <= k < b.seen_of(n, m) && b.lets_out(m, #[trigger] b.memory_of(m)[k]) implies holds(
        b,
        n,
        b.memory_of(m)[k],
    ) by {
        let x = a.memory_of(m)[k];
        assert(b.memory_of(m).take(a.memory_of(m).len() as int)[k] == x);
        assert(a.lets_out(m, x));
        assert(holds(a, n, x));
    }
}

/// Whether nothing that is known in one state is lost in another: what nodes
/// may hold and what places hold stays, and what nodes have gained is news.
pub open spec fn kept(a: SolverV, b: SolverV) -> bool {
    &&& forall|n: u32, l: u32| #[trigger] holds(a, n, l) ==> holds(b, n, l)
    &&& forall|n: u32, l: u32| #[trigger] waits(a, n, l) ==> waits(b, n, l)
    &&& forall|n: u32, l: u32| #[trigger] holds(b, n, l) && !holds(a, n, l) ==> waits(b, n, l)
    &&& b.slot_guard == a.slot_guard
    &&& b.fn_arity == a.fn_arity
    &&& b.fn_locs == a.fn_locs
    &&& forall|l: u32| begins_with(#[trigger] b.memory_of(l), a.memory_of(l))
}

/// Whether, besides, the nodes of a set that may hold a place whose contents
/// have changed are to look at it again.
pub open spec fn grown(a: SolverV, b: SolverV, loaded: Set<u32>) -> bool {
    &&& kept(a, b)
    &&& forall|n: u32, l: u32| #[trigger]
        holds(b, n, l) && loaded.contains(n) && b.memory_of(l) != a.memory_of(l) ==> waits(b, n, l)
}

pub proof fn grown_refl(a: SolverV, loaded: Set<u32>)
    ensures
        grown(a, a, loaded),
{
    assert forall|l: u32| begins_with(#[trigger] a.memory_of(l), a.memory_of(l)) by {
        let m = a.memory_of(l);
        assert(m.take(m.len() as int) =~= m);
    }
}

proof fn begins_trans<T>(a: Seq<T>, b: Seq<T>, c: Seq<T>)
    requires
        begins_with(b, a),
        begins_with(c, b),
    ensures
        begins_with(c, a),
{
    assert(c.take(a.len() as int) =~= b.take(a.len() as int));
}

pub proof fn kept_trans(a: SolverV, b: SolverV, c: SolverV)
    requires
        kept(a, b),
        kept(b, c),
    ensures
        kept(a, c),
{
    assert forall|n: u32, l: u32| #[trigger] holds(a, n, l) implies holds(c, n, l) by {
        assert(holds(b, n, l));
    }
    assert forall|n: u32, l: u32| #[trigger] waits(a, n, l) implies waits(c, n, l) by {
        assert(waits(b, n, l));
    }
    assert forall|n: u32, l: u32| #[trigger] holds(c, n, l) && !holds(a, n, l) implies waits(
        c,
        n,
        l,
    ) by {
        if holds(b, n, l) {
            assert(waits(b, n, l));
        }
    }
    assert forall|l: u32| begins_with(#[trigger] c.memory_of(l), a.memory_of(l)) by {
        assert(begins_with(b.memory_of(l), a.memory_of(l)));
        begins_trans(a.memory_of(l), b.memory_of(l), c.memory_of(l));
    }
}

pub proof fn grown_trans(a: SolverV, b: SolverV, c: SolverV, loaded: Set<u32>)
    requires
        grown(a, b, loaded),
        grown(b, c, loaded),
    ensures
        grown(a, c, loaded),
{
    kept_trans(a, b, c);
    assert forall|n: u32, l: u32| #[trigger]
        holds(c, n, l) && loaded.contains(n) && c.memory_of(l) != a.memory_of(l) implies waits(
        c,
        n,
        l,
    ) by {
        if c.memory_of(l) == b.memory_of(l) {
            if holds(b, n, l) {
                assert(waits(b, n, l));
            }
        }
    }
}

pub proof fn with_member_holds(s: Seq<u32>, v: u32)
    ensures
        forall|x: u32| #[trigger] with_member(s, v).contains(x) <==> s.contains(x) || x == v,
        begins_with(with_member(s, v), s),
{
    let t = with_member(s, v);
    assert forall|x: u32| #[trigger] t.contains(x) <==> s.contains(x) || x == v by {
        if s.contains(x) {
            let k = choose|k: int| 0 <= k < s.len() && s[k] == x;
            assert(t[k] == x);
        }
        if x == v && !s.contains(v) {
            assert(t[s.len() as int] == v);
        }
        if t.contains(x) {
            let k = choose|k: int| 0 <= k < t.len() && t[k] == x;
            if k < s.len() {
                assert(s[k] == x);
            }
        }
    }
    assert(t.take(s.len() as int) =~= s);
}

pub proof fn with_members_hold(s: Seq<u32>, more: Seq<u32>)
    ensures
        forall|x: u32| #[trigger]
            with_members(s, more).contains(x) <==> s.contains(x) || more.contains(x),
        begins_with(with_members(s, more), s),
    decreases more.len(),
{
    let t = with_members(s, more);
    if more.len() == 0 {
        assert(s.take(s.len() as int) =~= s);
    } else {
        let before = with_members(s, more.drop_last());
        with_members_hold(s, more.drop_last());
        with_member_holds(before, more.last());
        begins_trans(s, before, t);
        assert forall|x: u32| #[trigger] t.contains(x) <==> s.contains(x) || more.contains(x) by {
            assert(t.contains(x) <==> before.contains(x) || x == more.last());
            if more.contains(x) {
                let k = choose|k: int| 0 <= k < more.len() && more[k] == x;
                if k < more.len() - 1 {
                    assert(more.drop_last()[k] == x);
                }
            }
            if more.drop_last().contains(x) {
                let k = choose|k: int| 0 <= k < more.len() - 1 && more.drop_last()[k] == x;
                assert(more[k] == x);
            }
            if x == more.last() {
                assert(more[more.len() - 1] == x);
            }
        }
    }
}

pub proof fn fresh_holds(known: Seq<u32>, locs: Seq<u32>, n: int)
    requires
        0 <= n <= locs.len(),
    ensures
        forall|x: u32| #[trigger]
            fresh(known, locs, n).contains(x) <==> !known.contains(x) && locs.take(n).contains(x),
    decreases n,
{
    if n > 0 {
        fresh_holds(known, locs, n - 1);
        let before = fresh(known, locs, n - 1);
        let after = fresh(known, locs, n);
        let last = locs[n - 1];
        assert(locs.take(n) =~= locs.take(n - 1).push(last));
        assert forall|x: u32| #[trigger] after.contains(x) <==> !known.contains(x) && locs.take(
            n,
        ).contains(x) by {
            push_holds(locs.take(n - 1), last, x);
            push_holds(before, last, x);
        }
    } else {
        assert(locs.take(n) =~= Seq::<u32>::empty());
    }
}

pub proof fn push_holds<T>(s: Seq<T>, v: T, x: T)
    ensures
        s.push(v).contains(x) <==> s.contains(x) || x == v,
{
    if s.contains(x) {
        let k = choose|k: int| 0 <= k < s.len() && s[k] == x;
        assert(s.push(v)[k] == x);
    }
    if x == v {
        assert(s.push(v)[s.len() as int] == x);
    }
    if s.push(v).contains(x) {
        let k = choose|k: int| 0 <= k < s.len() + 1 && s.push(v)[k] == x;
        if k < s.len() {
            assert(s[k] == x);
        }
    }
}

/// A list of a map with one more element.
pub proof fn listed_holds<T>(m: Map<u32, Seq<T>>, k: u32, t: T)
    ensures
        forall|j: u32, x: T| #[trigger]
            list_of(with_listed(m, k, t), j).contains(x) <==> list_of(m, j).contains(x) || (j == k
                && x == t),
        forall|j: u32| m.contains_key(j) ==> #[trigger] with_listed(m, k, t).contains_key(j),
{
    assert forall|j: u32, x: T| #[trigger]
        list_of(with_listed(m, k, t), j).contains(x) <==> list_of(m, j).contains(x) || (j == k && x
            == t) by {
        if j == k {
            push_holds(list_of(m, k), t, x);
        }
    }
}

/// A node is put among those to look at.
pub proof fn pushed_grows(a: SolverV, n: u32, loaded: Set<u32>)
    requires
        sound(a),
    ensures
        sound(a.pushed(n)),
        grown(a, a.pushed(n), loaded),
        a.pushed(n).wired_copies == a.wired_copies,
{
    let b = a.pushed(n);
    grown_refl(a, loaded);
    if !a.queued.contains(n) {
        assert forall|x: u32| #[trigger] b.queued.contains(x) implies b.worklist.contains(x) by {
            push_holds(a.worklist, n, x);
            if x != n {
                assert(a.queued.contains(x));
            }
        }
        same_contents(a, b, loaded);
    }
}

/// Two states that differ in what is to look at, and in what has been done,
/// alone.
pub proof fn same_contents(a: SolverV, b: SolverV, loaded: Set<u32>)
    requires
        sound(a),
        b == (SolverV {
            queued: b.queued,
            worklist: b.worklist,
            seen_once: b.seen_once,
            saturated: b.saturated,
            wired_copies: b.wired_copies,
            wired_model_edges: b.wired_model_edges,
            ..a
        }),
        forall|x: u32| a.queued.contains(x) ==> #[trigger] b.queued.contains(x),
        forall|x: u32| #[trigger] b.queued.contains(x) ==> b.worklist.contains(x),
    ensures
        sound(b),
        grown(a, b, loaded),
{
    assert forall|n: u32, l: u32| #[trigger] holds(b, n, l) <==> holds(a, n, l) by {}
    assert forall|n: u32, l: u32| #[trigger] waits(b, n, l) <==> waits(a, n, l) by {}
    assert forall|l: u32| begins_with(#[trigger] b.memory_of(l), a.memory_of(l)) by {
        let m = a.memory_of(l);
        assert(m.take(m.len() as int) =~= m);
    }
    assert forall|n: u32, m: u32| #[trigger] has_seen(b, n, m) by {
        assert(has_seen(a, n, m));
        assert(begins_with(b.memory_of(m), a.memory_of(m)));
        seen_kept(a, b, n, m);
    }
}

/// Locations are recorded as news.
proof fn recorded_facts(a: SolverV, n: u32, locs: Seq<u32>, k: int)
    requires
        0 <= k <= locs.len(),
        forall|x: u32, l: u32| #[trigger] waits(a, x, l) ==> list_of(a.delta, x).contains(l),
    ensures
        ({
            let b = a.recorded(n, locs, k);
            &&& b == (SolverV { delta: b.delta, delta_pending: b.delta_pending, ..a })
            &&& forall|x: u32, l: u32| #[trigger]
                waits(b, x, l) <==> waits(a, x, l) || (x == n && locs.take(k).contains(l))
            &&& forall|x: u32, l: u32| #[trigger] waits(b, x, l) ==> list_of(b.delta, x).contains(l)
            &&& forall|x: u32, l: u32| #[trigger]
                list_of(b.delta, x).contains(l) ==> list_of(a.delta, x).contains(l) || (x == n
                    && locs.take(k).contains(l))
        }),
    decreases k,
{
    if k > 0 {
        recorded_facts(a, n, locs, k - 1);
        let s = a.recorded(n, locs, k - 1);
        let b = a.recorded(n, locs, k);
        let last = locs[k - 1];
        assert(locs.take(k) =~= locs.take(k - 1).push(last));
        listed_holds(s.delta, n, last);
        assert forall|x: u32, l: u32| #[trigger] list_of(b.delta, x).contains(l) implies list_of(
            a.delta,
            x,
        ).contains(l) || (x == n && locs.take(k).contains(l)) by {
            push_holds(locs.take(k - 1), last, l);
            if x == n {
                push_holds(list_of(s.delta, n), last, l);
            }
            if list_of(s.delta, x).contains(l) {
            } else {
                assert(x == n && l == last);
            }
        }
        assert forall|x: u32, l: u32| #[trigger]
            waits(b, x, l) <==> waits(a, x, l) || (x == n && locs.take(k).contains(l)) by {
            push_holds(locs.take(k - 1), last, l);
            assert(waits(s, x, l) <==> waits(a, x, l) || (x == n && locs.take(k - 1).contains(l)));
            assert(waits(s, n, last) <==> s.delta_pending.contains((n, last)));
        }
        assert forall|x: u32, l: u32| #[trigger] waits(b, x, l) implies list_of(
            b.delta,
            x,
        ).contains(l) by {
            if waits(s, x, l) {
                assert(list_of(s.delta, x).contains(l));
            }
        }
    } else {
        assert(locs.take(k) =~= Seq::<u32>::empty());
    }
}

/// A node is listed among those that may hold locations.
proof fn held_facts(a: SolverV, n: u32, locs: Seq<u32>, k: int)
    requires
        0 <= k <= locs.len(),
    ensures
        ({
            let b = a.held(n, locs, k);
            &&& b == (SolverV { loc_nodes: b.loc_nodes, ..a })
            &&& forall|l: u32, x: u32|
                list_of(a.loc_nodes, l).contains(x) ==> #[trigger] list_of(
                    b.loc_nodes,
                    l,
                ).contains(x)
            &&& forall|l: u32| #[trigger]
                locs.take(k).contains(l) ==> list_of(b.loc_nodes, l).contains(n)
            &&& forall|l: u32, x: u32| #[trigger]
                list_of(b.loc_nodes, l).contains(x) ==> list_of(a.loc_nodes, l).contains(x) || (x
                    == n && locs.take(k).contains(l))
        }),
    decreases k,
{
    if k > 0 {
        held_facts(a, n, locs, k - 1);
        let s = a.held(n, locs, k - 1);
        let b = a.held(n, locs, k);
        let last = locs[k - 1];
        with_member_holds(list_of(s.loc_nodes, last), n);
        assert(locs.take(k) =~= locs.take(k - 1).push(last));
        assert forall|l: u32, x: u32| #[trigger] list_of(b.loc_nodes, l).contains(x) implies list_of(
            a.loc_nodes,
            l,
        ).contains(x) || (x == n && locs.take(k).contains(l)) by {
            push_holds(locs.take(k - 1), last, l);
            if list_of(s.loc_nodes, l).contains(x) {
            } else {
                assert(l == last && x == n);
            }
        }
        assert forall|l: u32, x: u32| list_of(s.loc_nodes, l).contains(x) implies #[trigger] list_of(
            b.loc_nodes,
            l,
        ).contains(x) by {}
        assert forall|l: u32| #[trigger] locs.take(k).contains(l) implies list_of(
            b.loc_nodes,
            l,
        ).contains(n) by {
            push_holds(locs.take(k - 1), last, l);
            if locs.take(k - 1).contains(l) {
                assert(list_of(s.loc_nodes, l).contains(n));
            }
        }
    } else {
        assert(locs.take(k) =~= Seq::<u32>::empty());
    }
}

/// Locations reach a node.
pub proof fn spread_grows(a: SolverV, n: u32, locs: Seq<u32>, loaded: Set<u32>)
    requires
        sound(a),
    ensures
        sound(a.spread(n, locs)),
        grown(a, a.spread(n, locs), loaded),
        forall|x: u32, l: u32| #[trigger]
            holds(a.spread(n, locs), x, l) <==> holds(a, x, l) || (x == n && locs.contains(l)),
        a.spread(n, locs).memory == a.memory,
        a.spread(n, locs).merge_sizes == a.merge_sizes,
        a.spread(n, locs).wired_copies == a.wired_copies,
{
    let known = a.pts_of(n);
    let news = fresh(known, locs, locs.len() as int);
    let b = a.spread(n, locs);
    fresh_holds(known, locs, locs.len() as int);
    assert(locs.take(locs.len() as int) =~= locs);
    if news.len() == 0 {
        grown_refl(a, loaded);
        assert forall|x: u32, l: u32| #[trigger]
            holds(b, x, l) <==> holds(a, x, l) || (x == n && locs.contains(l)) by {
            if x == n && locs.contains(l) && !known.contains(l) {
                assert(news.contains(l));
            }
        }
    } else {
        let s1 = SolverV { pts: a.pts.insert(n, with_members(known, news)), ..a };
        let s2 = s1.held(n, news, news.len() as int);
        let s3 = s2.recorded(n, news, news.len() as int);
        with_members_hold(known, news);
        held_facts(s1, n, news, news.len() as int);
        assert forall|x: u32, l: u32| #[trigger] waits(s2, x, l) implies list_of(
            s2.delta,
            x,
        ).contains(l) by {
            assert(waits(a, x, l));
        }
        recorded_facts(s2, n, news, news.len() as int);
        assert(news.take(news.len() as int) =~= news);
        assert forall|x: u32, l: u32| #[trigger]
            holds(b, x, l) <==> holds(a, x, l) || (x == n && locs.contains(l)) by {
            if x == n {
                assert(b.pts_of(n) == with_members(known, news));
                assert(with_members(known, news).contains(l) <==> known.contains(l)
                    || news.contains(l));
                assert(news.contains(l) <==> !known.contains(l) && locs.take(
                    locs.len() as int,
                ).contains(l));
            } else {
                assert(b.pts_of(x) == a.pts_of(x));
            }
        }
        assert forall|x: u32, l: u32| #[trigger]
            waits(b, x, l) <==> waits(a, x, l) || (x == n && news.contains(l)) by {
            assert(waits(b, x, l) <==> waits(s3, x, l));
            assert(waits(s2, x, l) <==> waits(a, x, l));
        }
        assert forall|x: u32, l: u32| #[trigger] waits(b, x, l) implies list_of(
            b.delta,
            x,
        ).contains(l) && b.queued.contains(x) by {
            assert(waits(s3, x, l));
            if waits(a, x, l) {
                assert(a.queued.contains(x));
            }
        }
        assert forall|x: u32| #[trigger] b.queued.contains(x) implies b.worklist.contains(x) by {
            push_holds(a.worklist, n, x);
            if x != n {
                assert(a.queued.contains(x));
            }
        }
        assert forall|x: u32, l: u32| #[trigger] holds(b, x, l) implies list_of(
            b.loc_nodes,
            l,
        ).contains(x) by {
            if holds(a, x, l) {
                assert(list_of(a.loc_nodes, l).contains(x));
                assert(list_of(s1.loc_nodes, l).contains(x));
            } else {
                assert(news.contains(l));
                assert(news.take(news.len() as int).contains(l));
            }
        }
        assert forall|x: u32, l: u32| #[trigger]
            list_of(b.loc_nodes, l).contains(x) implies holds(b, x, l) by {
            if !list_of(s1.loc_nodes, l).contains(x) {
                assert(news.take(news.len() as int).contains(l));
            }
        }
        assert forall|x: u32, l: u32| #[trigger] list_of(b.delta, x).contains(l) implies holds(
            b,
            x,
            l,
        ) by {
            if !list_of(s2.delta, x).contains(l) {
                assert(news.take(news.len() as int).contains(l));
            }
        }
        assert forall|l: u32| begins_with(#[trigger] b.memory_of(l), a.memory_of(l)) by {
            let m = a.memory_of(l);
            assert(m.take(m.len() as int) =~= m);
        }
        assert forall|x: u32, m: u32| #[trigger] has_seen(b, x, m) by {
            assert(has_seen(a, x, m));
            assert(begins_with(b.memory_of(m), a.memory_of(m)));
            seen_kept(a, b, x, m);
        }
        assert forall|x: u32, l: u32| #[trigger] holds(b, x, l) && !holds(a, x, l) implies waits(
            b,
            x,
            l,
        ) by {
            assert(news.contains(l));
        }
    }
}

/// Locations reach a node one after the other.
pub proof fn spread_each_grows(a: SolverV, n: u32, locs: Seq<u32>, k: int, loaded: Set<u32>)
    requires
        sound(a),
    ensures
        sound(a.spread_each(n, locs, k)),
        grown(a, a.spread_each(n, locs, k), loaded),
        a.spread_each(n, locs, k).wired_copies == a.wired_copies,
    decreases k,
{
    if k <= 0 {
        grown_refl(a, loaded);
    } else {
        spread_each_grows(a, n, locs, k - 1, loaded);
        let s = a.spread_each(n, locs, k - 1);
        spread_grows(s, n, seq![locs[k - 1]], loaded);
        grown_trans(a, s, s.spread(n, seq![locs[k - 1]]), loaded);
    }
}

/// What a place lets out.
proof fn let_out_holds(a: SolverV, mem: u32, from: int, to: int)
    requires
        0 <= from,
        to <= a.memory_of(mem).len(),
    ensures
        forall|k: int|
            from <= k < to && a.lets_out(mem, #[trigger] a.memory_of(mem)[k]) ==> a.let_out(
                mem,
                from,
                to,
            ).contains(a.memory_of(mem)[k]),
    decreases to - from,
{
    if to > from {
        let_out_holds(a, mem, from, to - 1);
        let before = a.let_out(mem, from, to - 1);
        let last = a.memory_of(mem)[to - 1];
        assert forall|k: int|
            from <= k < to && a.lets_out(mem, #[trigger] a.memory_of(mem)[k]) implies a.let_out(
            mem,
            from,
            to,
        ).contains(a.memory_of(mem)[k]) by {
            push_holds(before, last, a.memory_of(mem)[k]);
        }
    }
}

/// Whether a node holds all that a place lets out.
pub open spec fn has_loaded(st: SolverV, n: u32, mem: u32) -> bool {
    forall|x: u32| #[trigger] st.memory_of(mem).contains(x) && st.lets_out(mem, x) ==> holds(st, n, x)
}

/// What a place holds reaches a node.
pub proof fn merged_grows(a: SolverV, n: u32, mem: u32, loaded: Set<u32>)
    requires
        sound(a),
    ensures
        sound(a.merged(n, mem)),
        grown(a, a.merged(n, mem), loaded),
        has_loaded(a.merged(n, mem), n, mem),
        a.merged(n, mem).memory == a.memory,
        a.merged(n, mem).wired_copies == a.wired_copies,
{
    let seen = a.seen_of(n, mem) as int;
    let len = a.memory_of(mem).len() as int;
    let b = a.merged(n, mem);
    if len <= seen {
        grown_refl(a, loaded);
        assert forall|x: u32| #[trigger]
            b.memory_of(mem).contains(x) && b.lets_out(mem, x) implies holds(b, n, x) by {
            let k = choose|k: int| 0 <= k < len && a.memory_of(mem)[k] == x;
            assert(has_seen(a, n, mem));
            assert(holds(a, n, a.memory_of(mem)[k]));
        }
    } else {
        let out = a.let_out(mem, seen, len);
        let s = a.spread(n, out);
        spread_grows(a, n, out, loaded);
        let_out_holds(a, mem, seen, len);
        assert forall|x: u32| #[trigger]
            b.memory_of(mem).contains(x) && b.lets_out(mem, x) implies holds(b, n, x) by {
            let k = choose|k: int| 0 <= k < len && a.memory_of(mem)[k] == x;
            if k < seen {
                assert(has_seen(a, n, mem));
                assert(holds(a, n, a.memory_of(mem)[k]));
            } else {
                assert(out.contains(a.memory_of(mem)[k]));
            }
            assert(holds(s, n, x));
        }
        assert forall|x: u32, l: u32| #[trigger] holds(b, x, l) <==> holds(s, x, l) by {}
        assert forall|x: u32, l: u32| #[trigger] waits(b, x, l) <==> waits(s, x, l) by {}
        assert forall|x: u32, m: u32| #[trigger] has_seen(b, x, m) by {
            assert(has_seen(s, x, m));
            if x == n && m == mem {
                assert(b.seen_of(x, m) == len as usize);
                assert forall|k: int|
                    0 <= k < b.seen_of(x, m) && b.lets_out(
                        m,
                        #[trigger] b.memory_of(m)[k],
                    ) implies holds(b, x, b.memory_of(m)[k]) by {
                    assert(b.memory_of(mem).contains(b.memory_of(mem)[k]));
                }
            } else {
                let t = s.memory_of(m);
                assert(t.take(t.len() as int) =~= t);
                seen_kept(s, b, x, m);
            }
        }
        assert forall|l: u32| begins_with(#[trigger] b.memory_of(l), a.memory_of(l)) by {
            let m = a.memory_of(l);
            assert(m.take(m.len() as int) =~= m);
        }
    }
}

/// The nodes that hold a place and load from it look at it again.
proof fn touched_grows(
    a: SolverV,
    loc: u32,
    nodes: Seq<u32>,
    load_src: Map<u32, Seq<usize>>,
    k: int,
    loaded: Set<u32>,
)
    requires
        sound(a),
        0 <= k <= nodes.len(),
        forall|i: int| 0 <= i < nodes.len() ==> holds(a, #[trigger] nodes[i], loc),
    ensures
        ({
            let b = a.touched(loc, nodes, load_src, k);
            &&& sound(b)
            &&& grown(a, b, loaded)
            &&& b.pts == a.pts
            &&& b.memory == a.memory
            &&& b.loc_nodes == a.loc_nodes
            &&& b.wired_copies == a.wired_copies
            &&& forall|i: int|
                0 <= i < k && load_src.contains_key(#[trigger] nodes[i]) ==> waits(b, nodes[i], loc)
        }),
    decreases k,
{
    if k <= 0 {
        grown_refl(a, loaded);
    } else {
        touched_grows(a, loc, nodes, load_src, k - 1, loaded);
        let s = a.touched(loc, nodes, load_src, k - 1);
        let n = nodes[k - 1];
        if load_src.contains_key(n) {
            let t = s.recorded(n, seq![loc], 1);
            let b = t.pushed(n);
            recorded_facts(s, n, seq![loc], 1);
            assert(seq![loc].take(1) =~= seq![loc]);
            assert(seq![loc][0] == loc);
            assert forall|x: u32, l: u32| #[trigger]
                waits(b, x, l) <==> waits(s, x, l) || (x == n && l == loc) by {
                assert(waits(b, x, l) <==> waits(t, x, l));
                assert(seq![loc].contains(l) <==> l == loc);
            }
            assert forall|x: u32, l: u32| #[trigger] waits(b, x, l) implies list_of(
                b.delta,
                x,
            ).contains(l) && b.queued.contains(x) by {
                assert(waits(t, x, l));
                if waits(s, x, l) {
                    assert(s.queued.contains(x));
                }
            }
            assert forall|x: u32| #[trigger] b.queued.contains(x) implies b.worklist.contains(
                x,
            ) by {
                push_holds(s.worklist, n, x);
                if x != n {
                    assert(s.queued.contains(x));
                }
            }
            assert forall|x: u32, l: u32| #[trigger] holds(b, x, l) <==> holds(s, x, l) by {}
            assert forall|x: u32, l: u32| #[trigger] list_of(b.delta, x).contains(l) implies holds(
                b,
                x,
                l,
            ) by {
                if !list_of(s.delta, x).contains(l) {
                    assert(x == n && l == loc);
                    assert(holds(a, nodes[k - 1], loc));
                }
            }
            assert forall|l: u32| begins_with(#[trigger] b.memory_of(l), s.memory_of(l)) by {
                let m = s.memory_of(l);
                assert(m.take(m.len() as int) =~= m);
            }
            assert forall|x: u32, m: u32| #[trigger] has_seen(b, x, m) by {
                assert(has_seen(s, x, m));
                assert(begins_with(b.memory_of(m), s.memory_of(m)));
                seen_kept(s, b, x, m);
            }
            grown_trans(a, s, b, loaded);
            assert forall|i: int| 0 <= i < k && load_src.contains_key(
                #[trigger] nodes[i],
            ) implies waits(b, nodes[i], loc) by {
                if i < k - 1 {
                    assert(waits(s, nodes[i], loc));
                }
            }
        }
    }
}

/// Places have changed.
proof fn touched_all_grows(
    a: SolverV,
    locs: Seq<u32>,
    load_src: Map<u32, Seq<usize>>,
    k: int,
    loaded: Set<u32>,
)
    requires
        sound(a),
        0 <= k <= locs.len(),
    ensures
        ({
            let b = a.touched_all(locs, load_src, k);
            &&& sound(b)
            &&& grown(a, b, loaded)
            &&& b.pts == a.pts
            &&& b.memory == a.memory
            &&& b.loc_nodes == a.loc_nodes
            &&& b.wired_copies == a.wired_copies
            &&& forall|i: int, n: u32|
                0 <= i < k && #[trigger] list_of(a.loc_nodes, locs[i]).contains(n)
                    && load_src.contains_key(n) ==> waits(b, n, locs[i])
        }),
    decreases k,
{
    if k <= 0 {
        grown_refl(a, loaded);
    } else {
        touched_all_grows(a, locs, load_src, k - 1, loaded);
        let s = a.touched_all(locs, load_src, k - 1);
        let nodes = list_of(s.loc_nodes, locs[k - 1]);
        assert forall|i: int| 0 <= i < nodes.len() implies holds(
            s,
            #[trigger] nodes[i],
            locs[k - 1],
        ) by {
            assert(list_of(s.loc_nodes, locs[k - 1]).contains(nodes[i]));
        }
        touched_grows(s, locs[k - 1], nodes, load_src, nodes.len() as int, loaded);
        let b = s.touched(locs[k - 1], nodes, load_src, nodes.len() as int);
        grown_trans(a, s, b, loaded);
        assert forall|i: int, n: u32|
            0 <= i < k && #[trigger] list_of(a.loc_nodes, locs[i]).contains(n)
                && load_src.contains_key(n) implies waits(b, n, locs[i]) by {
            if i < k - 1 {
                assert(waits(s, n, locs[i]));
            } else {
                let j = choose|j: int| 0 <= j < nodes.len() && nodes[j] == n;
                assert(waits(b, nodes[j], locs[k - 1]));
            }
        }
    }
}

/// Whether what a pointer may hold and a value may be written makes a value
/// that a place must hold.
pub open spec fn may_write(pag: PagV, st: SolverV, l: u32, x: u32) -> bool {
    pag.function_at(LocId(x)) is None || st.allows(l, x)
}

proof fn writable_holds(pag: PagV, st: SolverV, l: u32, values: Seq<u32>, n: int)
    requires
        0 <= n <= values.len(),
    ensures
        forall|i: int|
            0 <= i < n && may_write(pag, st, l, #[trigger] values[i]) ==> pag.writable(
                st,
                l,
                values,
                n,
            ).contains(values[i]),
    decreases n,
{
    if n > 0 {
        writable_holds(pag, st, l, values, n - 1);
        let before = pag.writable(st, l, values, n - 1);
        assert forall|i: int|
            0 <= i < n && may_write(pag, st, l, #[trigger] values[i]) implies pag.writable(
            st,
            l,
            values,
            n,
        ).contains(values[i]) by {
            push_holds(before, values[n - 1], values[i]);
        }
    }
}

/// Two states that differ in what places hold alone.
proof fn memory_grows(a: SolverV, b: SolverV)
    requires
        sound(a),
        b == (SolverV { memory: b.memory, saturated: b.saturated, ..a }),
        forall|l: u32| begins_with(#[trigger] b.memory_of(l), a.memory_of(l)),
    ensures
        sound(b),
        kept(a, b),
{
    assert forall|n: u32, l: u32| #[trigger] holds(b, n, l) <==> holds(a, n, l) by {}
    assert forall|n: u32, l: u32| #[trigger] waits(b, n, l) <==> waits(a, n, l) by {}
    assert forall|n: u32, m: u32| #[trigger] has_seen(b, n, m) by {
        assert(has_seen(a, n, m));
        assert(begins_with(b.memory_of(m), a.memory_of(m)));
        seen_kept(a, b, n, m);
    }
}

proof fn written_facts(a: SolverV, l: u32, values: Seq<u32>)
    requires
        sound(a),
    ensures
        ({
            let b = a.written(l, values);
            &&& sound(b)
            &&& kept(a, b)
            &&& b == (SolverV { memory: b.memory, ..a })
            &&& forall|x: u32| x != l ==> #[trigger] b.memory_of(x) == a.memory_of(x)
            &&& forall|v: u32| #[trigger] values.contains(v) ==> b.memory_of(l).contains(v)
            &&& !a.grows(l, values) ==> b.memory_of(l) == a.memory_of(l)
        }),
{
    let b = a.written(l, values);
    with_members_hold(a.memory_of(l), values);
    assert forall|x: u32| begins_with(#[trigger] b.memory_of(x), a.memory_of(x)) by {
        let m = a.memory_of(x);
        assert(m.take(m.len() as int) =~= m);
    }
    memory_grows(a, b);
    if !a.grows(l, values) {
        let m = b.memory_of(l);
        assert(m.take(m.len() as int) =~= m);
    }
}

/// The second list holds what the first does.
pub open spec fn holds_all(a: Seq<u32>, b: Seq<u32>) -> bool {
    forall|x: u32| #[trigger] a.contains(x) ==> b.contains(x)
}

proof fn begins_holds(longer: Seq<u32>, s: Seq<u32>)
    requires
        begins_with(longer, s),
    ensures
        holds_all(s, longer),
{
    assert forall|x: u32| #[trigger] s.contains(x) implies longer.contains(x) by {
        let k = choose|k: int| 0 <= k < s.len() && s[k] == x;
        assert(longer.take(s.len() as int)[k] == x);
        assert(longer[k] == x);
    }
}

/// Values go to a place, and to the summary of the field that it is.
proof fn stored_at_facts(a: SolverV, pag: PagV, l: u32, values: Seq<u32>, own: Option<LocId>)
    requires
        sound(a),
    ensures
        ({
            let (b, changed) = a.stored_at(pag, l, values, own);
            &&& sound(b)
            &&& kept(a, b)
            &&& b == (SolverV { memory: b.memory, saturated: b.saturated, ..a })
            &&& forall|x: u32| #[trigger]
                b.memory_of(x) != a.memory_of(x) ==> changed && (x == l || pag.summary_of(LocId(l))
                    == Some(LocId(x)))
            &&& forall|v: u32| #[trigger]
                values.contains(v) && may_write(pag, a, l, v) ==> b.memory_of(l).contains(v)
        }),
{
    let written = pag.writable(a, l, values, values.len() as int);
    let vs = with_value(written, own);
    let s = a.written(l, vs);
    written_facts(a, l, vs);
    writable_holds(pag, a, l, values, values.len() as int);
    assert forall|v: u32| #[trigger] values.contains(v) && may_write(pag, a, l, v) implies s.memory_of(
        l,
    ).contains(v) by {
        let i = choose|i: int| 0 <= i < values.len() && values[i] == v;
        assert(written.contains(values[i]));
        match own {
            Some(o) => {
                push_holds(written, o.0, v);
            },
            None => {},
        }
        assert(vs.contains(v));
    }
    match pag.summary_of(LocId(l)) {
        Some(sum) => {
            if s.memory_of(sum.0).len() < SUMMARY_MEM_CAP {
                let ws = with_value(
                    if s.lets_functions_in(sum.0) {
                        values
                    } else {
                        pag.non_functions(values, values.len() as int)
                    },
                    own,
                );
                let b = s.written(sum.0, ws);
                written_facts(s, sum.0, ws);
                kept_trans(a, s, b);
                assert(begins_with(b.memory_of(l), s.memory_of(l)));
                begins_holds(b.memory_of(l), s.memory_of(l));
                assert forall|x: u32| #[trigger] b.memory_of(x) != a.memory_of(x) implies (a.grows(
                    l,
                    vs,
                ) || s.grows(sum.0, ws)) && (x == l || x == sum.0) by {
                    assert(x != sum.0 ==> b.memory_of(x) == s.memory_of(x));
                    assert(x != l ==> s.memory_of(x) == a.memory_of(x));
                }
            } else {
                let b = SolverV { saturated: s.saturated.insert(sum.0), ..s };
                assert forall|x: u32| begins_with(#[trigger] b.memory_of(x), s.memory_of(x)) by {
                    let m = s.memory_of(x);
                    assert(m.take(m.len() as int) =~= m);
                }
                memory_grows(s, b);
                kept_trans(a, s, b);
                assert forall|x: u32| #[trigger] b.memory_of(x) != a.memory_of(x) implies a.grows(
                    l,
                    vs,
                ) && x == l by {
                    assert(x != l ==> s.memory_of(x) == a.memory_of(x));
                }
            }
        },
        None => {
            assert forall|x: u32| #[trigger] s.memory_of(x) != a.memory_of(x) implies a.grows(
                l,
                vs,
            ) && x == l by {
                assert(x != l ==> s.memory_of(x) == a.memory_of(x));
            }
        },
    }
}

/// Values go to places.
proof fn stored_facts(
    a: SolverV,
    pag: PagV,
    targets: Seq<u32>,
    values: Seq<u32>,
    own: Option<LocId>,
    n: int,
)
    requires
        sound(a),
        0 <= n <= targets.len(),
    ensures
        ({
            let (b, again) = a.stored(pag, targets, values, own, n);
            &&& sound(b)
            &&& kept(a, b)
            &&& b == (SolverV { memory: b.memory, saturated: b.saturated, ..a })
            &&& forall|x: u32| #[trigger] b.memory_of(x) != a.memory_of(x) ==> again.contains(x)
            &&& forall|i: int, v: u32|
                0 <= i < n && pag.function_at(LocId(#[trigger] targets[i])) is None
                    && #[trigger] values.contains(v) && may_write(pag, a, targets[i], v)
                    ==> b.memory_of(targets[i]).contains(v)
        }),
    decreases n,
{
    if n <= 0 {
        let none: Set<u32> = Set::empty();
        grown_refl(a, none);
    } else {
        stored_facts(a, pag, targets, values, own, n - 1);
        let (s, again) = a.stored(pag, targets, values, own, n - 1);
        let (b, after) = a.stored(pag, targets, values, own, n);
        let l = targets[n - 1];
        if pag.function_at(LocId(l)) is None {
            stored_at_facts(s, pag, l, values, own);
            kept_trans(a, s, b);
            let (t, changed) = s.stored_at(pag, l, values, own);
            assert(t == b);
            assert forall|x: u32| #[trigger] again.contains(x) implies after.contains(x) by {
                push_holds(again, l, x);
                match pag.summary_of(LocId(l)) {
                    Some(m) => {
                        push_holds(again.push(l), m.0, x);
                    },
                    None => {},
                }
            }
            assert forall|x: u32| #[trigger] b.memory_of(x) != a.memory_of(x) implies after.contains(
                x,
            ) by {
                if b.memory_of(x) != s.memory_of(x) {
                    push_holds(again, l, x);
                    match pag.summary_of(LocId(l)) {
                        Some(m) => {
                            push_holds(again.push(l), m.0, x);
                        },
                        None => {},
                    }
                } else {
                    assert(again.contains(x));
                }
            }
            assert forall|i: int, v: u32|
                0 <= i < n && pag.function_at(LocId(#[trigger] targets[i])) is None
                    && #[trigger] values.contains(v) && may_write(
                    pag,
                    a,
                    targets[i],
                    v,
                ) implies b.memory_of(targets[i]).contains(v) by {
                if i < n - 1 {
                    assert(s.memory_of(targets[i]).contains(v));
                    assert(begins_with(b.memory_of(targets[i]), s.memory_of(targets[i])));
                    begins_holds(b.memory_of(targets[i]), s.memory_of(targets[i]));
                } else {
                    assert(may_write(pag, s, l, v));
                }
            }
        } else {
            assert forall|i: int, v: u32|
                0 <= i < n && pag.function_at(LocId(#[trigger] targets[i])) is None
                    && #[trigger] values.contains(v) && may_write(
                    pag,
                    a,
                    targets[i],
                    v,
                ) implies b.memory_of(targets[i]).contains(v) by {
                assert(i < n - 1);
            }
        }
    }
}

/// The places that a store through a pointer concerns: those given, or all
/// that the pointer may hold.
pub open spec fn store_targets(st: SolverV, ptr: u32, given: Option<Seq<u32>>) -> Seq<u32> {
    match given {
        Some(ts) => ts,
        None => st.pts_of(ptr),
    }
}

/// A store takes effect.
pub proof fn store_grows(
    a: SolverV,
    pag: PagV,
    i: usize,
    given: Option<Seq<u32>>,
    loaded: Set<u32>,
)
    requires
        sound(a),
        forall|n: u32| #[trigger] loaded.contains(n) ==> pag.indices.load_src.contains_key(n),
    ensures
        sound(a.store(pag, i, given)),
        grown(a, a.store(pag, i, given), loaded),
        a.store(pag, i, given).wired_copies == a.wired_copies,
        ({
            let b = a.store(pag, i, given);
            match pag.constraint(i) {
                Some(c) => forall|l: u32, v: u32| #[trigger]
                    store_targets(a, c.dst.0, given).contains(l) && pag.function_at(
                        LocId(l),
                    ) is None && #[trigger] holds(a, c.src.0, v) && may_write(pag, a, l, v)
                        ==> b.memory_of(l).contains(v),
                None => true,
            }
        }),
{
    let b = a.store(pag, i, given);
    match pag.constraint(i) {
        Some(c) => {
            let values = a.pts_of(c.src.0);
            let own = pag.own_place(c.src);
            if values.len() == 0 && own is None {
                grown_refl(a, loaded);
            } else {
                let targets = store_targets(a, c.dst.0, given);
                let (s, again) = a.stored(pag, targets, values, own, targets.len() as int);
                stored_facts(a, pag, targets, values, own, targets.len() as int);
                touched_all_grows(s, again, pag.indices.load_src, again.len() as int, loaded);
                kept_trans(a, s, b);
                assert forall|n: u32, l: u32| #[trigger]
                    holds(b, n, l) && loaded.contains(n) && b.memory_of(l)
                        != a.memory_of(l) implies waits(b, n, l) by {
                    assert(s.memory_of(l) == b.memory_of(l));
                    assert(again.contains(l));
                    let k = choose|k: int| 0 <= k < again.len() && again[k] == l;
                    assert(holds(s, n, l));
                    assert(list_of(s.loc_nodes, again[k]).contains(n));
                }
                assert forall|l: u32, v: u32| #[trigger]
                    targets.contains(l) && pag.function_at(LocId(l)) is None && #[trigger] holds(
                        a,
                        c.src.0,
                        v,
                    ) && may_write(pag, a, l, v) implies b.memory_of(l).contains(v) by {
                    let k = choose|k: int| 0 <= k < targets.len() && targets[k] == l;
                    assert(values.contains(v));
                    assert(s.memory_of(targets[k]).contains(v));
                    assert(s.memory_of(l) == b.memory_of(l));
                }
            }
        },
        None => {
            grown_refl(a, loaded);
        },
    }
}

} // verus!
