//! What holds once a graph is solved.

use crate::analysis::constraints::{
    ArgFlowEdge, CallGraphEdge, ConstraintKind, ConstraintV, ResolutionKind,
};
use crate::analysis::ending::solving_ends;
use crate::analysis::growth::{
    begins_with, grown, grown_refl, grown_trans, has_loaded, has_seen, holds, kept, listed_holds,
    may_write, push_holds, pushed_grows, same_contents, sound, spread_grows, waits,
};
use crate::analysis::models::ModelV;
use crate::analysis::pag::{lasting, list_of, PagNodeKind, PagV};
use crate::analysis::progress::{
    direct_edge, extended, extended_refl, extended_trans, first_look_grows, indirect_edge,
    run_grown, run_sound, run_trans, shown, took, with_addresses_grows, with_copies_grows,
    with_direct_calls_grows, with_geps_grows, with_indirect_grows, with_loads_grows,
    with_lookups_grows, with_stores_grows,
};
use crate::analysis::solver::{
    arg_flow_of, arg_flows_of, with_bridges, LookV, RunV, SYNTHETIC_CALL_SITE,
};
use crate::analysis::state::SolverV;
use crate::collections::{has_key, value_of};
use crate::ir::ids::{CallSiteId, FnId, LocId, VarId};
use crate::ir::program::ProgramV;
use crate::ir::symbol::{SiteV, VarV};
use vstd::prelude::*;

verus! {

/// The nodes that are loaded from.
pub open spec fn loaded_in(g: PagV) -> Set<u32> {
    Set::new(|n: u32| g.indices.load_src.contains_key(n))
}

/// Whether the constraint at a position is listed under its nodes.
pub open spec fn indexed(g: PagV, i: int) -> bool {
    let c = g.constraints[i];
    match c.kind {
        ConstraintKind::Copy => list_of(g.indices.copy_src, c.src.0).contains(i as usize),
        ConstraintKind::Load => list_of(g.indices.load_src, c.src.0).contains(i as usize),
        ConstraintKind::Store => list_of(g.indices.store_dst, c.dst.0).contains(i as usize)
            && list_of(g.indices.store_src, c.src.0).contains(i as usize),
        _ => true,
    }
}

/// What the source of a copy holds has reached its destination, or is news.
pub open spec fn copied(r: RunV, c: ConstraintV) -> bool {
    forall|l: u32| #[trigger]
        holds(r.st, c.src.0, l) ==> holds(r.st, c.dst.0, l) || waits(r.st, c.src.0, l)
}

/// What the places that the source of a load holds hand out has reached its
/// destination, or the place is news.
pub open spec fn loaded(r: RunV, c: ConstraintV) -> bool {
    forall|l: u32| #[trigger]
        holds(r.st, c.src.0, l) ==> took(r.pag, r.st, c.dst.0, l) || waits(r.st, c.src.0, l)
}

/// What the source of a store holds is in the places that its destination
/// holds, as far as they let it in, or one of the two is news.
pub open spec fn stored(r: RunV, c: ConstraintV) -> bool {
    forall|l: u32, v: u32| #[trigger]
        holds(r.st, c.dst.0, l) && r.pag.function_at(LocId(l)) is None && #[trigger] holds(
            r.st,
            c.src.0,
            v,
        ) && may_write(r.pag, r.st, l, v) ==> r.st.memory_of(l).contains(v) || waits(
            r.st,
            c.dst.0,
            l,
        ) || waits(r.st, c.src.0, v)
}

/// What a constraint asks for has been done, or is still to be done.
pub open spec fn met(r: RunV, c: ConstraintV) -> bool {
    match c.kind {
        ConstraintKind::Copy => copied(r, c),
        ConstraintKind::Load => loaded(r, c),
        ConstraintKind::Store => stored(r, c),
        _ => true,
    }
}

/// A call through a node reaches the functions that the node holds, or they
/// are news.
pub open spec fn resolved(r: RunV, p: ProgramV, n: u32, site: CallSiteId) -> bool {
    p.site(site) is Some ==> forall|l: u32, f: FnId|
        holds(r.st, n, l) && r.pag.function_at(LocId(l)) is Some && #[trigger] p.reached(
            r.pag.function_at(LocId(l))->0,
        ).contains(f) ==> list_of(r.resolved, p.site(site)->0.id.0).contains(f) || #[trigger] waits(
            r.st,
            n,
            l,
        )
}

/// What the constraints and the calls of a graph ask for has been done, or is
/// still to be done.
pub open spec fn on_track(r: RunV, g: PagV, p: ProgramV) -> bool {
    &&& forall|i: int|
        0 <= i < g.constraints.len() && indexed(g, i) ==> met(r, #[trigger] g.constraints[i])
    &&& forall|n: u32, s: CallSiteId| #[trigger]
        list_of(g.indices.indirect_by_target, n).contains(s) ==> resolved(r, p, n, s)
    &&& forall|l: u32| #[trigger] r.st.fn_locs.contains(l) <==> g.function_at(LocId(l)) is Some
}

proof fn constraint_stays(a: PagV, b: PagV, i: int)
    requires
        extended(a, b),
        0 <= i < a.constraints.len(),
    ensures
        i < b.constraints.len(),
        b.constraints[i] == a.constraints[i],
{
    assert(b.constraints.take(a.constraints.len() as int)[i] == a.constraints[i]);
}

proof fn took_stays(a: RunV, b: RunV, src: u32, dst: u32, l: u32, from: Set<u32>)
    requires
        run_grown(a, b, from),
        from.contains(src),
        took(a.pag, a.st, dst, l),
        holds(b.st, src, l),
    ensures
        took(b.pag, b.st, dst, l) || waits(b.st, src, l),
{
    assert(b.pag.function_at(LocId(l)) == a.pag.function_at(LocId(l)));
    if a.pag.function_at(LocId(l)) is None {
        if b.st.memory_of(l) == a.st.memory_of(l) {
            assert forall|x: u32| #[trigger]
                b.st.memory_of(l).contains(x) && b.st.lets_out(l, x) implies holds(b.st, dst, x) by {
                assert(a.st.memory_of(l).contains(x) && a.st.lets_out(l, x));
                assert(holds(a.st, dst, x));
            }
        }
    } else {
        assert(holds(a.st, dst, l));
    }
}

proof fn memory_stays(a: SolverV, b: SolverV, l: u32, v: u32)
    requires
        kept(a, b),
        a.memory_of(l).contains(v),
    ensures
        b.memory_of(l).contains(v),
{
    assert(begins_with(b.memory_of(l), a.memory_of(l)));
    let k = choose|k: int| 0 <= k < a.memory_of(l).len() && a.memory_of(l)[k] == v;
    assert(b.memory_of(l).take(a.memory_of(l).len() as int)[k] == v);
    assert(b.memory_of(l)[k] == v);
}

/// Nothing that has been done is undone where a run goes on.
proof fn track_kept(a: RunV, b: RunV, g: PagV, p: ProgramV)
    requires
        run_grown(a, b, loaded_in(g)),
        on_track(a, g, p),
    ensures
        on_track(b, g, p),
{
    let from = loaded_in(g);
    assert forall|i: int| 0 <= i < g.constraints.len() && indexed(g, i) implies met(
        b,
        #[trigger] g.constraints[i],
    ) by {
        let c = g.constraints[i];
        assert(met(a, c));
        match c.kind {
            ConstraintKind::Copy => {
                assert forall|l: u32| #[trigger] holds(b.st, c.src.0, l) implies holds(
                    b.st,
                    c.dst.0,
                    l,
                ) || waits(b.st, c.src.0, l) by {
                    if holds(a.st, c.src.0, l) {
                        if holds(a.st, c.dst.0, l) {
                        } else {
                            assert(waits(a.st, c.src.0, l));
                        }
                    }
                }
            },
            ConstraintKind::Load => {
                assert(from.contains(c.src.0));
                assert forall|l: u32| #[trigger] holds(b.st, c.src.0, l) implies took(
                    b.pag,
                    b.st,
                    c.dst.0,
                    l,
                ) || waits(b.st, c.src.0, l) by {
                    if holds(a.st, c.src.0, l) {
                        if waits(a.st, c.src.0, l) {
                        } else {
                            took_stays(a, b, c.src.0, c.dst.0, l, from);
                        }
                    }
                }
            },
            ConstraintKind::Store => {
                assert forall|l: u32, v: u32| #[trigger]
                    holds(b.st, c.dst.0, l) && b.pag.function_at(LocId(l)) is None
                        && #[trigger] holds(b.st, c.src.0, v) && may_write(
                        b.pag,
                        b.st,
                        l,
                        v,
                    ) implies b.st.memory_of(l).contains(v) || waits(b.st, c.dst.0, l) || waits(
                    b.st,
                    c.src.0,
                    v,
                ) by {
                    if holds(a.st, c.dst.0, l) && holds(a.st, c.src.0, v) {
                        assert(a.pag.function_at(LocId(l)) == b.pag.function_at(LocId(l)));
                        assert(a.pag.function_at(LocId(v)) == b.pag.function_at(LocId(v)));
                        assert(may_write(a.pag, a.st, l, v));
                        if waits(a.st, c.dst.0, l) || waits(a.st, c.src.0, v) {
                        } else {
                            memory_stays(a.st, b.st, l, v);
                        }
                    }
                }
            },
            _ => {},
        }
    }
    assert forall|n: u32, s: CallSiteId| #[trigger]
        list_of(g.indices.indirect_by_target, n).contains(s) implies resolved(b, p, n, s) by {
        assert(resolved(a, p, n, s));
        if p.site(s) is Some {
            assert forall|l: u32, f: FnId|
                holds(b.st, n, l) && b.pag.function_at(LocId(l)) is Some && #[trigger] p.reached(
                    b.pag.function_at(LocId(l))->0,
                ).contains(f) implies list_of(b.resolved, p.site(s)->0.id.0).contains(f)
                || #[trigger] waits(b.st, n, l) by {
                assert(a.pag.function_at(LocId(l)) == b.pag.function_at(LocId(l)));
                if holds(a.st, n, l) {
                    assert(p.reached(a.pag.function_at(LocId(l))->0).contains(f));
                    if waits(a.st, n, l) {
                    } else {
                        assert(list_of(a.resolved, p.site(s)->0.id.0).contains(f));
                    }
                }
            }
        }
    }
}

/// What a node has gained travels on: every constraint and every call of a
/// graph that concerns the node has seen it.
proof fn travelled_does(a: RunV, look: LookV, g: PagV)
    requires
        run_sound(a, loaded_in(g)),
        extended(g, a.pag),
        g.constraints.len() <= usize::MAX,
    ensures
        ({
            let b = a.travelled(look);
            &&& run_sound(b, loaded_in(g))
            &&& run_grown(a, b, loaded_in(g))
            &&& forall|i: int, l: u32|
                0 <= i < g.constraints.len() && indexed(g, i) && (
                #[trigger] g.constraints[i]).kind == ConstraintKind::Copy && g.constraints[i].src.0
                    == look.node && #[trigger] look.delta.contains(l) ==> holds(
                    b.st,
                    g.constraints[i].dst.0,
                    l,
                )
            &&& forall|i: int, l: u32|
                0 <= i < g.constraints.len() && indexed(g, i) && (
                #[trigger] g.constraints[i]).kind == ConstraintKind::Load && g.constraints[i].src.0
                    == look.node && #[trigger] look.delta.contains(l) && holds(
                    b.st,
                    look.node,
                    l,
                ) ==> took(b.pag, b.st, g.constraints[i].dst.0, l) || waits(b.st, look.node, l)
            &&& forall|i: int, l: u32, v: u32|
                0 <= i < g.constraints.len() && indexed(g, i) && (
                #[trigger] g.constraints[i]).kind == ConstraintKind::Store && (
                (g.constraints[i].dst.0 == look.node && look.delta.contains(l))
                    || g.constraints[i].src.0 == look.node) && holds(
                    a.st,
                    g.constraints[i].dst.0,
                    l,
                ) && a.pag.function_at(LocId(l)) is None && holds(
                    a.st,
                    g.constraints[i].src.0,
                    v,
                ) && #[trigger] may_write(a.pag, a.st, l, v) ==> b.st.memory_of(l).contains(v)
            &&& forall|s: CallSiteId, l: u32, f: FnId|
                list_of(g.indices.indirect_by_target, look.node).contains(s) && look.p.site(
                    s,
                ) is Some && look.delta.contains(l) && a.pag.function_at(LocId(l)) is Some
                    && #[trigger] look.p.reached(a.pag.function_at(LocId(l))->0).contains(f)
                    ==> #[trigger] list_of(b.resolved, look.p.site(s)->0.id.0).contains(f)
        }),
{
    let from = loaded_in(g);
    let node = look.node;
    let delta = look.delta;
    let b = a.travelled(look);
    let copies = list_of(a.pag.indices.copy_src, node);
    let r1 = a.with_copies(delta, copies, copies.len() as int);
    with_copies_grows(a, delta, copies, copies.len() as int, from);
    let addrs = list_of(r1.pag.indices.addr_of_dst, node);
    let r2 = r1.with_addresses(node, addrs, addrs.len() as int);
    with_addresses_grows(r1, node, addrs, addrs.len() as int, from);
    run_trans(a, r1, r2, from);
    let loads = list_of(r2.pag.indices.load_src, node);
    let r3 = r2.with_loads(delta, loads, loads.len() as int);
    with_loads_grows(r2, delta, loads, loads.len() as int, from);
    run_trans(a, r2, r3, from);
    let into = list_of(r3.pag.indices.store_dst, node);
    let r4 = r3.with_stores(Some(delta), into, into.len() as int);
    with_stores_grows(r3, Some(delta), into, into.len() as int, from);
    run_trans(a, r3, r4, from);
    let out = list_of(r4.pag.indices.store_src, node);
    let r5 = r4.with_stores(None, out, out.len() as int);
    with_stores_grows(r4, None, out, out.len() as int, from);
    run_trans(a, r4, r5, from);
    let geps = list_of(r5.pag.indices.gep_src, node);
    let r6 = r5.with_geps(look, geps, geps.len() as int);
    with_geps_grows(r5, look, geps, geps.len() as int, from);
    run_trans(a, r5, r6, from);
    let lookups = list_of(r6.pag.indices.dlsym_src, node);
    let r7 = r6.with_lookups(look, lookups, lookups.len() as int);
    with_lookups_grows(r6, look, lookups, lookups.len() as int, from);
    run_trans(a, r6, r7, from);
    let calls = list_of(r7.pag.indices.indirect_by_target, node);
    with_indirect_grows(r7, look, calls, calls.len() as int, from);
    run_trans(a, r7, b, from);
    run_trans(r6, r7, b, from);
    run_trans(r5, r6, b, from);
    run_trans(r4, r5, b, from);
    run_trans(r3, r4, b, from);
    run_trans(r2, r3, b, from);
    run_trans(r1, r2, b, from);
    assert forall|i: int, l: u32|
        0 <= i < g.constraints.len() && indexed(g, i) && (#[trigger] g.constraints[i]).kind
            == ConstraintKind::Copy && g.constraints[i].src.0 == look.node
            && #[trigger] look.delta.contains(l) implies holds(
        b.st,
        g.constraints[i].dst.0,
        l,
    ) by {
        constraint_stays(g, a.pag, i);
        assert(copies.contains(i as usize));
        let k = choose|k: int| 0 <= k < copies.len() && copies[k] == i as usize;
        assert(a.pag.constraint(copies[k]) == Some(g.constraints[i]));
        assert(holds(r1.st, g.constraints[i].dst.0, l));
    }
    assert forall|i: int, l: u32|
        0 <= i < g.constraints.len() && indexed(g, i) && (#[trigger] g.constraints[i]).kind
            == ConstraintKind::Load && g.constraints[i].src.0 == look.node
            && #[trigger] look.delta.contains(l) && holds(b.st, look.node, l) implies took(
        b.pag,
        b.st,
        g.constraints[i].dst.0,
        l,
    ) || waits(b.st, look.node, l) by {
        extended_trans(g, a.pag, r2.pag);
        constraint_stays(g, r2.pag, i);
        assert(loads.contains(i as usize));
        let k = choose|k: int| 0 <= k < loads.len() && loads[k] == i as usize;
        assert(r2.pag.constraint(loads[k]) == Some(g.constraints[i]));
        assert(took(r2.pag, r3.st, g.constraints[i].dst.0, l));
        assert(from.contains(look.node));
        took_stays(r3, b, look.node, g.constraints[i].dst.0, l, from);
    }
    assert forall|i: int, l: u32, v: u32|
        0 <= i < g.constraints.len() && indexed(g, i) && (#[trigger] g.constraints[i]).kind
            == ConstraintKind::Store && ((g.constraints[i].dst.0 == look.node
            && look.delta.contains(l)) || g.constraints[i].src.0 == look.node) && holds(
            a.st,
            g.constraints[i].dst.0,
            l,
        ) && a.pag.function_at(LocId(l)) is None && holds(a.st, g.constraints[i].src.0, v)
            && #[trigger] may_write(a.pag, a.st, l, v) implies b.st.memory_of(l).contains(v) by {
        let c = g.constraints[i];
        if c.dst.0 == look.node && look.delta.contains(l) {
            extended_trans(g, a.pag, r3.pag);
            constraint_stays(g, r3.pag, i);
            assert(into.contains(i as usize));
            let k = choose|k: int| 0 <= k < into.len() && into[k] == i as usize;
            assert(r3.pag.constraint(into[k]) == Some(c));
            assert(r3.pag.function_at(LocId(l)) == a.pag.function_at(LocId(l)));
            assert(r3.pag.function_at(LocId(v)) == a.pag.function_at(LocId(v)));
            assert(may_write(r3.pag, r3.st, l, v));
            assert(holds(r3.st, c.src.0, v));
            assert(r4.st.memory_of(l).contains(v));
            memory_stays(r4.st, b.st, l, v);
        } else {
            extended_trans(g, a.pag, r4.pag);
            constraint_stays(g, r4.pag, i);
            assert(out.contains(i as usize));
            let k = choose|k: int| 0 <= k < out.len() && out[k] == i as usize;
            assert(r4.pag.constraint(out[k]) == Some(c));
            assert(r4.pag.function_at(LocId(l)) == a.pag.function_at(LocId(l)));
            assert(r4.pag.function_at(LocId(v)) == a.pag.function_at(LocId(v)));
            assert(may_write(r4.pag, r4.st, l, v));
            assert(holds(r4.st, c.src.0, v));
            assert(holds(r4.st, c.dst.0, l));
            assert(r5.st.memory_of(l).contains(v));
            memory_stays(r5.st, b.st, l, v);
        }
    }
    assert forall|s: CallSiteId, l: u32, f: FnId|
        list_of(g.indices.indirect_by_target, look.node).contains(s) && look.p.site(s) is Some
            && look.delta.contains(l) && a.pag.function_at(LocId(l)) is Some
            && #[trigger] look.p.reached(a.pag.function_at(LocId(l))->0).contains(
            f,
        ) implies #[trigger] list_of(b.resolved, look.p.site(s)->0.id.0).contains(f) by {
        extended_trans(g, a.pag, r7.pag);
        assert(calls.contains(s));
        let k = choose|k: int| 0 <= k < calls.len() && calls[k] == s;
        assert(r7.pag.function_at(LocId(l)) == a.pag.function_at(LocId(l)));
        assert(look.p.reached(r7.pag.function_at(LocId(l))->0).contains(f));
        assert(look.p.site(calls[k]) is Some);
        assert(look.delta.contains(l));
    }
}

proof fn forgotten_facts(a: SolverV, n: u32, locs: Seq<u32>, k: int)
    requires
        0 <= k <= locs.len(),
    ensures
        ({
            let b = a.forgotten(n, locs, k);
            &&& b == (SolverV { delta_pending: b.delta_pending, ..a })
            &&& forall|x: u32, l: u32| #[trigger]
                waits(b, x, l) <==> waits(a, x, l) && !(x == n && locs.take(k).contains(l))
        }),
    decreases k,
{
    if k > 0 {
        forgotten_facts(a, n, locs, k - 1);
        let s = a.forgotten(n, locs, k - 1);
        let b = a.forgotten(n, locs, k);
        assert(locs.take(k) =~= locs.take(k - 1).push(locs[k - 1]));
        assert forall|x: u32, l: u32| #[trigger]
            waits(b, x, l) <==> waits(a, x, l) && !(x == n && locs.take(k).contains(l)) by {
            push_holds(locs.take(k - 1), locs[k - 1], l);
            assert(waits(s, x, l) <==> waits(a, x, l) && !(x == n && locs.take(k - 1).contains(l)));
        }
    } else {
        assert(locs.take(k) =~= Seq::<u32>::empty());
    }
}

/// The state in which the last node is taken from those to look at.
pub open spec fn popped(st: SolverV) -> SolverV {
    SolverV {
        worklist: st.worklist.drop_last(),
        queued: st.queued.remove(st.worklist.last()),
        ..st
    }
}

/// Taking the last node from those to look at, and its news, loses nothing
/// else.
pub proof fn taken_facts(a: SolverV)
    requires
        sound(a),
        a.worklist.len() > 0,
    ensures
        ({
            let node = a.worklist.last();
            let b = popped(a).taken(node);
            &&& sound(b)
            &&& b.memory == a.memory
            &&& b.slot_guard == a.slot_guard
            &&& b.fn_arity == a.fn_arity
            &&& b.fn_locs == a.fn_locs
            &&& forall|x: u32, l: u32| #[trigger] holds(b, x, l) <==> holds(a, x, l)
            &&& forall|x: u32, l: u32| #[trigger] waits(b, x, l) <==> waits(a, x, l) && x != node
        }),
{
    let node = a.worklist.last();
    let s = popped(a);
    let news = list_of(s.delta, node);
    let t = SolverV { delta: s.delta.remove(node), ..s };
    let b = s.taken(node);
    forgotten_facts(t, node, news, news.len() as int);
    assert(news.take(news.len() as int) =~= news);
    assert forall|x: u32, l: u32| #[trigger] holds(b, x, l) <==> holds(a, x, l) by {}
    assert forall|x: u32, l: u32| #[trigger] waits(b, x, l) <==> waits(a, x, l) && x != node by {
        assert(waits(t, x, l) <==> waits(a, x, l));
        if waits(a, node, l) {
            assert(news.contains(l));
        }
    }
    assert forall|x: u32, l: u32| #[trigger] waits(b, x, l) implies list_of(b.delta, x).contains(l)
        && b.queued.contains(x) by {
        assert(waits(a, x, l));
        assert(list_of(b.delta, x) == list_of(a.delta, x));
    }
    assert forall|x: u32| #[trigger] b.queued.contains(x) implies b.worklist.contains(x) by {
        assert(a.queued.contains(x));
        let k = choose|k: int| 0 <= k < a.worklist.len() && a.worklist[k] == x;
        assert(k < a.worklist.len() - 1);
        assert(a.worklist.drop_last()[k] == x);
    }
    assert forall|x: u32, l: u32| #[trigger] holds(b, x, l) implies list_of(
        b.loc_nodes,
        l,
    ).contains(x) by {
        assert(holds(a, x, l));
    }
    assert forall|x: u32, l: u32| #[trigger] list_of(b.loc_nodes, l).contains(x) implies holds(
        b,
        x,
        l,
    ) by {
        assert(list_of(a.loc_nodes, l).contains(x));
    }
    assert forall|x: u32, l: u32| #[trigger] list_of(b.delta, x).contains(l) implies holds(
        b,
        x,
        l,
    ) by {
        if x == node {
            assert(list_of(b.delta, x) =~= Seq::<u32>::empty());
        } else {
            assert(list_of(a.delta, x).contains(l));
        }
    }
    assert forall|x: u32, m: u32| #[trigger] has_seen(b, x, m) by {
        assert(has_seen(a, x, m));
        assert forall|k: int|
            0 <= k < b.seen_of(x, m) && b.lets_out(m, #[trigger] b.memory_of(m)[k]) implies holds(
            b,
            x,
            b.memory_of(m)[k],
        ) by {
            assert(a.lets_out(m, a.memory_of(m)[k]));
            assert(holds(a, x, a.memory_of(m)[k]));
        }
    }
}

/// Whether what one state of a run knows, another knows too: what nodes may
/// hold, the calls, and what becomes of arguments.
pub open spec fn knows_more(a: RunV, b: RunV) -> bool {
    &&& extended(a.pag, b.pag)
    &&& forall|n: u32, l: u32| #[trigger] holds(a.st, n, l) ==> holds(b.st, n, l)
    &&& forall|e: CallGraphEdge| #[trigger] a.edges.contains(e) ==> b.edges.contains(e)
    &&& forall|e: CallGraphEdge| #[trigger]
        b.edges.contains(e) ==> a.edges.contains(e) || e.resolution != ResolutionKind::IpcBridge
    &&& a.wired.subset_of(b.wired)
    &&& forall|e: (CallSiteId, u32)| #[trigger] a.ends.contains(e) ==> b.ends.contains(e)
    &&& b.st.slot_guard == a.st.slot_guard
    &&& b.st.fn_arity == a.st.fn_arity
}

proof fn knows_trans(a: RunV, b: RunV, c: RunV)
    requires
        knows_more(a, b),
        knows_more(b, c),
    ensures
        knows_more(a, c),
{
    extended_trans(a.pag, b.pag, c.pag);
    assert forall|n: u32, l: u32| #[trigger] holds(a.st, n, l) implies holds(c.st, n, l) by {
        assert(holds(b.st, n, l));
    }
    assert forall|e: CallGraphEdge| #[trigger] a.edges.contains(e) implies c.edges.contains(e) by {
        assert(b.edges.contains(e));
    }
    assert forall|e: CallGraphEdge| #[trigger] c.edges.contains(e) implies a.edges.contains(e)
        || e.resolution != ResolutionKind::IpcBridge by {
        if b.edges.contains(e) {
        }
    }
    assert forall|e: (CallSiteId, u32)| #[trigger] a.ends.contains(e) implies c.ends.contains(
        e,
    ) by {
        assert(b.ends.contains(e));
    }
}

/// One look at a node loses nothing, and leaves nothing undone.
pub proof fn step_keeps(r: RunV, p: ProgramV, models: Seq<ModelV>, g: PagV)
    requires
        run_sound(r, loaded_in(g)),
        extended(g, r.pag),
        g.constraints.len() <= usize::MAX,
        on_track(r, g, p),
        r.st.worklist.len() > 0,
    ensures
        run_sound(r.step(p, models), loaded_in(g)),
        extended(g, r.step(p, models).pag),
        on_track(r.step(p, models), g, p),
        knows_more(r, r.step(p, models)),
{
    let from = loaded_in(g);
    let node = r.st.worklist.last();
    let st = popped(r.st);
    let delta = list_of(st.delta, node);
    let r0 = r.with_st(st.taken(node));
    taken_facts(r.st);
    extended_refl(r.pag);
    assert(run_sound(r0, from));
    let b = r.step(p, models);
    let look = LookV { p, models, node, delta };
    if delta.len() == 0 {
        first_look_grows(r0, p, node, from);
        assert forall|l: u32| !(#[trigger] waits(r.st, node, l)) by {
            if waits(r.st, node, l) {
                assert(list_of(r.st.delta, node).contains(l));
            }
        }
    } else {
        travelled_does(r0, look, g);
    }
    assert(run_grown(r0, b, from));
    extended_trans(g, r.pag, b.pag);
    assert(knows_more(r, b)) by {
        assert(r0.pag == r.pag && r0.edges == r.edges && r0.wired == r.wired && r0.ends == r.ends);
        assert forall|n: u32, l: u32| #[trigger] holds(r.st, n, l) implies holds(b.st, n, l) by {
            assert(holds(r0.st, n, l));
        }
        assert forall|e: CallGraphEdge| #[trigger] r.edges.contains(e) implies b.edges.contains(
            e,
        ) by {
            assert(r0.edges.contains(e));
        }
        assert forall|e: (CallSiteId, u32)| #[trigger] r.ends.contains(e) implies b.ends.contains(
            e,
        ) by {
            assert(r0.ends.contains(e));
        }
    }
    assert forall|i: int| 0 <= i < g.constraints.len() && indexed(g, i) implies met(
        b,
        #[trigger] g.constraints[i],
    ) by {
        let c = g.constraints[i];
        assert(met(r, c));
        match c.kind {
            ConstraintKind::Copy => {
                assert forall|l: u32| #[trigger] holds(b.st, c.src.0, l) implies holds(
                    b.st,
                    c.dst.0,
                    l,
                ) || waits(b.st, c.src.0, l) by {
                    if holds(r0.st, c.src.0, l) {
                        assert(holds(r.st, c.src.0, l));
                        if holds(r.st, c.dst.0, l) {
                            assert(holds(r0.st, c.dst.0, l));
                        } else {
                            assert(waits(r.st, c.src.0, l));
                            if c.src.0 == node {
                                assert(delta.contains(l));
                            } else {
                                assert(waits(r0.st, c.src.0, l));
                            }
                        }
                    }
                }
            },
            ConstraintKind::Load => {
                assert(from.contains(c.src.0));
                assert forall|l: u32| #[trigger] holds(b.st, c.src.0, l) implies took(
                    b.pag,
                    b.st,
                    c.dst.0,
                    l,
                ) || waits(b.st, c.src.0, l) by {
                    if holds(r0.st, c.src.0, l) {
                        assert(holds(r.st, c.src.0, l));
                        if waits(r.st, c.src.0, l) {
                            if c.src.0 == node {
                                assert(delta.contains(l));
                            } else {
                                assert(waits(r0.st, c.src.0, l));
                            }
                        } else {
                            assert(took(r.pag, r.st, c.dst.0, l));
                            assert(took(r0.pag, r0.st, c.dst.0, l)) by {
                                assert(holds(r0.st, c.dst.0, l) <==> holds(r.st, c.dst.0, l));
                                if r.pag.function_at(LocId(l)) is None {
                                    assert forall|x: u32| #[trigger]
                                        r0.st.memory_of(l).contains(x) && r0.st.lets_out(
                                            l,
                                            x,
                                        ) implies holds(r0.st, c.dst.0, x) by {
                                        assert(r.st.memory_of(l).contains(x) && r.st.lets_out(l, x));
                                        assert(holds(r.st, c.dst.0, x));
                                    }
                                }
                            }
                            took_stays(r0, b, c.src.0, c.dst.0, l, from);
                        }
                    }
                }
            },
            ConstraintKind::Store => {
                assert forall|l: u32, v: u32| #[trigger]
                    holds(b.st, c.dst.0, l) && b.pag.function_at(LocId(l)) is None
                        && #[trigger] holds(b.st, c.src.0, v) && may_write(
                        b.pag,
                        b.st,
                        l,
                        v,
                    ) implies b.st.memory_of(l).contains(v) || waits(b.st, c.dst.0, l) || waits(
                    b.st,
                    c.src.0,
                    v,
                ) by {
                    if holds(r0.st, c.dst.0, l) && holds(r0.st, c.src.0, v) {
                        assert(holds(r.st, c.dst.0, l) && holds(r.st, c.src.0, v));
                        assert(r0.pag.function_at(LocId(l)) == b.pag.function_at(LocId(l)));
                        assert(r0.pag.function_at(LocId(v)) == b.pag.function_at(LocId(v)));
                        assert(may_write(r0.pag, r0.st, l, v));
                        assert(may_write(r.pag, r.st, l, v));
                        if r.st.memory_of(l).contains(v) {
                            assert(r0.st.memory_of(l).contains(v));
                            memory_stays(r0.st, b.st, l, v);
                        } else if waits(r.st, c.dst.0, l) {
                            if c.dst.0 == node {
                                assert(delta.contains(l));
                            } else {
                                assert(waits(r0.st, c.dst.0, l));
                            }
                        } else {
                            assert(waits(r.st, c.src.0, v));
                            if c.src.0 == node {
                                assert(delta.contains(v));
                            } else {
                                assert(waits(r0.st, c.src.0, v));
                            }
                        }
                    }
                }
            },
            _ => {},
        }
    }
    assert forall|n: u32, s: CallSiteId| #[trigger]
        list_of(g.indices.indirect_by_target, n).contains(s) implies resolved(b, p, n, s) by {
        assert(resolved(r, p, n, s));
        if p.site(s) is Some {
            assert forall|l: u32, f: FnId|
                holds(b.st, n, l) && b.pag.function_at(LocId(l)) is Some && #[trigger] p.reached(
                    b.pag.function_at(LocId(l))->0,
                ).contains(f) implies list_of(b.resolved, p.site(s)->0.id.0).contains(f)
                || #[trigger] waits(b.st, n, l) by {
                assert(r0.pag.function_at(LocId(l)) == b.pag.function_at(LocId(l)));
                assert(r.pag.function_at(LocId(l)) == b.pag.function_at(LocId(l)));
                if holds(r0.st, n, l) {
                    assert(holds(r.st, n, l));
                    assert(p.reached(r.pag.function_at(LocId(l))->0).contains(f));
                    if waits(r.st, n, l) {
                        if n == node {
                            assert(delta.contains(l));
                            assert(list_of(b.resolved, p.site(s)->0.id.0).contains(f));
                        } else {
                            assert(waits(r0.st, n, l));
                        }
                    } else {
                        assert(list_of(r.resolved, p.site(s)->0.id.0).contains(f));
                        assert(list_of(r0.resolved, p.site(s)->0.id.0).contains(f));
                    }
                }
            }
        }
    }
}

/// A run loses nothing; once nothing is left to look at, nothing is undone.
pub proof fn run_keeps(r: RunV, p: ProgramV, models: Seq<ModelV>, g: PagV, budget: nat)
    requires
        run_sound(r, loaded_in(g)),
        extended(g, r.pag),
        g.constraints.len() <= usize::MAX,
        on_track(r, g, p),
    ensures
        ({
            let end = r.run(p, models, budget);
            &&& knows_more(r, end)
            &&& extended(g, end.pag)
            &&& r.settles(p, models, budget) ==> end.st.worklist.len() == 0 && run_sound(
                end,
                loaded_in(g),
            ) && on_track(end, g, p)
        }),
    decreases budget,
{
    extended_refl(r.pag);
    if r.st.worklist.len() == 0 {
    } else if budget == 0 {
        assert forall|n: u32, l: u32| #[trigger] holds(r.st, n, l) implies holds(
            r.run(p, models, budget).st,
            n,
            l,
        ) by {}
    } else {
        step_keeps(r, p, models, g);
        let next = r.step(p, models);
        run_keeps(next, p, models, g, (budget - 1) as nat);
        knows_trans(r, next, next.run(p, models, (budget - 1) as nat));
    }
}

/// A run that goes further knows no less.
proof fn runs_extend(r: RunV, p: ProgramV, models: Seq<ModelV>, g: PagV, budget: nat, more: nat)
    requires
        run_sound(r, loaded_in(g)),
        extended(g, r.pag),
        g.constraints.len() <= usize::MAX,
        on_track(r, g, p),
    ensures
        knows_more(r.run(p, models, budget), r.run(p, models, budget + more)),
    decreases budget,
{
    extended_refl(r.pag);
    if r.st.worklist.len() == 0 {
    } else if budget == 0 {
        run_keeps(r, p, models, g, more);
        let end = r.run(p, models, 0);
        assert(knows_more(end, r)) by {
            assert forall|n: u32, l: u32| #[trigger] holds(end.st, n, l) implies holds(
                r.st,
                n,
                l,
            ) by {}
        }
        knows_trans(end, r, r.run(p, models, more));
    } else {
        step_keeps(r, p, models, g);
        runs_extend(r.step(p, models), p, models, g, (budget - 1) as nat, more);
    }
}

proof fn guards_facts(s: SolverV, p: ProgramV, pag: PagV, n: int)
    ensures
        s.with_guards(p, pag, n) == (SolverV { slot_guard: s.with_guards(p, pag, n).slot_guard, ..s }),
    decreases n,
{
    if n > 0 {
        guards_facts(s, p, pag, n - 1);
    }
}

proof fn arities_facts(s: SolverV, p: ProgramV, pag: PagV, n: int)
    ensures
        s.with_arities(p, pag, n) == (SolverV { fn_arity: s.with_arities(p, pag, n).fn_arity, ..s }),
    decreases n,
{
    if n > 0 {
        arities_facts(s, p, pag, n - 1);
    }
}

proof fn constrained_grows(s: SolverV, pag: PagV, n: int, from: Set<u32>)
    requires
        sound(s),
    ensures
        sound(s.with_constrained(pag, n)),
        grown(s, s.with_constrained(pag, n), from),
        s.with_constrained(pag, n).wired_copies == s.wired_copies,
    decreases n,
{
    if n <= 0 {
        grown_refl(s, from);
    } else {
        constrained_grows(s, pag, n - 1, from);
        let t = s.with_constrained(pag, n - 1);
        let c = pag.constraints[n - 1];
        pushed_grows(t, c.dst.0, from);
        let u = t.pushed(c.dst.0);
        pushed_grows(u, c.src.0, from);
        grown_trans(s, t, u, from);
        grown_trans(s, u, u.pushed(c.src.0), from);
    }
}

/// Whether a constraint takes the address of a place for a node.
pub open spec fn takes_address(g: PagV, i: int, n: u32, l: u32) -> bool {
    &&& 0 <= i < g.constraints.len()
    &&& g.constraints[i].kind == ConstraintKind::AddrOf
    &&& g.constraints[i].dst.0 == n
    &&& g.kind_of(g.constraints[i].src) == Some(PagNodeKind::Loc(LocId(l)))
}

proof fn seeds_grow(s: SolverV, pag: PagV, n: int, from: Set<u32>)
    requires
        sound(s),
        n <= pag.constraints.len(),
    ensures
        sound(s.with_seeds(pag, n)),
        grown(s, s.with_seeds(pag, n), from),
        s.with_seeds(pag, n).wired_copies == s.wired_copies,
        forall|i: int, d: u32, l: u32|
            0 <= i < n && #[trigger] takes_address(pag, i, d, l) ==> holds(
                s.with_seeds(pag, n),
                d,
                l,
            ),
    decreases n,
{
    if n <= 0 {
        grown_refl(s, from);
    } else {
        seeds_grow(s, pag, n - 1, from);
        let t = s.with_seeds(pag, n - 1);
        let u = s.with_seeds(pag, n);
        let c = pag.constraints[n - 1];
        grown_refl(t, from);
        if c.kind == ConstraintKind::AddrOf {
            match pag.kind_of(c.src) {
                Some(PagNodeKind::Loc(l)) => {
                    spread_grows(t, c.dst.0, seq![l.0], from);
                    assert(seq![l.0][0] == l.0);
                    assert(seq![l.0].contains(l.0));
                },
                _ => {},
            }
        }
        grown_trans(s, t, u, from);
        assert forall|i: int, d: u32, l: u32|
            0 <= i < n && #[trigger] takes_address(pag, i, d, l) implies holds(u, d, l) by {
            if i < n - 1 {
                assert(holds(t, d, l));
            }
        }
    }
}

proof fn seen_grows(s: SolverV, pag: PagV, n: int, from: Set<u32>)
    requires
        sound(s),
    ensures
        sound(s.with_seen(pag, n)),
        grown(s, s.with_seen(pag, n), from),
        s.with_seen(pag, n).wired_copies == s.wired_copies,
    decreases n,
{
    if n <= 0 {
        grown_refl(s, from);
    } else {
        seen_grows(s, pag, n - 1, from);
        let t = s.with_seen(pag, n - 1);
        let u = s.with_seen(pag, n);
        same_contents(t, u, from);
        grown_trans(s, t, u, from);
    }
}

/// The node of a variable that has one.
pub open spec fn node_number(g: PagV, v: VarId) -> u32 {
    match g.node_of_var(v) {
        Some(n) => n.0,
        None => 0,
    }
}

/// The place of a variable that has one.
pub open spec fn place_number(g: PagV, v: VarId) -> u32 {
    match g.location_of_var(v) {
        Some(l) => l.0,
        None => 0,
    }
}

proof fn places_grow(s: SolverV, vars: Seq<VarV>, pag: PagV, n: int, from: Set<u32>)
    requires
        sound(s),
        n <= vars.len(),
    ensures
        sound(s.with_places(vars, pag, n)),
        grown(s, s.with_places(vars, pag, n), from),
        s.with_places(vars, pag, n).wired_copies == s.wired_copies,
        forall|i: int|
            0 <= i < n && lasting((#[trigger] vars[i]).storage) && pag.location_of_var(
                vars[i].id,
            ) is Some && pag.node_of_var(vars[i].id) is Some ==> holds(
                s.with_places(vars, pag, n),
                node_number(pag, vars[i].id),
                place_number(pag, vars[i].id),
            ),
    decreases n,
{
    if n <= 0 {
        grown_refl(s, from);
    } else {
        places_grow(s, vars, pag, n - 1, from);
        let t = s.with_places(vars, pag, n - 1);
        let u = s.with_places(vars, pag, n);
        let v = vars[n - 1];
        grown_refl(t, from);
        if lasting(v.storage) {
            match (pag.location_of_var(v.id), pag.node_of_var(v.id)) {
                (Some(l), Some(node)) => {
                    spread_grows(t, node.0, seq![l.0], from);
                    assert(seq![l.0][0] == l.0);
                    assert(seq![l.0].contains(l.0));
                },
                _ => {},
            }
        }
        grown_trans(s, t, u, from);
        assert forall|i: int|
            0 <= i < n && lasting((#[trigger] vars[i]).storage) && pag.location_of_var(
                vars[i].id,
            ) is Some && pag.node_of_var(vars[i].id) is Some implies holds(
            u,
            node_number(pag, vars[i].id),
            place_number(pag, vars[i].id),
        ) by {
            if i < n - 1 {
                assert(holds(
                    t,
                    node_number(pag, vars[i].id),
                    place_number(pag, vars[i].id),
                ));
            }
        }
    }
}

/// What is known of the types of places and of functions.
pub open spec fn guarded(g: PagV, p: ProgramV) -> SolverV {
    SolverV::empty().with_fn_locs(g).with_guards(
        p,
        g,
        g.locations.len() as int,
    ).with_arities(p, g, g.fn_locations.len() as int)
}

/// Where solving stands before the calls that need no pointer are added.
pub open spec fn before_calls(g: PagV, p: ProgramV) -> RunV {
    let n = g.constraints.len() as int;
    RunV {
        pag: g,
        st: SolverV::empty().with_fn_locs(g).with_guards(
            p,
            g,
            g.locations.len() as int,
        ).with_arities(
            p,
            g,
            g.fn_locations.len() as int,
        ).with_constrained(g, n).with_seeds(g, n).with_seen(g, n).with_places(
            p.symbols.variables,
            g,
            p.symbols.variables.len() as int,
        ),
        edges: Seq::empty(),
        resolved: Map::empty(),
        wired: Set::empty(),
        ends: Seq::empty(),
    }
}

pub proof fn before_calls_sound(g: PagV, p: ProgramV, models: Seq<ModelV>)
    ensures
        ({
            let r = before_calls(g, p);
            &&& g.start(p, models) == r.with_direct_calls(
                p,
                models,
                p.symbols.call_sites.len() as int,
            )
            &&& run_sound(r, loaded_in(g))
            &&& on_track(r, g, p)
            &&& r.st.wired_copies == Set::<(u32, u32)>::empty()
            &&& r.st.slot_guard == guarded(g, p).slot_guard
            &&& r.st.fn_arity == guarded(g, p).fn_arity
            &&& forall|n: u32, l: u32| #[trigger] holds(r.st, n, l) ==> waits(r.st, n, l)
            &&& forall|i: int, d: u32, l: u32| #[trigger]
                takes_address(g, i, d, l) ==> holds(r.st, d, l)
            &&& forall|i: int|
                0 <= i < p.symbols.variables.len() && lasting(
                    (#[trigger] p.symbols.variables[i]).storage,
                ) && g.location_of_var(p.symbols.variables[i].id) is Some && g.node_of_var(
                    p.symbols.variables[i].id,
                ) is Some ==> holds(
                    r.st,
                    node_number(g, p.symbols.variables[i].id),
                    place_number(g, p.symbols.variables[i].id),
                )
        }),
{
    let from = loaded_in(g);
    let n = g.constraints.len() as int;
    let vars = p.symbols.variables;
    let e = SolverV::empty().with_fn_locs(g);
    let s0 = e.with_guards(p, g, g.locations.len() as int);
    let s1 = s0.with_arities(p, g, g.fn_locations.len() as int);
    guards_facts(e, p, g, g.locations.len() as int);
    arities_facts(s0, p, g, g.fn_locations.len() as int);
    assert forall|x: u32, l: u32| !(#[trigger] holds(s1, x, l)) by {
        assert(s1.pts_of(x) =~= Seq::<u32>::empty());
    }
    assert(sound(s1)) by {
        assert forall|x: u32, m: u32| #[trigger] has_seen(s1, x, m) by {}
    }
    let s2 = s1.with_constrained(g, n);
    constrained_grows(s1, g, n, from);
    let s3 = s2.with_seeds(g, n);
    seeds_grow(s2, g, n, from);
    let s4 = s3.with_seen(g, n);
    seen_grows(s3, g, n, from);
    let s5 = s4.with_places(vars, g, vars.len() as int);
    places_grow(s4, vars, g, vars.len() as int, from);
    grown_trans(s1, s2, s3, from);
    grown_trans(s1, s3, s4, from);
    grown_trans(s1, s4, s5, from);
    grown_trans(s3, s4, s5, from);
    let a0 = RunV {
        pag: g,
        st: s1,
        edges: Seq::empty(),
        resolved: Map::empty(),
        wired: Set::empty(),
        ends: Seq::empty(),
    };
    let a1 = RunV { st: s5, ..a0 };
    extended_refl(g);
    assert(run_grown(a0, a1, from));
    assert(on_track(a0, g, p)) by {
        assert forall|i: int| 0 <= i < g.constraints.len() && indexed(g, i) implies met(
            a0,
            #[trigger] g.constraints[i],
        ) by {}
        assert forall|x: u32, s: CallSiteId| #[trigger]
            list_of(g.indices.indirect_by_target, x).contains(s) implies resolved(a0, p, x, s) by {}
    }
    assert(run_sound(a1, from)) by {
        assert forall|k: u32, f: FnId| #[trigger] list_of(a1.resolved, k).contains(f) implies shown(
            a1.edges,
            k,
            f,
        ) by {
            assert(list_of(a1.resolved, k) =~= Seq::<FnId>::empty());
        }
    }
    track_kept(a0, a1, g, p);
    assert(a1 == before_calls(g, p));
    assert forall|i: int, d: u32, l: u32| #[trigger] takes_address(g, i, d, l) implies holds(
        a1.st,
        d,
        l,
    ) by {
        assert(holds(s3, d, l));
    }
}

/// Where solving begins, nothing is undone, and every address that is taken
/// is held.
pub proof fn start_keeps(g: PagV, p: ProgramV, models: Seq<ModelV>)
    ensures
        ({
            let r = g.start(p, models);
            &&& run_sound(r, loaded_in(g))
            &&& extended(g, r.pag)
            &&& on_track(r, g, p)
            &&& r.st.slot_guard == guarded(g, p).slot_guard
            &&& r.st.fn_arity == guarded(g, p).fn_arity
            &&& forall|e: CallGraphEdge| #[trigger]
                r.edges.contains(e) ==> e.resolution != ResolutionKind::IpcBridge
            &&& forall|k: int, i: int|
                0 <= k < p.symbols.call_sites.len() && 0 <= i < p.direct_callees(
                    p.symbols.call_sites[k],
                ).len() && p.symbols.function(
                    #[trigger] p.direct_callees(p.symbols.call_sites[k])[i],
                ) is Some ==> r.edges.contains(
                    direct_edge(
                        p,
                        p.symbols.call_sites[k],
                        p.direct_callees(p.symbols.call_sites[k])[i],
                    ),
                )
            &&& forall|i: int, d: u32, l: u32| #[trigger]
                takes_address(g, i, d, l) ==> holds(r.st, d, l)
            &&& forall|i: int|
                0 <= i < p.symbols.variables.len() && lasting(
                    (#[trigger] p.symbols.variables[i]).storage,
                ) && g.location_of_var(p.symbols.variables[i].id) is Some && g.node_of_var(
                    p.symbols.variables[i].id,
                ) is Some ==> holds(
                    r.st,
                    node_number(g, p.symbols.variables[i].id),
                    place_number(g, p.symbols.variables[i].id),
                )
        }),
{
    let from = loaded_in(g);
    let vars = p.symbols.variables;
    let a1 = before_calls(g, p);
    before_calls_sound(g, p, models);
    extended_refl(g);
    let r = g.start(p, models);
    with_direct_calls_grows(a1, p, models, p.symbols.call_sites.len() as int, from);
    track_kept(a1, r, g, p);
    assert forall|i: int, d: u32, l: u32| #[trigger] takes_address(g, i, d, l) implies holds(
        r.st,
        d,
        l,
    ) by {
        assert(holds(a1.st, d, l));
    }
    assert forall|i: int|
        0 <= i < vars.len() && lasting((#[trigger] vars[i]).storage) && g.location_of_var(
            vars[i].id,
        ) is Some && g.node_of_var(vars[i].id) is Some implies holds(
        r.st,
        node_number(g, vars[i].id),
        place_number(g, vars[i].id),
    ) by {
        assert(holds(a1.st, node_number(g, vars[i].id), place_number(g, vars[i].id)));
    }
}

/// What a node may hold once a graph is solved with a budget.
pub open spec fn may_hold(
    g: PagV,
    p: ProgramV,
    models: Seq<ModelV>,
    budget: nat,
    n: u32,
    l: u32,
) -> bool {
    holds(g.start(p, models).run(p, models, budget).st, n, l)
}

/// Every address that is taken is held by the node that takes it, whatever the
/// budget.
pub proof fn addresses_are_held(
    g: PagV,
    p: ProgramV,
    models: Seq<ModelV>,
    budget: nat,
    i: int,
    n: u32,
    l: u32,
)
    requires
        g.constraints.len() <= usize::MAX,
        takes_address(g, i, n, l),
    ensures
        may_hold(g, p, models, budget, n, l),
{
    start_keeps(g, p, models);
    let r = g.start(p, models);
    assert(holds(r.st, n, l));
    run_keeps(r, p, models, g, budget);
}

/// A variable that outlives the calls of functions holds its own place,
/// whatever the budget.
pub proof fn lasting_variables_hold_their_place(
    g: PagV,
    p: ProgramV,
    models: Seq<ModelV>,
    budget: nat,
    i: int,
)
    requires
        g.constraints.len() <= usize::MAX,
        0 <= i < p.symbols.variables.len(),
        lasting(p.symbols.variables[i].storage),
        g.location_of_var(p.symbols.variables[i].id) is Some,
        g.node_of_var(p.symbols.variables[i].id) is Some,
    ensures
        may_hold(
            g,
            p,
            models,
            budget,
            node_number(g, p.symbols.variables[i].id),
            place_number(g, p.symbols.variables[i].id),
        ),
{
    start_keeps(g, p, models);
    let r = g.start(p, models);
    let n = node_number(g, p.symbols.variables[i].id);
    let l = place_number(g, p.symbols.variables[i].id);
    assert(holds(r.st, n, l));
    run_keeps(r, p, models, g, budget);
}

/// A larger budget finds no less: what nodes may hold, the calls, and what
/// becomes of arguments.
pub proof fn larger_budget_finds_no_less(
    g: PagV,
    p: ProgramV,
    models: Seq<ModelV>,
    budget: nat,
    more: nat,
)
    requires
        g.constraints.len() <= usize::MAX,
    ensures
        knows_more(
            g.start(p, models).run(p, models, budget),
            g.start(p, models).run(p, models, budget + more),
        ),
{
    start_keeps(g, p, models);
    runs_extend(g.start(p, models), p, models, g, budget, more);
}

pub proof fn nothing_waits(r: RunV, g: PagV, n: u32, l: u32)
    requires
        run_sound(r, loaded_in(g)),
        r.st.worklist.len() == 0,
    ensures
        !waits(r.st, n, l),
{
    if waits(r.st, n, l) {
        assert(r.st.queued.contains(n));
        assert(r.st.worklist.contains(n));
    }
}

/// Once solving settles, what the source of a copy may hold, its destination
/// may hold.
pub proof fn copies_are_closed(
    g: PagV,
    p: ProgramV,
    models: Seq<ModelV>,
    budget: nat,
    i: int,
    l: u32,
)
    requires
        g.constraints.len() <= usize::MAX,
        g.start(p, models).settles(p, models, budget),
        0 <= i < g.constraints.len(),
        indexed(g, i),
        g.constraints[i].kind == ConstraintKind::Copy,
        may_hold(g, p, models, budget, g.constraints[i].src.0, l),
    ensures
        may_hold(g, p, models, budget, g.constraints[i].dst.0, l),
{
    start_keeps(g, p, models);
    let r = g.start(p, models);
    run_keeps(r, p, models, g, budget);
    let end = r.run(p, models, budget);
    assert(met(end, g.constraints[i]));
    nothing_waits(end, g, g.constraints[i].src.0, l);
    assert(holds(end.st, g.constraints[i].src.0, l));
}

/// What a place holds once a graph is solved with a budget.
pub open spec fn in_memory(
    g: PagV,
    p: ProgramV,
    models: Seq<ModelV>,
    budget: nat,
    l: u32,
    v: u32,
) -> bool {
    g.start(p, models).run(p, models, budget).st.memory_of(l).contains(v)
}

/// Once solving settles, the destination of a load may hold what is in the
/// places that its source may hold, but for functions that the places may not
/// hold; a function is its own value.
pub proof fn loads_are_closed(
    g: PagV,
    p: ProgramV,
    models: Seq<ModelV>,
    budget: nat,
    i: int,
    l: u32,
    v: u32,
)
    requires
        g.constraints.len() <= usize::MAX,
        g.start(p, models).settles(p, models, budget),
        0 <= i < g.constraints.len(),
        indexed(g, i),
        g.constraints[i].kind == ConstraintKind::Load,
        may_hold(g, p, models, budget, g.constraints[i].src.0, l),
    ensures
        g.function_at(LocId(l)) is Some ==> may_hold(
            g,
            p,
            models,
            budget,
            g.constraints[i].dst.0,
            l,
        ),
        g.function_at(LocId(l)) is None && in_memory(g, p, models, budget, l, v) && (g.function_at(
            LocId(v),
        ) is None || g.start(p, models).run(p, models, budget).st.allows(l, v)) ==> may_hold(
            g,
            p,
            models,
            budget,
            g.constraints[i].dst.0,
            v,
        ),
{
    start_keeps(g, p, models);
    let r = g.start(p, models);
    run_keeps(r, p, models, g, budget);
    let end = r.run(p, models, budget);
    let c = g.constraints[i];
    assert(met(end, c));
    nothing_waits(end, g, c.src.0, l);
    assert(holds(end.st, c.src.0, l));
    assert(took(end.pag, end.st, c.dst.0, l));
    assert(end.pag.function_at(LocId(l)) == g.function_at(LocId(l)));
    if g.function_at(LocId(l)) is None {
        assert(has_loaded(end.st, c.dst.0, l));
        assert(end.st.fn_locs.contains(v) <==> g.function_at(LocId(v)) is Some);
        if end.st.memory_of(l).contains(v) && end.st.lets_out(l, v) {
            assert(holds(end.st, c.dst.0, v));
        }
    }
}

/// Once solving settles, what the source of a store may hold is in the places
/// that its destination may hold, as far as their types let functions in.
pub proof fn stores_are_closed(
    g: PagV,
    p: ProgramV,
    models: Seq<ModelV>,
    budget: nat,
    i: int,
    l: u32,
    v: u32,
)
    requires
        g.constraints.len() <= usize::MAX,
        g.start(p, models).settles(p, models, budget),
        0 <= i < g.constraints.len(),
        indexed(g, i),
        g.constraints[i].kind == ConstraintKind::Store,
        may_hold(g, p, models, budget, g.constraints[i].dst.0, l),
        g.function_at(LocId(l)) is None,
        may_hold(g, p, models, budget, g.constraints[i].src.0, v),
        g.function_at(LocId(v)) is None || g.start(p, models).run(p, models, budget).st.allows(l, v),
    ensures
        in_memory(g, p, models, budget, l, v),
{
    start_keeps(g, p, models);
    let r = g.start(p, models);
    run_keeps(r, p, models, g, budget);
    let end = r.run(p, models, budget);
    let c = g.constraints[i];
    assert(met(end, c));
    nothing_waits(end, g, c.src.0, v);
    nothing_waits(end, g, c.dst.0, l);
    assert(holds(end.st, c.src.0, v) && holds(end.st, c.dst.0, l));
    assert(end.pag.function_at(LocId(l)) == g.function_at(LocId(l)));
    assert(end.pag.function_at(LocId(v)) == g.function_at(LocId(v)));
    assert(may_write(end.pag, end.st, l, v));
}

/// Once solving settles, a call through a pointer has an edge to every
/// function that the pointer may hold and that the call can reach by it.
pub proof fn calls_reach_what_pointers_hold(
    g: PagV,
    p: ProgramV,
    models: Seq<ModelV>,
    budget: nat,
    n: u32,
    site: CallSiteId,
    l: u32,
    f: FnId,
)
    requires
        g.constraints.len() <= usize::MAX,
        g.start(p, models).settles(p, models, budget),
        list_of(g.indices.indirect_by_target, n).contains(site),
        p.site(site) is Some,
        may_hold(g, p, models, budget, n, l),
        g.function_at(LocId(l)) is Some,
        p.reached(g.function_at(LocId(l))->0).contains(f),
    ensures
        shown(g.start(p, models).run(p, models, budget).edges, p.site(site)->0.id.0, f),
{
    start_keeps(g, p, models);
    let r = g.start(p, models);
    run_keeps(r, p, models, g, budget);
    let end = r.run(p, models, budget);
    assert(resolved(end, p, n, site));
    nothing_waits(end, g, n, l);
    assert(holds(end.st, n, l));
    assert(end.pag.function_at(LocId(l)) == g.function_at(LocId(l)));
    assert(p.reached(end.pag.function_at(LocId(l))->0).contains(f));
    assert(list_of(end.resolved, p.site(site)->0.id.0).contains(f) || waits(end.st, n, l));
}

proof fn indices_list(a: PagV, to: int)
    requires
        0 <= to <= a.constraints.len(),
        a.constraints.len() <= usize::MAX,
    ensures
        a.with_indices(0, to) == (PagV { indices: a.with_indices(0, to).indices, ..a }),
        forall|i: int| 0 <= i < to ==> #[trigger] indexed(a.with_indices(0, to), i),
    decreases to,
{
    if to > 0 {
        indices_list(a, to - 1);
        let q = a.with_indices(0, to - 1);
        let b = a.with_indices(0, to);
        let c = a.constraints[to - 1];
        let k = (to - 1) as usize;
        listed_holds(q.indices.copy_src, c.src.0, k);
        listed_holds(q.indices.load_src, c.src.0, k);
        listed_holds(q.indices.store_dst, c.dst.0, k);
        listed_holds(q.indices.store_src, c.src.0, k);
        assert forall|i: int| 0 <= i < to implies #[trigger] indexed(b, i) by {
            if i < to - 1 {
                assert(indexed(q, i));
            }
        }
    }
}

proof fn calls_listed(a: PagV, sites: Seq<SiteV>, n: int)
    requires
        0 <= n <= sites.len(),
    ensures
        ({
            let b = a.with_call_indices(sites, n);
            &&& b.constraints == a.constraints
            &&& b.call_targets == a.call_targets
            &&& b.locations == a.locations
            &&& b.indices.copy_src == a.indices.copy_src
            &&& b.indices.load_src == a.indices.load_src
            &&& b.indices.store_dst == a.indices.store_dst
            &&& b.indices.store_src == a.indices.store_src
            &&& forall|k: int|
                0 <= k < n && !(#[trigger] sites[k]).is_direct && has_key(
                    a.call_targets,
                    sites[k].id.0,
                ) ==> list_of(
                    b.indices.indirect_by_target,
                    value_of(a.call_targets, sites[k].id.0),
                ).contains(sites[k].id)
        }),
    decreases n,
{
    if n > 0 {
        calls_listed(a, sites, n - 1);
        let q = a.with_call_indices(sites, n - 1);
        let b = a.with_call_indices(sites, n);
        let cs = sites[n - 1];
        listed_holds(
            q.indices.indirect_by_target,
            value_of(q.call_targets, cs.id.0),
            cs.id,
        );
        assert forall|k: int|
            0 <= k < n && !(#[trigger] sites[k]).is_direct && has_key(
                a.call_targets,
                sites[k].id.0,
            ) implies list_of(
            b.indices.indirect_by_target,
            value_of(a.call_targets, sites[k].id.0),
        ).contains(sites[k].id) by {
            if k < n - 1 {
                assert(list_of(
                    q.indices.indirect_by_target,
                    value_of(a.call_targets, sites[k].id.0),
                ).contains(sites[k].id));
            }
        }
    }
}

/// The graph that a program is solved by.
pub open spec fn solved_graph(p: ProgramV, models: Seq<ModelV>) -> PagV {
    p.graph(models).unbridged()
}

/// How many looks a budget allows at a program: without one, as many as it
/// takes.
pub open spec fn looks(p: ProgramV, models: Seq<ModelV>, budget: Option<u64>) -> nat {
    solved_graph(p, models).looks(p, models, budget)
}

/// In the graph of a program every constraint is listed under its nodes, and
/// every call through a pointer under its target.
pub proof fn graphs_are_indexed(p: ProgramV, models: Seq<ModelV>)
    requires
        p.graph(models).constraints.len() <= usize::MAX,
    ensures
        ({
            let g = solved_graph(p, models);
            &&& forall|i: int| 0 <= i < g.constraints.len() ==> #[trigger] indexed(g, i)
            &&& forall|k: int|
                0 <= k < p.symbols.call_sites.len() && !(
                #[trigger] p.symbols.call_sites[k]).is_direct && has_key(
                    g.call_targets,
                    p.symbols.call_sites[k].id.0,
                ) ==> list_of(
                    g.indices.indirect_by_target,
                    value_of(g.call_targets, p.symbols.call_sites[k].id.0),
                ).contains(p.symbols.call_sites[k].id)
        }),
{
    let sites = p.symbols.call_sites;
    let a = PagV::empty().with_variables(
        p.symbols.variables,
        p.symbols.variables.len() as int,
    ).with_functions(p.symbols.functions, p.symbols.functions.len() as int).with_flows(
        p,
        models,
        p.flow.len() as int,
    ).with_lookups(sites, models, sites.len() as int).with_calls(p, sites.len() as int);
    let b = a.with_indices(0, a.constraints.len() as int);
    calls_listed(b, sites, sites.len() as int);
    let c = b.with_call_indices(sites, sites.len() as int);
    let g = solved_graph(p, models);
    assert(g.constraints == c.constraints);
    indices_keep(a, a.constraints.len() as int);
    indices_list(a, a.constraints.len() as int);
    assert forall|i: int| 0 <= i < g.constraints.len() implies #[trigger] indexed(g, i) by {
        assert(indexed(b, i));
    }
}

pub proof fn indices_keep(a: PagV, to: int)
    ensures
        a.with_indices(0, to).constraints == a.constraints,
    decreases to,
{
    if to > 0 {
        indices_keep(a, to - 1);
    }
}

proof fn bridges_keep(edges: Seq<CallGraphEdge>, p: ProgramV, pag: PagV, n: int)
    requires
        0 <= n <= pag.ipc_bridges.len(),
    ensures
        forall|e: CallGraphEdge| #[trigger]
            with_bridges(edges, p, pag, n).contains(e) <==> edges.contains(e) || bridged(
                p,
                pag,
                e,
                n,
            ),
    decreases n,
{
    if n > 0 {
        bridges_keep(edges, p, pag, n - 1);
        let before = with_bridges(edges, p, pag, n - 1);
        let after = with_bridges(edges, p, pag, n);
        assert forall|e: CallGraphEdge| #[trigger] after.contains(e) <==> edges.contains(e)
            || bridged(p, pag, e, n) by {
            assert(before.contains(e) <==> edges.contains(e) || bridged(p, pag, e, n - 1));
            if bridge_edge(p, pag, n - 1) is Some {
                push_holds(before, bridge_edge(p, pag, n - 1)->0, e);
            }
            if bridged(p, pag, e, n - 1) {
                let i = choose|i: int|
                    0 <= i < n - 1 && #[trigger] bridge_edge(p, pag, i) == Some(e);
                assert(bridge_edge(p, pag, i) == Some(e));
            }
            if bridged(p, pag, e, n) {
                let i = choose|i: int| 0 <= i < n && #[trigger] bridge_edge(p, pag, i) == Some(e);
                if i < n - 1 {
                    assert(bridged(p, pag, e, n - 1));
                }
            }
        }
    }
}

/// The edge of a bridge that ends at a function with a body.
pub open spec fn bridge_edge(p: ProgramV, pag: PagV, i: int) -> Option<CallGraphEdge> {
    let b = pag.ipc_bridges[i];
    match p.symbols.function(b.stub_handler) {
        Some(f) => if f.is_defined {
            Some(
                CallGraphEdge {
                    call_site: CallSiteId(SYNTHETIC_CALL_SITE),
                    caller: b.proxy_method,
                    callee: b.stub_handler,
                    resolution: ResolutionKind::IpcBridge,
                },
            )
        } else {
            None
        },
        None => None,
    }
}

/// Whether an edge is that of one of the first `n` bridges.
pub open spec fn bridged(p: ProgramV, pag: PagV, e: CallGraphEdge, n: int) -> bool {
    exists|i: int| 0 <= i < n && #[trigger] bridge_edge(p, pag, i) == Some(e)
}

/// Without a budget an analysis always ends by itself: its result is not
/// partial.
pub proof fn unlimited_results_are_whole(
    p: ProgramV,
    retain: bool,
    models: Seq<ModelV>,
    ipc: bool,
)
    ensures
        !p.analysis(retain, models, None, ipc).1.partial,
{
    let g = solved_graph(p, models);
    assert(p.asked_graph(models, ipc).unbridged() == g);
    solving_ends(g.start(p, models), p, models);
}

/// What an analysis finds, and where its run ends.
pub proof fn analysis_ends(
    p: ProgramV,
    retain: bool,
    models: Seq<ModelV>,
    budget: Option<u64>,
    ipc: bool,
)
    requires
        p.graph(models).constraints.len() <= usize::MAX,
    ensures
        ({
            let g = solved_graph(p, models);
            let end = g.start(p, models).run(p, models, looks(p, models, budget));
            let r = p.analysis(retain, models, budget, ipc).1;
            let asked = p.asked_graph(models, ipc);
            &&& p.graph(models).nodes.len() <= p.analysis(retain, models, budget, ipc).0.nodes.len()
            &&& r.partial == !g.start(p, models).settles(p, models, looks(p, models, budget))
            &&& forall|e: CallGraphEdge| #[trigger]
                r.call_edges.contains(e) <==> end.edges.contains(e) || bridged(
                    p,
                    asked,
                    e,
                    asked.ipc_bridges.len() as int,
                )
            &&& forall|e: CallGraphEdge| #[trigger]
                end.edges.contains(e) ==> e.resolution != ResolutionKind::IpcBridge
        }),
{
    let g = solved_graph(p, models);
    let asked = p.asked_graph(models, ipc);
    let start = g.start(p, models);
    let end = start.run(p, models, looks(p, models, budget));
    assert(asked.unbridged() == g);
    start_keeps(g, p, models);
    run_keeps(start, p, models, g, looks(p, models, budget));
    bridges_keep(end.edges, p, asked, asked.ipc_bridges.len() as int);
    assert forall|e: CallGraphEdge| #[trigger] end.edges.contains(e) implies e.resolution
        != ResolutionKind::IpcBridge by {
        if start.edges.contains(e) {
        }
    }
}

/// Every function that a call site reaches without any pointer has an edge,
/// whatever the budget: a direct one if it has a body, an external one if not.
pub proof fn direct_calls_have_edges(
    p: ProgramV,
    retain: bool,
    models: Seq<ModelV>,
    budget: Option<u64>,
    ipc: bool,
    k: int,
    i: int,
)
    requires
        p.graph(models).constraints.len() <= usize::MAX,
        0 <= k < p.symbols.call_sites.len(),
        0 <= i < p.direct_callees(p.symbols.call_sites[k]).len(),
        p.symbols.function(p.direct_callees(p.symbols.call_sites[k])[i]) is Some,
    ensures
        p.analysis(retain, models, budget, ipc).1.call_edges.contains(
            direct_edge(
                p,
                p.symbols.call_sites[k],
                p.direct_callees(p.symbols.call_sites[k])[i],
            ),
        ),
{
    let g = solved_graph(p, models);
    let start = g.start(p, models);
    start_keeps(g, p, models);
    run_keeps(start, p, models, g, looks(p, models, budget));
    analysis_ends(p, retain, models, budget, ipc);
    let e = direct_edge(
        p,
        p.symbols.call_sites[k],
        p.direct_callees(p.symbols.call_sites[k])[i],
    );
    assert(start.edges.contains(e));
}

/// Unless the result is partial, a call through a pointer has an edge to every
/// function that its target may hold.
pub proof fn indirect_calls_have_edges(
    p: ProgramV,
    retain: bool,
    models: Seq<ModelV>,
    budget: Option<u64>,
    ipc: bool,
    k: int,
    l: u32,
    f: FnId,
)
    requires
        p.graph(models).constraints.len() <= usize::MAX,
        budget is None || !p.analysis(retain, models, budget, ipc).1.partial,
        0 <= k < p.symbols.call_sites.len(),
        p.symbols.call_sites[k].id.0 == k,
        !p.symbols.call_sites[k].is_direct,
        has_key(p.graph(models).call_targets, p.symbols.call_sites[k].id.0),
        may_hold(
            solved_graph(p, models),
            p,
            models,
            looks(p, models, budget),
            value_of(p.graph(models).call_targets, p.symbols.call_sites[k].id.0),
            l,
        ),
        p.graph(models).function_at(LocId(l)) is Some,
        p.reached(p.graph(models).function_at(LocId(l))->0).contains(f),
    ensures
        shown(
            p.analysis(retain, models, budget, ipc).1.call_edges,
            p.symbols.call_sites[k].id.0,
            f,
        ),
{
    if budget is None {
        unlimited_results_are_whole(p, retain, models, ipc);
    }
    let g = solved_graph(p, models);
    let cs = p.symbols.call_sites[k];
    graphs_are_indexed(p, models);
    analysis_ends(p, retain, models, budget, ipc);
    let n = value_of(g.call_targets, cs.id.0);
    assert(list_of(g.indices.indirect_by_target, n).contains(cs.id));
    assert(p.site(cs.id) == Some(cs));
    assert(g.function_at(LocId(l)) == p.graph(models).function_at(LocId(l))) by {
        assert(g.location(LocId(l)) == p.graph(models).location(LocId(l)));
    }
    calls_reach_what_pointers_hold(g, p, models, looks(p, models, budget), n, cs.id, l, f);
    let end = g.start(p, models).run(p, models, looks(p, models, budget));
    let r = p.analysis(retain, models, budget, ipc).1;
    let caller = choose|caller: FnId| #[trigger]
        end.edges.contains(indirect_edge(cs.id.0, caller, f));
    assert(r.call_edges.contains(indirect_edge(cs.id.0, caller, f)));
}

/// Calls between processes are part of the call graph if they are asked for,
/// and only then.
pub proof fn bridges_on_request(
    p: ProgramV,
    retain: bool,
    models: Seq<ModelV>,
    budget: Option<u64>,
    ipc: bool,
    e: CallGraphEdge,
)
    requires
        p.graph(models).constraints.len() <= usize::MAX,
        e.resolution == ResolutionKind::IpcBridge,
    ensures
        p.analysis(retain, models, budget, ipc).1.call_edges.contains(e) <==> ipc && bridged(
            p,
            p.graph(models),
            e,
            p.graph(models).ipc_bridges.len() as int,
        ),
{
    analysis_ends(p, retain, models, budget, ipc);
    let g = p.asked_graph(models, ipc);
    if !ipc {
        assert(!bridged(p, g, e, g.ipc_bridges.len() as int));
    }
}

proof fn flows_of_grow(
    cs: SiteV,
    callee: FnId,
    params: Seq<VarId>,
    a: Set<(u32, u32, u32)>,
    b: Set<(u32, u32, u32)>,
    n: int,
    e: ArgFlowEdge,
)
    requires
        a.subset_of(b),
        arg_flows_of(cs, callee, params, a, n).contains(e),
    ensures
        arg_flows_of(cs, callee, params, b, n).contains(e),
    decreases n,
{
    if n > 0 {
        let old_before = arg_flows_of(cs, callee, params, a, n - 1);
        let new_before = arg_flows_of(cs, callee, params, b, n - 1);
        let k = (n - 1) as u32;
        match arg_flow_of(cs, callee, params[n - 1], k, a) {
            Some(x) => {
                push_holds(old_before, x, e);
                assert(arg_flow_of(cs, callee, params[n - 1], k, b) == Some(x));
                push_holds(new_before, x, e);
            },
            None => {},
        }
        if old_before.contains(e) {
            flows_of_grow(cs, callee, params, a, b, n - 1, e);
            match arg_flow_of(cs, callee, params[n - 1], k, b) {
                Some(x) => {
                    push_holds(new_before, x, e);
                },
                None => {},
            }
        }
    }
}

pub proof fn flows_hold(
    p: ProgramV,
    edges: Seq<CallGraphEdge>,
    wired: Set<(u32, u32, u32)>,
    n: int,
    e: ArgFlowEdge,
)
    requires
        0 <= n <= edges.len(),
    ensures
        p.arg_flows(edges, wired, n).contains(e) <==> exists|i: int|
            0 <= i < n && (#[trigger] p.arg_flows_at(edges[i], wired)).contains(e),
    decreases n,
{
    if n > 0 {
        flows_hold(p, edges, wired, n - 1, e);
        let before = p.arg_flows(edges, wired, n - 1);
        let more = p.arg_flows_at(edges[n - 1], wired);
        let after = p.arg_flows(edges, wired, n);
        if after.contains(e) {
            let k = choose|k: int| 0 <= k < after.len() && after[k] == e;
            if k < before.len() {
                assert(before[k] == e);
                let i = choose|i: int|
                    0 <= i < n - 1 && (#[trigger] p.arg_flows_at(edges[i], wired)).contains(e);
                assert(p.arg_flows_at(edges[i], wired).contains(e));
            } else {
                assert(more[k - before.len()] == e);
                assert(p.arg_flows_at(edges[n - 1], wired).contains(e));
            }
        }
        if exists|i: int| 0 <= i < n && (#[trigger] p.arg_flows_at(edges[i], wired)).contains(e) {
            let i = choose|i: int|
                0 <= i < n && (#[trigger] p.arg_flows_at(edges[i], wired)).contains(e);
            if i < n - 1 {
                assert(before.contains(e));
                let k = choose|k: int| 0 <= k < before.len() && before[k] == e;
                assert(after[k] == e);
            } else {
                let k = choose|k: int| 0 <= k < more.len() && more[k] == e;
                assert(after[before.len() + k] == e);
            }
        }
    }
}

/// The result of a larger budget holds that of a smaller one: its calls, and
/// where the arguments of calls go.
pub proof fn larger_budget_reports_no_less(
    p: ProgramV,
    retain: bool,
    models: Seq<ModelV>,
    small: u64,
    large: u64,
    ipc: bool,
)
    requires
        p.graph(models).constraints.len() <= usize::MAX,
        small <= large,
    ensures
        ({
            let a = p.analysis(retain, models, Some(small), ipc).1;
            let b = p.analysis(retain, models, Some(large), ipc).1;
            &&& forall|e: CallGraphEdge| #[trigger]
                a.call_edges.contains(e) ==> b.call_edges.contains(e)
            &&& forall|e: ArgFlowEdge| #[trigger]
                a.arg_flow_edges.contains(e) ==> b.arg_flow_edges.contains(e)
            &&& forall|e: (CallSiteId, u32)| #[trigger]
                a.terminator_events.contains(e) ==> b.terminator_events.contains(e)
        }),
{
    let g = solved_graph(p, models);
    let a = p.analysis(retain, models, Some(small), ipc).1;
    let b = p.analysis(retain, models, Some(large), ipc).1;
    analysis_ends(p, retain, models, Some(small), ipc);
    analysis_ends(p, retain, models, Some(large), ipc);
    larger_budget_finds_no_less(g, p, models, small as nat, (large - small) as nat);
    let end_a = g.start(p, models).run(p, models, small as nat);
    let end_b = g.start(p, models).run(p, models, large as nat);
    assert forall|e: CallGraphEdge| #[trigger] a.call_edges.contains(
        e,
    ) implies b.call_edges.contains(e) by {
        if end_a.edges.contains(e) {
            assert(end_b.edges.contains(e));
        }
    }
    assert forall|e: ArgFlowEdge| #[trigger] a.arg_flow_edges.contains(
        e,
    ) implies b.arg_flow_edges.contains(e) by {
        flows_hold(p, a.call_edges, a.wired_arg_flow, a.call_edges.len() as int, e);
        flows_hold(p, b.call_edges, b.wired_arg_flow, b.call_edges.len() as int, e);
        let i = choose|i: int|
            0 <= i < a.call_edges.len() && (#[trigger] p.arg_flows_at(
                a.call_edges[i],
                a.wired_arg_flow,
            )).contains(e);
        let edge = a.call_edges[i];
        assert(a.call_edges.contains(edge));
        assert(b.call_edges.contains(edge));
        let j = choose|j: int| 0 <= j < b.call_edges.len() && b.call_edges[j] == edge;
        match (p.site(edge.call_site), p.symbols.function(edge.callee)) {
            (Some(cs), Some(f)) => {
                if edge.call_site.0 != SYNTHETIC_CALL_SITE {
                    flows_of_grow(
                        cs,
                        edge.callee,
                        f.params,
                        a.wired_arg_flow,
                        b.wired_arg_flow,
                        f.params.len() as int,
                        e,
                    );
                }
            },
            _ => {},
        }
        assert(p.arg_flows_at(b.call_edges[j], b.wired_arg_flow).contains(e));
    }
}

} // verus!
