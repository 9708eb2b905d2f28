//! What the edges of a call graph say.

use crate::analysis::constraints::{CallGraphEdge, ResolutionKind};
use crate::analysis::growth::{holds, push_holds};
use crate::analysis::laws::{
    analysis_ends, before_calls, before_calls_sound, bridge_edge, bridged, loaded_in, looks,
    may_hold, on_track, popped, solved_graph, start_keeps, step_keeps, taken_facts,
};
use crate::analysis::models::ModelV;
use crate::analysis::pag::{list_of, PagV};
use crate::analysis::progress::{
    called, called_grows, direct_edge, extended, extended_trans, first_look_grows, indirect_edge,
    modeled_grows, run_grown, run_sound, run_trans, wired_to_grows, with_addresses_grows,
    with_callees_grows, with_copies_grows, with_direct_calls_grows, with_direct_grows,
    with_edge_grows, with_geps_grows, with_indirect_grows, with_loads_grows, with_lookups_grows,
    with_returns_grows, with_stores_grows,
};
use crate::analysis::solver::{LookV, RunV};
use crate::analysis::state::SolverV;
use crate::ir::ids::{CallSiteId, FnId, LocId, VarId};
use crate::ir::program::ProgramV;
use crate::ir::symbol::{position_found, SiteV};
use vstd::prelude::*;

verus! {

/// Whether an edge is that of a call site to one of the functions that it
/// reaches without any pointer.
pub open spec fn names_its_callee(p: ProgramV, e: CallGraphEdge, k: int, i: int) -> bool {
    &&& 0 <= k < p.symbols.call_sites.len()
    &&& 0 <= i < p.direct_callees(p.symbols.call_sites[k]).len()
    &&& p.symbols.function(p.direct_callees(p.symbols.call_sites[k])[i]) is Some
    &&& e == direct_edge(
        p,
        p.symbols.call_sites[k],
        p.direct_callees(p.symbols.call_sites[k])[i],
    )
}

/// Whether a function is reached through a place that is a function.
pub open spec fn leads_to(p: ProgramV, g: PagV, l: u32, f: FnId) -> bool {
    match g.function_at(LocId(l)) {
        Some(x) => p.reached(x).contains(f),
        None => false,
    }
}

/// Whether an edge is that of a call through a node, to a function that is
/// reached through a place.
pub open spec fn is_call_through(
    p: ProgramV,
    g: PagV,
    e: CallGraphEdge,
    s: CallSiteId,
    n: u32,
    l: u32,
) -> bool {
    &&& list_of(g.indices.indirect_by_target, n).contains(s)
    &&& leads_to(p, g, l, e.callee)
    &&& match p.site(s) {
        Some(cs) => e == indirect_edge(cs.id.0, cs.caller, e.callee),
        None => false,
    }
}

spec fn is_held(st: SolverV, n: u32, l: u32) -> bool {
    holds(st, n, l)
}

spec fn has_reason(p: ProgramV, g: PagV, st: SolverV, e: CallGraphEdge) -> bool {
    ||| exists|k: int, i: int| #[trigger] names_its_callee(p, e, k, i)
    ||| exists|s: CallSiteId, n: u32, l: u32| #[trigger]
        is_call_through(p, g, e, s, n, l) && is_held(st, n, l)
}

spec fn edges_sound(p: ProgramV, g: PagV, r: RunV) -> bool {
    forall|e: CallGraphEdge| #[trigger] r.edges.contains(e) ==> has_reason(p, g, r.st, e)
}

proof fn reason_stays(p: ProgramV, g: PagV, a: SolverV, b: SolverV, e: CallGraphEdge)
    requires
        has_reason(p, g, a, e),
        forall|n: u32, l: u32| #[trigger] holds(a, n, l) ==> holds(b, n, l),
    ensures
        has_reason(p, g, b, e),
{
    if exists|s: CallSiteId, n: u32, l: u32| #[trigger]
        is_call_through(p, g, e, s, n, l) && is_held(a, n, l) {
        let (s, n, l) = choose|s: CallSiteId, n: u32, l: u32| #[trigger]
            is_call_through(p, g, e, s, n, l) && is_held(a, n, l);
        assert(holds(a, n, l));
        assert(is_call_through(p, g, e, s, n, l) && is_held(b, n, l));
    }
}

/// Where no edge is added, every edge keeps its reason.
proof fn reasons_stay(a: RunV, b: RunV, p: ProgramV, g: PagV, loaded: Set<u32>)
    requires
        run_grown(a, b, loaded),
        b.edges == a.edges,
        edges_sound(p, g, a),
    ensures
        edges_sound(p, g, b),
{
    assert forall|e: CallGraphEdge| #[trigger] b.edges.contains(e) implies has_reason(
        p,
        g,
        b.st,
        e,
    ) by {
        reason_stays(p, g, a.st, b.st, e);
    }
}

proof fn one_more(p: ProgramV, g: PagV, r: RunV, e: CallGraphEdge)
    requires
        edges_sound(p, g, r),
        has_reason(p, g, r.st, e),
    ensures
        edges_sound(p, g, RunV { edges: r.edges.push(e), ..r }),
{
    let b = RunV { edges: r.edges.push(e), ..r };
    assert forall|x: CallGraphEdge| #[trigger] b.edges.contains(x) implies has_reason(
        p,
        g,
        b.st,
        x,
    ) by {
        push_holds(r.edges, e, x);
    }
}

proof fn params_keep_edges(
    a: RunV,
    p: ProgramV,
    cs: SiteV,
    callee: FnId,
    params: Seq<VarId>,
    n: int,
)
    ensures
        a.with_params(p, cs, callee, params, n).edges == a.edges,
    decreases n,
{
    if n > 0 {
        params_keep_edges(a, p, cs, callee, params, n - 1);
    }
}

pub proof fn wiring_keeps_edges(a: RunV, p: ProgramV, cs: SiteV, callee: FnId)
    ensures
        a.wired_to(p, cs, callee).edges == a.edges,
{
    match p.symbols.function(callee) {
        Some(f) => {
            params_keep_edges(a, p, cs, callee, f.params, f.params.len() as int);
        },
        None => {},
    }
}

proof fn direct_sound(
    a: RunV,
    p: ProgramV,
    models: Seq<ModelV>,
    g: PagV,
    k: int,
    n: int,
    loaded: Set<u32>,
)
    requires
        run_sound(a, loaded),
        edges_sound(p, g, a),
        0 <= k < p.symbols.call_sites.len(),
        n <= p.direct_callees(p.symbols.call_sites[k]).len(),
    ensures
        edges_sound(
            p,
            g,
            a.with_direct(
                p,
                models,
                p.symbols.call_sites[k],
                p.direct_callees(p.symbols.call_sites[k]),
                n,
            ),
        ),
    decreases n,
{
    if n > 0 {
        let cs = p.symbols.call_sites[k];
        let callees = p.direct_callees(cs);
        direct_sound(a, p, models, g, k, n - 1, loaded);
        with_direct_grows(a, p, models, cs, callees, n - 1, loaded);
        let r = a.with_direct(p, models, cs, callees, n - 1);
        let callee = callees[n - 1];
        match p.symbols.function(callee) {
            Some(f) => {
                let e = direct_edge(p, cs, callee);
                assert(names_its_callee(p, e, k, n - 1));
                one_more(p, g, r, e);
                let r1 = RunV { edges: r.edges.push(e), ..r };
                with_edge_grows(r, r1, e, loaded);
                wiring_keeps_edges(r1, p, cs, callee);
                wired_to_grows(r1, p, cs, callee, loaded);
                let r2 = r1.wired_to(p, cs, callee);
                reasons_stay(r1, r2, p, g, loaded);
                modeled_grows(r2, models, cs, f.name, loaded);
                reasons_stay(r2, r2.modeled(models, cs, f.name), p, g, loaded);
            },
            None => {},
        }
    }
}

proof fn direct_calls_sound(
    a: RunV,
    p: ProgramV,
    models: Seq<ModelV>,
    g: PagV,
    n: int,
    loaded: Set<u32>,
)
    requires
        run_sound(a, loaded),
        edges_sound(p, g, a),
        n <= p.symbols.call_sites.len(),
    ensures
        edges_sound(p, g, a.with_direct_calls(p, models, n)),
    decreases n,
{
    if n > 0 {
        direct_calls_sound(a, p, models, g, n - 1, loaded);
        with_direct_calls_grows(a, p, models, n - 1, loaded);
        direct_sound(
            a.with_direct_calls(p, models, n - 1),
            p,
            models,
            g,
            n - 1,
            p.direct_callees(p.symbols.call_sites[n - 1]).len() as int,
            loaded,
        );
    }
}

/// Whether a function is reached through one of the places that a node holds.
spec fn held_by(p: ProgramV, g: PagV, st: SolverV, n: u32, f: FnId) -> bool {
    exists|l: u32| #[trigger] leads_to(p, g, l, f) && is_held(st, n, l)
}

proof fn held_stays(p: ProgramV, g: PagV, a: SolverV, b: SolverV, n: u32, f: FnId)
    requires
        held_by(p, g, a, n, f),
        forall|n: u32, l: u32| #[trigger] holds(a, n, l) ==> holds(b, n, l),
    ensures
        held_by(p, g, b, n, f),
{
    let l = choose|l: u32| #[trigger] leads_to(p, g, l, f) && is_held(a, n, l);
    assert(holds(a, n, l));
    assert(leads_to(p, g, l, f) && is_held(b, n, l));
}

proof fn callees_sound(
    a: RunV,
    p: ProgramV,
    models: Seq<ModelV>,
    g: PagV,
    s: CallSiteId,
    node: u32,
    callees: Seq<FnId>,
    n: int,
    loaded: Set<u32>,
)
    requires
        run_sound(a, loaded),
        edges_sound(p, g, a),
        n <= callees.len(),
        p.site(s) is Some,
        list_of(g.indices.indirect_by_target, node).contains(s),
        forall|i: int| 0 <= i < callees.len() ==> held_by(p, g, a.st, node, #[trigger] callees[i]),
    ensures
        edges_sound(p, g, a.with_callees(p, models, p.site(s)->0, callees, n)),
    decreases n,
{
    if n > 0 {
        let cs = p.site(s)->0;
        callees_sound(a, p, models, g, s, node, callees, n - 1, loaded);
        with_callees_grows(a, p, models, cs, callees, n - 1, loaded);
        let r = a.with_callees(p, models, cs, callees, n - 1);
        let callee = callees[n - 1];
        let known = list_of(r.resolved, cs.id.0);
        if !known.contains(callee) {
            let e = indirect_edge(cs.id.0, cs.caller, callee);
            held_stays(p, g, a.st, r.st, node, callee);
            let l = choose|l: u32| #[trigger] leads_to(p, g, l, callee) && is_held(r.st, node, l);
            assert(is_call_through(p, g, e, s, node, l) && is_held(r.st, node, l));
            one_more(p, g, r, e);
            let r2 = called(r, cs, callee);
            called_grows(r, cs, callee, loaded);
            assert(edges_sound(p, g, r2));
            wiring_keeps_edges(r2, p, cs, callee);
            wired_to_grows(r2, p, cs, callee, loaded);
            let r3 = r2.wired_to(p, cs, callee);
            reasons_stay(r2, r3, p, g, loaded);
            with_returns_grows(r3, p, models, cs, callee, loaded);
            let r4 = r3.with_returns(p, models, cs, callee);
            reasons_stay(r3, r4, p, g, loaded);
            match p.symbols.function(callee) {
                Some(f) => {
                    modeled_grows(r4, models, cs, f.name, loaded);
                    reasons_stay(r4, r4.modeled(models, cs, f.name), p, g, loaded);
                },
                None => {},
            }
        }
    }
}

proof fn reached_is_held(a: RunV, p: ProgramV, g: PagV, delta: Seq<u32>, k: int, node: u32, f: FnId)
    requires
        0 <= k <= delta.len(),
        extended(g, a.pag),
        forall|l: u32| #[trigger] delta.contains(l) ==> holds(a.st, node, l),
        a.reached(p, delta, k).contains(f),
    ensures
        held_by(p, g, a.st, node, f),
    decreases k,
{
    if k > 0 {
        let before = a.reached(p, delta, k - 1);
        let l = delta[k - 1];
        assert(a.pag.function_at(LocId(l)) == g.function_at(LocId(l)));
        match a.pag.function_at(LocId(l)) {
            Some(x) => {
                let all = before + p.reached(x);
                let m = choose|m: int| 0 <= m < all.len() && all[m] == f;
                if m < before.len() {
                    assert(before[m] == f);
                    assert(before.contains(f));
                    reached_is_held(a, p, g, delta, k - 1, node, f);
                } else {
                    assert(p.reached(x)[m - before.len()] == f);
                    assert(p.reached(x).contains(f));
                    assert(delta.contains(l));
                    assert(leads_to(p, g, l, f) && is_held(a.st, node, l));
                }
            },
            None => {
                reached_is_held(a, p, g, delta, k - 1, node, f);
            },
        }
    }
}

proof fn indirect_sound(a: RunV, look: LookV, g: PagV, sites: Seq<CallSiteId>, n: int)
    requires
        run_sound(a, loaded_in(g)),
        extended(g, a.pag),
        edges_sound(look.p, g, a),
        0 <= n <= sites.len(),
        sites == list_of(g.indices.indirect_by_target, look.node),
        forall|l: u32| #[trigger] look.delta.contains(l) ==> holds(a.st, look.node, l),
    ensures
        edges_sound(look.p, g, a.with_indirect(look, sites, n)),
    decreases n,
{
    if n > 0 {
        let from = loaded_in(g);
        indirect_sound(a, look, g, sites, n - 1);
        with_indirect_grows(a, look, sites, n - 1, from);
        let r = a.with_indirect(look, sites, n - 1);
        extended_trans(g, a.pag, r.pag);
        match look.p.site(sites[n - 1]) {
            Some(cs) => {
                let callees = r.reached(look.p, look.delta, look.delta.len() as int);
                assert forall|i: int| 0 <= i < callees.len() implies held_by(
                    look.p,
                    g,
                    r.st,
                    look.node,
                    #[trigger] callees[i],
                ) by {
                    assert(callees.contains(callees[i]));
                    reached_is_held(
                        r,
                        look.p,
                        g,
                        look.delta,
                        look.delta.len() as int,
                        look.node,
                        callees[i],
                    );
                }
                assert(sites.contains(sites[n - 1]));
                callees_sound(
                    r,
                    look.p,
                    look.models,
                    g,
                    sites[n - 1],
                    look.node,
                    callees,
                    callees.len() as int,
                    from,
                );
            },
            None => {},
        }
    }
}

proof fn travel_sound(a: RunV, look: LookV, g: PagV)
    requires
        run_sound(a, loaded_in(g)),
        extended(g, a.pag),
        edges_sound(look.p, g, a),
        forall|l: u32| #[trigger] look.delta.contains(l) ==> holds(a.st, look.node, l),
    ensures
        edges_sound(look.p, g, a.travelled(look)),
{
    let from = loaded_in(g);
    let node = look.node;
    let delta = look.delta;
    let copies = list_of(a.pag.indices.copy_src, node);
    let r1 = a.with_copies(delta, copies, copies.len() as int);
    with_copies_grows(a, delta, copies, copies.len() as int, from);
    let addrs = list_of(r1.pag.indices.addr_of_dst, node);
    let r2 = r1.with_addresses(node, addrs, addrs.len() as int);
    with_addresses_grows(r1, node, addrs, addrs.len() as int, from);
    run_trans(a, r1, r2, from);
    let loads = list_of(r2.pag.indices.load_src, node);
    let r3 = r2.with_loads(delta, loads, loads.len() as int);
    with_loads_grows(r2, delta, loads, loads.len() as int, from);
    run_trans(a, r2, r3, from);
    let into = list_of(r3.pag.indices.store_dst, node);
    let r4 = r3.with_stores(Some(delta), into, into.len() as int);
    with_stores_grows(r3, Some(delta), into, into.len() as int, from);
    run_trans(a, r3, r4, from);
    let out = list_of(r4.pag.indices.store_src, node);
    let r5 = r4.with_stores(None, out, out.len() as int);
    with_stores_grows(r4, None, out, out.len() as int, from);
    run_trans(a, r4, r5, from);
    let geps = list_of(r5.pag.indices.gep_src, node);
    let r6 = r5.with_geps(look, geps, geps.len() as int);
    with_geps_grows(r5, look, geps, geps.len() as int, from);
    run_trans(a, r5, r6, from);
    let lookups = list_of(r6.pag.indices.dlsym_src, node);
    let r7 = r6.with_lookups(look, lookups, lookups.len() as int);
    with_lookups_grows(r6, look, lookups, lookups.len() as int, from);
    run_trans(a, r6, r7, from);
    reasons_stay(a, r7, look.p, g, from);
    extended_trans(g, a.pag, r7.pag);
    assert forall|l: u32| #[trigger] delta.contains(l) implies holds(r7.st, node, l) by {
        assert(holds(a.st, node, l));
    }
    let calls = list_of(r7.pag.indices.indirect_by_target, node);
    indirect_sound(r7, look, g, calls, calls.len() as int);
}

proof fn step_sound(r: RunV, p: ProgramV, models: Seq<ModelV>, g: PagV)
    requires
        run_sound(r, loaded_in(g)),
        extended(g, r.pag),
        edges_sound(p, g, r),
        r.st.worklist.len() > 0,
    ensures
        edges_sound(p, g, r.step(p, models)),
{
    let from = loaded_in(g);
    let node = r.st.worklist.last();
    let st = popped(r.st);
    let delta = list_of(st.delta, node);
    let r0 = r.with_st(st.taken(node));
    taken_facts(r.st);
    assert(run_sound(r0, from));
    assert(edges_sound(p, g, r0)) by {
        assert forall|e: CallGraphEdge| #[trigger] r0.edges.contains(e) implies has_reason(
            p,
            g,
            r0.st,
            e,
        ) by {
            assert forall|n: u32, l: u32| #[trigger] holds(r.st, n, l) implies holds(
                r0.st,
                n,
                l,
            ) by {
                assert(holds(r0.st, n, l) <==> holds(r.st, n, l));
            }
            reason_stays(p, g, r.st, r0.st, e);
        }
    }
    if delta.len() == 0 {
        first_look_grows(r0, p, node, from);
        reasons_stay(r0, r0.first_look(p, node), p, g, from);
    } else {
        assert forall|l: u32| #[trigger] delta.contains(l) implies holds(r0.st, node, l) by {
            assert(list_of(r.st.delta, node).contains(l));
            assert(holds(r.st, node, l));
            assert(holds(r0.st, node, l) <==> holds(r.st, node, l));
        }
        travel_sound(r0, LookV { p, models, node, delta }, g);
    }
}

proof fn edges_of_run(r: RunV, p: ProgramV, models: Seq<ModelV>, g: PagV, budget: nat)
    requires
        run_sound(r, loaded_in(g)),
        extended(g, r.pag),
        g.constraints.len() <= usize::MAX,
        on_track(r, g, p),
        edges_sound(p, g, r),
    ensures
        edges_sound(p, g, r.run(p, models, budget)),
    decreases budget,
{
    if r.st.worklist.len() == 0 {
    } else if budget == 0 {
        let end = r.run(p, models, 0);
        assert forall|e: CallGraphEdge| #[trigger] end.edges.contains(e) implies has_reason(
            p,
            g,
            end.st,
            e,
        ) by {
            assert forall|n: u32, l: u32| #[trigger] holds(r.st, n, l) implies holds(
                end.st,
                n,
                l,
            ) by {}
            reason_stays(p, g, r.st, end.st, e);
        }
    } else {
        step_keeps(r, p, models, g);
        step_sound(r, p, models, g);
        edges_of_run(r.step(p, models), p, models, g, (budget - 1) as nat);
    }
}

/// Whether an edge is that of a call through a node that may hold a function,
/// to a function that is reached through it.
pub open spec fn follows_a_pointer(
    p: ProgramV,
    models: Seq<ModelV>,
    budget: Option<u64>,
    e: CallGraphEdge,
    s: CallSiteId,
    n: u32,
    l: u32,
) -> bool {
    let g = solved_graph(p, models);
    is_call_through(p, g, e, s, n, l) && may_hold(g, p, models, looks(p, models, budget), n, l)
}

/// Every edge of a result has its reason: it is one of a bridge, one of a call
/// site to a function that it reaches by name, or one of a call through a
/// pointer that may hold a function, to what is reached through that function.
/// An edge by name is direct if the function has a body, and external if it
/// has none.
pub proof fn edges_have_reasons(
    p: ProgramV,
    retain: bool,
    models: Seq<ModelV>,
    budget: Option<u64>,
    ipc: bool,
    e: CallGraphEdge,
)
    requires
        p.graph(models).constraints.len() <= usize::MAX,
        p.analysis(retain, models, budget, ipc).1.call_edges.contains(e),
    ensures
        match e.resolution {
            ResolutionKind::Direct => (exists|k: int, i: int| #[trigger]
                names_its_callee(p, e, k, i)) && p.symbols.function(e.callee)->0.is_defined,
            ResolutionKind::External => (exists|k: int, i: int| #[trigger]
                names_its_callee(p, e, k, i)) && !p.symbols.function(e.callee)->0.is_defined,
            ResolutionKind::Indirect => exists|s: CallSiteId, n: u32, l: u32| #[trigger]
                follows_a_pointer(p, models, budget, e, s, n, l),
            ResolutionKind::IpcBridge => bridged(
                p,
                p.asked_graph(models, ipc),
                e,
                p.asked_graph(models, ipc).ipc_bridges.len() as int,
            ),
            ResolutionKind::Ambiguous => false,
        },
{
    let g = solved_graph(p, models);
    let a = before_calls(g, p);
    let start = g.start(p, models);
    before_calls_sound(g, p, models);
    start_keeps(g, p, models);
    assert(edges_sound(p, g, a));
    direct_calls_sound(a, p, models, g, p.symbols.call_sites.len() as int, loaded_in(g));
    edges_of_run(start, p, models, g, looks(p, models, budget));
    analysis_ends(p, retain, models, budget, ipc);
    let end = start.run(p, models, looks(p, models, budget));
    if end.edges.contains(e) {
        assert(has_reason(p, g, end.st, e));
        if exists|k: int, i: int| #[trigger] names_its_callee(p, e, k, i) {
            let (k, i) = choose|k: int, i: int| #[trigger] names_its_callee(p, e, k, i);
            assert(names_its_callee(p, e, k, i));
        } else {
            let (s, n, l) = choose|s: CallSiteId, n: u32, l: u32| #[trigger]
                is_call_through(p, g, e, s, n, l) && is_held(end.st, n, l);
            assert(holds(end.st, n, l));
            assert(follows_a_pointer(p, models, budget, e, s, n, l));
        }
    } else {
        let asked = p.asked_graph(models, ipc);
        let i = choose|i: int|
            0 <= i < asked.ipc_bridges.len() && #[trigger] bridge_edge(p, asked, i) == Some(e);
        assert(bridge_edge(p, asked, i) == Some(e));
    }
}

proof fn defined_are_known(p: ProgramV, fns: Seq<FnId>, n: int, f: FnId)
    requires
        p.defined_among(fns, n).contains(f),
    ensures
        p.symbols.function(f) is Some,
    decreases n,
{
    if n > 0 {
        let all = p.defined_among(fns, n);
        let before = p.defined_among(fns, n - 1);
        let k = choose|k: int| 0 <= k < all.len() && all[k] == f;
        if k < before.len() {
            assert(before[k] == f);
            assert(before.contains(f));
            defined_are_known(p, fns, n - 1, f);
        }
    }
}

proof fn reached_are_known(p: ProgramV, x: FnId, f: FnId)
    requires
        p.reached(x).contains(f),
    ensures
        p.symbols.function(f) is Some,
{
    let func = p.symbols.function(x)->0;
    if !func.is_defined {
        let all = p.symbols.candidates(func.name, Some(func.file));
        let some = p.defined_among(all, all.len() as int);
        push_holds(some, x, f);
        if some.contains(f) {
            defined_are_known(p, all, all.len() as int, f);
        }
    }
}

/// Every edge of a result leads to a function of the program, and, if it is
/// not one of a bridge, from a call site of the program and the function that
/// the site is in.
pub proof fn edges_stay_in_the_program(
    p: ProgramV,
    retain: bool,
    models: Seq<ModelV>,
    budget: Option<u64>,
    ipc: bool,
    e: CallGraphEdge,
)
    requires
        p.graph(models).constraints.len() <= usize::MAX,
        p.analysis(retain, models, budget, ipc).1.call_edges.contains(e),
    ensures
        exists|i: int|
            0 <= i < p.symbols.functions.len() && (#[trigger] p.symbols.functions[i]).id
                == e.callee,
        e.resolution != ResolutionKind::IpcBridge ==> exists|k: int|
            0 <= k < p.symbols.call_sites.len() && (#[trigger] p.symbols.call_sites[k]).id
                == e.call_site && p.symbols.call_sites[k].caller == e.caller,
{
    let g = solved_graph(p, models);
    edges_have_reasons(p, retain, models, budget, ipc, e);
    match e.resolution {
        ResolutionKind::Direct | ResolutionKind::External => {
            let (k, i) = choose|k: int, i: int| #[trigger] names_its_callee(p, e, k, i);
            assert(p.symbols.call_sites[k].id == e.call_site);
            assert(p.symbols.function(e.callee) is Some);
        },
        ResolutionKind::Indirect => {
            let (s, n, l) = choose|s: CallSiteId, n: u32, l: u32| #[trigger]
                follows_a_pointer(p, models, budget, e, s, n, l);
            reached_are_known(p, g.function_at(LocId(l))->0, e.callee);
            assert(p.symbols.call_sites[s.0 as int].id == e.call_site);
        },
        ResolutionKind::IpcBridge => {
            let asked = p.asked_graph(models, ipc);
            let n = asked.ipc_bridges.len() as int;
            let i = choose|i: int| 0 <= i < n && #[trigger] bridge_edge(p, asked, i) == Some(e);
            assert(p.symbols.function(e.callee) is Some);
        },
        ResolutionKind::Ambiguous => {},
    }
    position_found(p.symbols.functions, e.callee, 0);
}

} // verus!
