//! What is passed to a function reaches its parameters.

use crate::analysis::constraints::ArgFlowEdge;
use crate::analysis::growth::{holds, listed_holds, push_holds, same_contents, spread_grows, waits};
use crate::analysis::laws::{
    analysis_ends, before_calls, before_calls_sound, flows_hold, loaded_in, looks, may_hold,
    nothing_waits, on_track, popped, run_keeps, solved_graph, start_keeps, step_keeps, taken_facts,
    unlimited_results_are_whole,
};
use crate::analysis::models::ModelV;
use crate::analysis::pag::{arg_at, list_of, PagV};
use crate::analysis::progress::{
    called, called_grows, direct_edge, extended, first_look_grows, modeled_grows, run_grown,
    run_sound, run_trans, run_with_st, wired_to_grows, with_addresses_grows, with_callees_grows,
    with_copies_grows, with_copy_grows, with_direct_calls_grows, with_direct_grows, with_edge_grows,
    with_geps_grows, with_indirect_grows, with_loads_grows, with_lookups_grows, with_param_grows,
    with_params_grows, with_returns_grows, with_stores_grows,
};
use crate::analysis::solver::{arg_flow_of, arg_flows_of, fn_arg_at, LookV, RunV};
use crate::analysis::state::SolverV;
use crate::ir::ids::{CallSiteId, FnId, VarId};
use crate::ir::program::ProgramV;
use crate::ir::symbol::SiteV;
use crate::ir::types::DescV;
use vstd::prelude::*;

verus! {

/// Whether one of the copies that begin at a node ends at another.
pub open spec fn has_copy(g: PagV, from: u32, to: u32) -> bool {
    exists|i: usize| #[trigger]
        list_of(g.indices.copy_src, from).contains(i) && g.constraint(i) is Some && g.constraint(
            i,
        )->0.dst.0 == to
}

/// What a node holds has reached another, or is news.
pub open spec fn passed(r: RunV, from: u32, to: u32) -> bool {
    forall|l: u32| #[trigger] holds(r.st, from, l) ==> holds(r.st, to, l) || waits(r.st, from, l)
}

/// Whether what is passed at a position of a call is copied to the parameter
/// that takes it, where both can bear on which functions are called.
pub open spec fn copied_to_param(r: RunV, p: ProgramV, site: u32, k: u32, callee: u32) -> bool {
    match (p.site(CallSiteId(site)), p.symbols.function(FnId(callee))) {
        (Some(cs), Some(f)) => match arg_at(cs.var_args, k, 0) {
            Some(v) => k < f.params.len() && p.may_hold_pointee(v) && p.may_hold_pointee(
                f.params[k as int],
            ) ==> match (r.pag.node_of_var(v), r.pag.node_of_var(f.params[k as int])) {
                (Some(a), Some(b)) => r.st.wired_copies.contains((a.0, b.0)),
                _ => false,
            },
            None => true,
        },
        _ => true,
    }
}

/// What every state of a run keeps to as far as arguments are concerned.
pub open spec fn arguments_sound(r: RunV, p: ProgramV) -> bool {
    &&& forall|a: u32, b: u32| #[trigger]
        r.st.wired_copies.contains((a, b)) ==> passed(r, a, b) && (r.pag.constraints.len()
            <= usize::MAX ==> has_copy(r.pag, a, b))
    &&& forall|s: u32, k: u32, c: u32| #[trigger]
        r.wired.contains((s, k, c)) ==> copied_to_param(r, p, s, k, c)
}

proof fn copy_stays(a: PagV, b: PagV, from: u32, to: u32)
    requires
        extended(a, b),
        has_copy(a, from, to),
    ensures
        has_copy(b, from, to),
{
    let i = choose|i: usize| #[trigger]
        list_of(a.indices.copy_src, from).contains(i) && a.constraint(i) is Some && a.constraint(
            i,
        )->0.dst.0 == to;
    assert(list_of(b.indices.copy_src, from).contains(i));
    assert(b.constraints.take(a.constraints.len() as int)[i as int] == a.constraints[i as int]);
    assert(b.constraint(i) == a.constraint(i));
}

proof fn passed_stays(a: RunV, b: RunV, from: u32, to: u32, loaded: Set<u32>)
    requires
        run_grown(a, b, loaded),
        passed(a, from, to),
    ensures
        passed(b, from, to),
{
    assert forall|l: u32| #[trigger] holds(b.st, from, l) implies holds(b.st, to, l) || waits(
        b.st,
        from,
        l,
    ) by {
        if holds(a.st, from, l) {
            if holds(a.st, to, l) {
            } else {
                assert(waits(a.st, from, l));
            }
        }
    }
}

proof fn param_stays(a: RunV, b: RunV, p: ProgramV, s: u32, k: u32, c: u32)
    requires
        extended(a.pag, b.pag),
        a.st.wired_copies.subset_of(b.st.wired_copies),
        copied_to_param(a, p, s, k, c),
    ensures
        copied_to_param(b, p, s, k, c),
{
}

/// Where nothing new is wired, what is wired stays so.
proof fn arguments_kept(a: RunV, b: RunV, p: ProgramV, loaded: Set<u32>)
    requires
        run_grown(a, b, loaded),
        b.wired == a.wired,
        b.st.wired_copies == a.st.wired_copies,
        arguments_sound(a, p),
    ensures
        arguments_sound(b, p),
{
    assert forall|x: u32, y: u32| #[trigger] b.st.wired_copies.contains((x, y)) implies passed(
        b,
        x,
        y,
    ) && (b.pag.constraints.len() <= usize::MAX ==> has_copy(b.pag, x, y)) by {
        assert(a.st.wired_copies.contains((x, y)));
        passed_stays(a, b, x, y, loaded);
        if b.pag.constraints.len() <= usize::MAX {
            copy_stays(a.pag, b.pag, x, y);
        }
    }
    assert forall|s: u32, k: u32, c: u32| #[trigger] b.wired.contains(
        (s, k, c),
    ) implies copied_to_param(b, p, s, k, c) by {
        assert(a.wired.contains((s, k, c)));
        param_stays(a, b, p, s, k, c);
    }
}

/// The argument at a position is wired to its parameter.
proof fn with_param_passes(
    a: RunV,
    p: ProgramV,
    cs: SiteV,
    callee: FnId,
    formal: VarId,
    k: u32,
    loaded: Set<u32>,
)
    requires
        run_sound(a, loaded),
        arguments_sound(a, p),
        p.site(cs.id) == Some(cs),
        p.symbols.function(callee) is Some,
        k < p.symbols.function(callee)->0.params.len(),
        formal == p.symbols.function(callee)->0.params[k as int],
    ensures
        arguments_sound(a.with_param(p, cs, callee, formal, k), p),
{
    let b = a.with_param(p, cs, callee, formal, k);
    with_param_grows(a, p, cs, callee, formal, k, loaded);
    match arg_at(cs.var_args, k, 0) {
        Some(actual) => {
            match (a.pag.node_of_var(formal), a.pag.node_of_var(actual)) {
                (Some(f), Some(n)) => {
                    let both = p.may_hold_pointee(actual) && p.may_hold_pointee(formal);
                    let st = SolverV {
                        wired_copies: a.st.wired_copies.insert((n.0, f.0)),
                        ..a.st
                    };
                    let s = a.with_st(st);
                    same_contents(a.st, st, loaded);
                    run_with_st(a, st, loaded);
                    with_copy_grows(s, n, f, loaded);
                    let r = if both {
                        if a.st.wired_copies.contains((n.0, f.0)) {
                            s
                        } else {
                            s.with_copy(n, f)
                        }
                    } else {
                        a
                    };
                    let t = r.with_st(r.st.spread(f.0, r.st.pts_of(n.0)));
                    spread_grows(r.st, f.0, r.st.pts_of(n.0), loaded);
                    assert(a.st.wired_copies.subset_of(b.st.wired_copies));
                    assert(passed(b, n.0, f.0)) by {
                        assert forall|l: u32| #[trigger] holds(b.st, n.0, l) implies holds(
                            b.st,
                            f.0,
                            l,
                        ) || waits(b.st, n.0, l) by {
                            assert(holds(t.st, n.0, l));
                            if holds(r.st, n.0, l) {
                                assert(r.st.pts_of(n.0).contains(l));
                                assert(holds(t.st, f.0, l));
                            }
                        }
                    }
                    assert forall|x: u32, y: u32| #[trigger]
                        b.st.wired_copies.contains((x, y)) implies passed(b, x, y) && (
                    b.pag.constraints.len() <= usize::MAX ==> has_copy(b.pag, x, y)) by {
                        if a.st.wired_copies.contains((x, y)) {
                            passed_stays(a, b, x, y, loaded);
                            if b.pag.constraints.len() <= usize::MAX {
                                copy_stays(a.pag, b.pag, x, y);
                            }
                        } else {
                            assert(both && x == n.0 && y == f.0);
                            if b.pag.constraints.len() <= usize::MAX {
                                let i = s.pag.constraints.len() as usize;
                                listed_holds(s.pag.indices.copy_src, n.0, i);
                                assert(list_of(b.pag.indices.copy_src, n.0).contains(i));
                                assert(b.pag.constraints[i as int].dst == f);
                                assert(b.pag.constraint(i) is Some);
                            }
                        }
                    }
                    assert forall|x: u32, j: u32, c: u32| #[trigger]
                        b.wired.contains((x, j, c)) implies copied_to_param(b, p, x, j, c) by {
                        if a.wired.contains((x, j, c)) {
                            param_stays(a, b, p, x, j, c);
                        } else {
                            assert(x == cs.id.0 && j == k && c == callee.0);
                            assert(b.pag.node_of_var(formal) == a.pag.node_of_var(formal));
                            assert(b.pag.node_of_var(actual) == a.pag.node_of_var(actual));
                            assert(CallSiteId(x) == cs.id);
                            assert(FnId(c) == callee);
                        }
                    }
                },
                _ => {},
            }
        },
        None => {
            assert(same_copies(a, b)) by {
                match fn_arg_at(cs.fn_args, k, 0) {
                    Some(g) => {
                        match (a.pag.node_of_var(formal), a.pag.fn_location(g)) {
                            (Some(f), Some(l)) => {
                                spread_grows(a.st, f.0, seq![l.0], loaded);
                            },
                            _ => {},
                        }
                    },
                    None => {},
                }
            }
            assert forall|x: u32, y: u32| #[trigger] b.st.wired_copies.contains(
                (x, y),
            ) implies passed(b, x, y) && (b.pag.constraints.len() <= usize::MAX ==> has_copy(
                b.pag,
                x,
                y,
            )) by {
                assert(a.st.wired_copies.contains((x, y)));
                passed_stays(a, b, x, y, loaded);
                if b.pag.constraints.len() <= usize::MAX {
                    copy_stays(a.pag, b.pag, x, y);
                }
            }
            assert forall|x: u32, j: u32, c: u32| #[trigger] b.wired.contains(
                (x, j, c),
            ) implies copied_to_param(b, p, x, j, c) by {
                if a.wired.contains((x, j, c)) {
                    param_stays(a, b, p, x, j, c);
                } else {
                    assert(CallSiteId(x) == cs.id && j == k);
                }
            }
        },
    }
}

/// Whether the same copies are wired in two states of a run.
spec fn same_copies(a: RunV, b: RunV) -> bool {
    b.st.wired_copies == a.st.wired_copies
}

proof fn with_params_passes(
    a: RunV,
    p: ProgramV,
    cs: SiteV,
    callee: FnId,
    params: Seq<VarId>,
    n: int,
    loaded: Set<u32>,
)
    requires
        run_sound(a, loaded),
        arguments_sound(a, p),
        p.site(cs.id) == Some(cs),
        p.symbols.function(callee) is Some,
        params == p.symbols.function(callee)->0.params,
        n <= params.len() <= u32::MAX,
    ensures
        arguments_sound(a.with_params(p, cs, callee, params, n), p),
    decreases n,
{
    if n > 0 {
        with_params_passes(a, p, cs, callee, params, n - 1, loaded);
        with_params_grows(a, p, cs, callee, params, n - 1, loaded);
        let r = a.with_params(p, cs, callee, params, n - 1);
        with_param_passes(r, p, cs, callee, params[n - 1], (n - 1) as u32, loaded);
    }
}

/// Whether no function has more parameters than can be counted, and every call
/// site has its position as its identifier.
pub open spec fn well_numbered(p: ProgramV) -> bool {
    &&& forall|f: FnId| #[trigger]
        p.symbols.function(f) is Some ==> p.symbols.function(f)->0.params.len() <= u32::MAX
    &&& forall|k: int|
        0 <= k < p.symbols.call_sites.len() ==> (#[trigger] p.symbols.call_sites[k]).id.0 == k
}

proof fn wired_to_passes(a: RunV, p: ProgramV, cs: SiteV, callee: FnId, loaded: Set<u32>)
    requires
        run_sound(a, loaded),
        arguments_sound(a, p),
        well_numbered(p),
        p.site(cs.id) == Some(cs),
    ensures
        arguments_sound(a.wired_to(p, cs, callee), p),
{
    match p.symbols.function(callee) {
        Some(f) => {
            with_params_passes(a, p, cs, callee, f.params, f.params.len() as int, loaded);
        },
        None => {},
    }
}

proof fn with_direct_passes(
    a: RunV,
    p: ProgramV,
    models: Seq<ModelV>,
    cs: SiteV,
    callees: Seq<FnId>,
    n: int,
    loaded: Set<u32>,
)
    requires
        run_sound(a, loaded),
        arguments_sound(a, p),
        well_numbered(p),
        p.site(cs.id) == Some(cs),
    ensures
        arguments_sound(a.with_direct(p, models, cs, callees, n), p),
    decreases n,
{
    if n > 0 {
        with_direct_passes(a, p, models, cs, callees, n - 1, loaded);
        with_direct_grows(a, p, models, cs, callees, n - 1, loaded);
        let r = a.with_direct(p, models, cs, callees, n - 1);
        let callee = callees[n - 1];
        match p.symbols.function(callee) {
            Some(f) => {
                let e = direct_edge(p, cs, callee);
                let r1 = RunV { edges: r.edges.push(e), ..r };
                with_edge_grows(r, r1, e, loaded);
                arguments_kept(r, r1, p, loaded);
                let r2 = r1.wired_to(p, cs, callee);
                wired_to_grows(r1, p, cs, callee, loaded);
                wired_to_passes(r1, p, cs, callee, loaded);
                modeled_grows(r2, models, cs, f.name, loaded);
                arguments_kept(r2, r2.modeled(models, cs, f.name), p, loaded);
            },
            None => {},
        }
    }
}

proof fn with_direct_calls_passes(
    a: RunV,
    p: ProgramV,
    models: Seq<ModelV>,
    n: int,
    loaded: Set<u32>,
)
    requires
        run_sound(a, loaded),
        arguments_sound(a, p),
        well_numbered(p),
        n <= p.symbols.call_sites.len(),
    ensures
        arguments_sound(a.with_direct_calls(p, models, n), p),
    decreases n,
{
    if n > 0 {
        with_direct_calls_passes(a, p, models, n - 1, loaded);
        with_direct_calls_grows(a, p, models, n - 1, loaded);
        let r = a.with_direct_calls(p, models, n - 1);
        let cs = p.symbols.call_sites[n - 1];
        let callees = p.direct_callees(cs);
        assert(p.site(cs.id) == Some(cs));
        with_direct_passes(r, p, models, cs, callees, callees.len() as int, loaded);
    }
}

proof fn with_callee_passes(
    a: RunV,
    p: ProgramV,
    models: Seq<ModelV>,
    cs: SiteV,
    callee: FnId,
    loaded: Set<u32>,
)
    requires
        run_sound(a, loaded),
        arguments_sound(a, p),
        well_numbered(p),
        p.site(cs.id) == Some(cs),
    ensures
        arguments_sound(a.with_callee(p, models, cs, callee), p),
{
    let known = list_of(a.resolved, cs.id.0);
    if !known.contains(callee) {
        let r1 = called(a, cs, callee);
        called_grows(a, cs, callee, loaded);
        arguments_kept(a, r1, p, loaded);
        let r2 = r1.wired_to(p, cs, callee);
        wired_to_grows(r1, p, cs, callee, loaded);
        wired_to_passes(r1, p, cs, callee, loaded);
        let r3 = r2.with_returns(p, models, cs, callee);
        with_returns_grows(r2, p, models, cs, callee, loaded);
        arguments_kept(r2, r3, p, loaded);
        match p.symbols.function(callee) {
            Some(f) => {
                modeled_grows(r3, models, cs, f.name, loaded);
                arguments_kept(r3, r3.modeled(models, cs, f.name), p, loaded);
            },
            None => {},
        }
    }
}

proof fn with_callees_passes(
    a: RunV,
    p: ProgramV,
    models: Seq<ModelV>,
    cs: SiteV,
    callees: Seq<FnId>,
    n: int,
    loaded: Set<u32>,
)
    requires
        run_sound(a, loaded),
        arguments_sound(a, p),
        well_numbered(p),
        p.site(cs.id) == Some(cs),
        0 <= n <= callees.len(),
    ensures
        arguments_sound(a.with_callees(p, models, cs, callees, n), p),
    decreases n,
{
    if n > 0 {
        with_callees_passes(a, p, models, cs, callees, n - 1, loaded);
        with_callees_grows(a, p, models, cs, callees, n - 1, loaded);
        let r = a.with_callees(p, models, cs, callees, n - 1);
        with_callee_passes(r, p, models, cs, callees[n - 1], loaded);
    }
}

proof fn with_indirect_passes(
    a: RunV,
    look: LookV,
    sites: Seq<CallSiteId>,
    n: int,
    loaded: Set<u32>,
)
    requires
        run_sound(a, loaded),
        arguments_sound(a, look.p),
        well_numbered(look.p),
        0 <= n <= sites.len(),
    ensures
        arguments_sound(a.with_indirect(look, sites, n), look.p),
    decreases n,
{
    if n > 0 {
        with_indirect_passes(a, look, sites, n - 1, loaded);
        with_indirect_grows(a, look, sites, n - 1, loaded);
        let r = a.with_indirect(look, sites, n - 1);
        match look.p.site(sites[n - 1]) {
            Some(cs) => {
                let callees = r.reached(look.p, look.delta, look.delta.len() as int);
                assert(look.p.site(cs.id) == Some(cs));
                with_callees_passes(
                    r,
                    look.p,
                    look.models,
                    cs,
                    callees,
                    callees.len() as int,
                    loaded,
                );
            },
            None => {},
        }
    }
}

/// One look at a node passes on what it has gained.
proof fn step_passes(r: RunV, p: ProgramV, models: Seq<ModelV>, loaded: Set<u32>)
    requires
        run_sound(r, loaded),
        arguments_sound(r, p),
        well_numbered(p),
        r.st.worklist.len() > 0,
        r.pag.constraints.len() <= usize::MAX,
    ensures
        arguments_sound(r.step(p, models), p),
{
    let node = r.st.worklist.last();
    let st = popped(r.st);
    let delta = list_of(st.delta, node);
    let r0 = r.with_st(st.taken(node));
    taken_facts(r.st);
    taken_keeps_copies(st, node);
    assert(run_sound(r0, loaded));
    let b = r.step(p, models);
    if delta.len() == 0 {
        assert(arguments_sound(r0, p)) by {
            assert forall|x: u32, y: u32| #[trigger] r0.st.wired_copies.contains(
                (x, y),
            ) implies passed(r0, x, y) && (r0.pag.constraints.len() <= usize::MAX ==> has_copy(
                r0.pag,
                x,
                y,
            )) by {
                assert(r.st.wired_copies.contains((x, y)));
                assert forall|l: u32| #[trigger] holds(r0.st, x, l) implies holds(r0.st, y, l)
                    || waits(r0.st, x, l) by {
                    assert(holds(r.st, x, l));
                    if holds(r.st, y, l) {
                        assert(holds(r0.st, y, l));
                    } else {
                        assert(waits(r.st, x, l));
                        assert(list_of(r.st.delta, x).contains(l));
                        assert(waits(r0.st, x, l));
                    }
                }
            }
            assert forall|s: u32, k: u32, c: u32| #[trigger] r0.wired.contains(
                (s, k, c),
            ) implies copied_to_param(r0, p, s, k, c) by {
                assert(r.wired.contains((s, k, c)));
                assert(copied_to_param(r, p, s, k, c));
            }
        }
        first_look_grows(r0, p, node, loaded);
        arguments_kept(r0, b, p, loaded);
    } else {
        let look = LookV { p, models, node, delta };
        let copies = list_of(r0.pag.indices.copy_src, node);
        let r1 = r0.with_copies(delta, copies, copies.len() as int);
        with_copies_grows(r0, delta, copies, copies.len() as int, loaded);
        assert(arguments_sound(r1, p)) by {
            assert forall|x: u32, y: u32| #[trigger] r1.st.wired_copies.contains(
                (x, y),
            ) implies passed(r1, x, y) && (r1.pag.constraints.len() <= usize::MAX ==> has_copy(
                r1.pag,
                x,
                y,
            )) by {
                assert(r.st.wired_copies.contains((x, y)));
                assert(has_copy(r.pag, x, y));
                assert forall|l: u32| #[trigger] holds(r1.st, x, l) implies holds(r1.st, y, l)
                    || waits(r1.st, x, l) by {
                    if holds(r0.st, x, l) {
                        assert(holds(r.st, x, l));
                        if holds(r.st, y, l) {
                            assert(holds(r0.st, y, l));
                        } else {
                            assert(waits(r.st, x, l));
                            if x == node {
                                assert(delta.contains(l));
                                let i = choose|i: usize| #[trigger]
                                    list_of(r.pag.indices.copy_src, x).contains(i)
                                        && r.pag.constraint(i) is Some && r.pag.constraint(
                                        i,
                                    )->0.dst.0 == y;
                                let k = choose|k: int| 0 <= k < copies.len() && copies[k] == i;
                                assert(r0.pag.constraint(copies[k]) is Some);
                                assert(holds(r1.st, y, l));
                            } else {
                                assert(waits(r0.st, x, l));
                            }
                        }
                    }
                }
            }
            assert forall|s: u32, k: u32, c: u32| #[trigger] r1.wired.contains(
                (s, k, c),
            ) implies copied_to_param(r1, p, s, k, c) by {
                assert(r.wired.contains((s, k, c)));
                assert(copied_to_param(r, p, s, k, c));
            }
        }
        let addrs = list_of(r1.pag.indices.addr_of_dst, node);
        let r2 = r1.with_addresses(node, addrs, addrs.len() as int);
        with_addresses_grows(r1, node, addrs, addrs.len() as int, loaded);
        arguments_kept(r1, r2, p, loaded);
        let loads = list_of(r2.pag.indices.load_src, node);
        let r3 = r2.with_loads(delta, loads, loads.len() as int);
        with_loads_grows(r2, delta, loads, loads.len() as int, loaded);
        arguments_kept(r2, r3, p, loaded);
        let into = list_of(r3.pag.indices.store_dst, node);
        let r4 = r3.with_stores(Some(delta), into, into.len() as int);
        with_stores_grows(r3, Some(delta), into, into.len() as int, loaded);
        arguments_kept(r3, r4, p, loaded);
        let out = list_of(r4.pag.indices.store_src, node);
        let r5 = r4.with_stores(None, out, out.len() as int);
        with_stores_grows(r4, None, out, out.len() as int, loaded);
        arguments_kept(r4, r5, p, loaded);
        let geps = list_of(r5.pag.indices.gep_src, node);
        let r6 = r5.with_geps(look, geps, geps.len() as int);
        with_geps_grows(r5, look, geps, geps.len() as int, loaded);
        arguments_kept(r5, r6, p, loaded);
        let lookups = list_of(r6.pag.indices.dlsym_src, node);
        let r7 = r6.with_lookups(look, lookups, lookups.len() as int);
        with_lookups_grows(r6, look, lookups, lookups.len() as int, loaded);
        arguments_kept(r6, r7, p, loaded);
        let calls = list_of(r7.pag.indices.indirect_by_target, node);
        with_indirect_passes(r7, look, calls, calls.len() as int, loaded);
    }
}

proof fn taken_keeps_copies(st: SolverV, node: u32)
    ensures
        st.taken(node).wired_copies == st.wired_copies,
{
    let news = list_of(st.delta, node);
    forgotten_keeps_copies(
        SolverV { delta: st.delta.remove(node), ..st },
        node,
        news,
        news.len() as int,
    );
}

proof fn forgotten_keeps_copies(a: SolverV, n: u32, locs: Seq<u32>, k: int)
    ensures
        a.forgotten(n, locs, k).wired_copies == a.wired_copies,
    decreases k,
{
    if k > 0 {
        forgotten_keeps_copies(a, n, locs, k - 1);
    }
}

/// Once a run has nothing left to look at, everything has been passed on.
proof fn run_passes(r: RunV, p: ProgramV, models: Seq<ModelV>, g: PagV, budget: nat)
    requires
        run_sound(r, loaded_in(g)),
        extended(g, r.pag),
        on_track(r, g, p),
        arguments_sound(r, p),
        well_numbered(p),
        r.settles(p, models, budget),
        r.run(p, models, budget).pag.constraints.len() <= usize::MAX,
    ensures
        arguments_sound(r.run(p, models, budget), p),
    decreases budget,
{
    if r.st.worklist.len() > 0 && budget > 0 {
        let end = r.run(p, models, budget);
        assert(g.constraints.len() <= usize::MAX && r.pag.constraints.len() <= usize::MAX) by {
            run_bounds(r, p, models, g, budget);
        }
        step_keeps(r, p, models, g);
        step_passes(r, p, models, loaded_in(g));
        run_passes(r.step(p, models), p, models, g, (budget - 1) as nat);
    }
}

/// The graph does not shrink while it is solved.
proof fn run_bounds(r: RunV, p: ProgramV, models: Seq<ModelV>, g: PagV, budget: nat)
    requires
        run_sound(r, loaded_in(g)),
        extended(g, r.pag),
        on_track(r, g, p),
    ensures
        g.constraints.len() <= r.pag.constraints.len(),
        r.pag.constraints.len() <= r.run(p, models, budget).pag.constraints.len(),
    decreases budget,
{
    if r.st.worklist.len() > 0 && budget > 0 {
        step_grows_graph(r, p, models, loaded_in(g));
        let next = r.step(p, models);
        assert(r.pag.constraints.len() <= next.pag.constraints.len());
        run_bounds_from(next, p, models, loaded_in(g), (budget - 1) as nat);
    }
}

proof fn run_bounds_from(r: RunV, p: ProgramV, models: Seq<ModelV>, loaded: Set<u32>, budget: nat)
    requires
        run_sound(r, loaded),
    ensures
        r.pag.constraints.len() <= r.run(p, models, budget).pag.constraints.len(),
    decreases budget,
{
    if r.st.worklist.len() > 0 && budget > 0 {
        step_grows_graph(r, p, models, loaded);
        run_bounds_from(r.step(p, models), p, models, loaded, (budget - 1) as nat);
    }
}

proof fn step_grows_graph(r: RunV, p: ProgramV, models: Seq<ModelV>, loaded: Set<u32>)
    requires
        run_sound(r, loaded),
        r.st.worklist.len() > 0,
    ensures
        run_sound(r.step(p, models), loaded),
        extended(r.pag, r.step(p, models).pag),
{
    let node = r.st.worklist.last();
    let st = popped(r.st);
    let delta = list_of(st.delta, node);
    let r0 = r.with_st(st.taken(node));
    taken_facts(r.st);
    assert(run_sound(r0, loaded));
    if delta.len() == 0 {
        first_look_grows(r0, p, node, loaded);
    } else {
        let look = LookV { p, models, node, delta };
        let copies = list_of(r0.pag.indices.copy_src, node);
        let r1 = r0.with_copies(delta, copies, copies.len() as int);
        with_copies_grows(r0, delta, copies, copies.len() as int, loaded);
        let addrs = list_of(r1.pag.indices.addr_of_dst, node);
        let r2 = r1.with_addresses(node, addrs, addrs.len() as int);
        with_addresses_grows(r1, node, addrs, addrs.len() as int, loaded);
        run_trans(r0, r1, r2, loaded);
        let loads = list_of(r2.pag.indices.load_src, node);
        let r3 = r2.with_loads(delta, loads, loads.len() as int);
        with_loads_grows(r2, delta, loads, loads.len() as int, loaded);
        run_trans(r0, r2, r3, loaded);
        let into = list_of(r3.pag.indices.store_dst, node);
        let r4 = r3.with_stores(Some(delta), into, into.len() as int);
        with_stores_grows(r3, Some(delta), into, into.len() as int, loaded);
        run_trans(r0, r3, r4, loaded);
        let out = list_of(r4.pag.indices.store_src, node);
        let r5 = r4.with_stores(None, out, out.len() as int);
        with_stores_grows(r4, None, out, out.len() as int, loaded);
        run_trans(r0, r4, r5, loaded);
        let geps = list_of(r5.pag.indices.gep_src, node);
        let r6 = r5.with_geps(look, geps, geps.len() as int);
        with_geps_grows(r5, look, geps, geps.len() as int, loaded);
        run_trans(r0, r5, r6, loaded);
        let lookups = list_of(r6.pag.indices.dlsym_src, node);
        let r7 = r6.with_lookups(look, lookups, lookups.len() as int);
        with_lookups_grows(r6, look, lookups, lookups.len() as int, loaded);
        run_trans(r0, r6, r7, loaded);
        let calls = list_of(r7.pag.indices.indirect_by_target, node);
        with_indirect_grows(r7, look, calls, calls.len() as int, loaded);
        run_trans(r0, r7, r.step(p, models), loaded);
    }
}

/// Where solving begins, every direct call has been wired.
proof fn start_passes(g: PagV, p: ProgramV, models: Seq<ModelV>)
    requires
        well_numbered(p),
    ensures
        arguments_sound(g.start(p, models), p),
{
    let a = before_calls(g, p);
    before_calls_sound(g, p, models);
    assert(a.st.wired_copies =~= Set::<(u32, u32)>::empty());
    with_direct_calls_passes(
        a,
        p,
        models,
        p.symbols.call_sites.len() as int,
        loaded_in(g),
    );
}

proof fn flow_found(
    cs: SiteV,
    callee: FnId,
    params: Seq<VarId>,
    wired: Set<(u32, u32, u32)>,
    n: int,
    e: ArgFlowEdge,
) -> (k: int)
    requires
        arg_flows_of(cs, callee, params, wired, n).contains(e),
    ensures
        0 <= k < n,
        arg_flow_of(cs, callee, params[k], k as u32, wired) == Some(e),
    decreases n,
{
    if n <= 0 {
        0
    } else {
        let before = arg_flows_of(cs, callee, params, wired, n - 1);
        match arg_flow_of(cs, callee, params[n - 1], (n - 1) as u32, wired) {
            Some(x) => {
                push_holds(before, x, e);
                if x == e {
                    n - 1
                } else {
                    flow_found(cs, callee, params, wired, n - 1, e)
                }
            },
            None => flow_found(cs, callee, params, wired, n - 1, e),
        }
    }
}

/// Unless the result is partial, a parameter may hold what the argument that
/// reaches it may hold, where both can bear on which functions are called.
pub proof fn parameters_hold_their_arguments(
    p: ProgramV,
    retain: bool,
    models: Seq<ModelV>,
    budget: Option<u64>,
    ipc: bool,
    e: ArgFlowEdge,
    v: VarId,
    l: u32,
)
    requires
        p.analysis(retain, models, budget, ipc).0.constraints.len() <= usize::MAX,
        well_numbered(p),
        budget is None || !p.analysis(retain, models, budget, ipc).1.partial,
        p.analysis(retain, models, budget, ipc).1.arg_flow_edges.contains(e),
        e.actual_var == Some(v),
        p.may_hold_pointee(v),
        p.may_hold_pointee(e.formal),
    ensures
        ({
            let end = p.analysis(retain, models, budget, ipc).0;
            match (end.node_of_var(v), end.node_of_var(e.formal)) {
                (Some(a), Some(b)) => may_hold(
                    solved_graph(p, models),
                    p,
                    models,
                    looks(p, models, budget),
                    a.0,
                    l,
                ) ==> may_hold(solved_graph(p, models), p, models, looks(p, models, budget), b.0, l),
                _ => false,
            }
        }),
{
    if budget is None {
        unlimited_results_are_whole(p, retain, models, ipc);
    }
    let g = solved_graph(p, models);
    let start = g.start(p, models);
    let end = start.run(p, models, looks(p, models, budget));
    let r = p.analysis(retain, models, budget, ipc).1;
    start_keeps(g, p, models);
    start_passes(g, p, models);
    run_bounds(start, p, models, g, looks(p, models, budget));
    analysis_ends(p, retain, models, budget, ipc);
    run_keeps(start, p, models, g, looks(p, models, budget));
    run_passes(start, p, models, g, looks(p, models, budget));
    flows_hold(p, r.call_edges, r.wired_arg_flow, r.call_edges.len() as int, e);
    let i = choose|i: int|
        0 <= i < r.call_edges.len() && (#[trigger] p.arg_flows_at(
            r.call_edges[i],
            r.wired_arg_flow,
        )).contains(e);
    let edge = r.call_edges[i];
    let cs = p.site(edge.call_site)->0;
    let f = p.symbols.function(edge.callee)->0;
    let k = flow_found(
        cs,
        edge.callee,
        f.params,
        r.wired_arg_flow,
        f.params.len() as int,
        e,
    );
    assert(end.wired.contains((cs.id.0, k as u32, edge.callee.0)));
    assert(copied_to_param(end, p, cs.id.0, k as u32, edge.callee.0));
    assert(CallSiteId(cs.id.0) == edge.call_site);
    assert(FnId(edge.callee.0) == edge.callee);
    match (end.pag.node_of_var(v), end.pag.node_of_var(e.formal)) {
        (Some(a), Some(b)) => {
            assert(end.st.wired_copies.contains((a.0, b.0)));
            assert(passed(end, a.0, b.0));
            nothing_waits(end, g, a.0, l);
            if holds(end.st, a.0, l) {
                assert(holds(end.st, b.0, l));
            }
        },
        _ => {},
    }
}

/// What an argument flow says is what a call edge and the call's own arguments
/// say: there is an edge from the call site, the formal is the parameter of the
/// callee at the argument's position, and the actual is either a variable or a
/// function that is passed there, never both.
pub proof fn flows_follow_edges(
    p: ProgramV,
    retain: bool,
    models: Seq<ModelV>,
    budget: Option<u64>,
    ipc: bool,
    e: ArgFlowEdge,
) -> (i: int)
    requires
        p.analysis(retain, models, budget, ipc).1.arg_flow_edges.contains(e),
        forall|f: FnId| #[trigger]
            p.symbols.function(f) is Some ==> p.symbols.function(f)->0.params.len() <= u32::MAX,
    ensures
        e.actual_var is Some <==> e.actual_fn is None,
        ({
            let r = p.analysis(retain, models, budget, ipc).1;
            &&& 0 <= i < r.call_edges.len()
            &&& match (p.site(r.call_edges[i].call_site), p.symbols.function(r.call_edges[i].callee)) {
                (Some(cs), Some(f)) => {
                    &&& e.call_site == cs.id
                    &&& e.arg_index < f.params.len()
                    &&& e.formal == f.params[e.arg_index as int]
                    &&& e.actual_var == arg_at(cs.var_args, e.arg_index, 0)
                    &&& e.actual_fn is Some ==> e.actual_fn == fn_arg_at(cs.fn_args, e.arg_index, 0)
                },
                _ => false,
            }
        }),
{
    let r = p.analysis(retain, models, budget, ipc).1;
    flows_hold(p, r.call_edges, r.wired_arg_flow, r.call_edges.len() as int, e);
    let i = choose|i: int|
        0 <= i < r.call_edges.len() && (#[trigger] p.arg_flows_at(
            r.call_edges[i],
            r.wired_arg_flow,
        )).contains(e);
    let edge = r.call_edges[i];
    let cs = p.site(edge.call_site)->0;
    let f = p.symbols.function(edge.callee)->0;
    let k = flow_found(
        cs,
        edge.callee,
        f.params,
        r.wired_arg_flow,
        f.params.len() as int,
        e,
    );
    i
}

/// Whether a variable is declared with a type whose values are functions or
/// lead to some: a function pointer, or a pointer to one, to an aggregate or to
/// something of which nothing is known; or as a pointer whose type says nothing
/// of what it points to.
pub open spec fn declared_to_lead_to_functions(p: ProgramV, v: VarId) -> bool {
    match p.symbols.variable(v) {
        Some(x) => match p.types.desc(x.type_id) {
            Some(DescV::FnPtr { ret, params }) => true,
            Some(DescV::Ptr(inner)) => match *inner {
                DescV::FnPtr { ret, params } => true,
                DescV::Struct { name, fields } => true,
                DescV::Union { name, fields } => true,
                DescV::Unknown => true,
                _ => false,
            },
            _ => x.is_pointer,
        },
        None => false,
    }
}

/// A callback that is handed on arrives: where an argument that is declared as
/// a function pointer, or to lead to functions, reaches a parameter that is too,
/// the parameter may hold all that the argument may hold, unless the result is
/// partial, as it never is without a budget.
pub proof fn callbacks_reach_parameters(
    p: ProgramV,
    retain: bool,
    models: Seq<ModelV>,
    budget: Option<u64>,
    ipc: bool,
    e: ArgFlowEdge,
    v: VarId,
    l: u32,
)
    requires
        p.analysis(retain, models, budget, ipc).0.constraints.len() <= usize::MAX,
        well_numbered(p),
        budget is None || !p.analysis(retain, models, budget, ipc).1.partial,
        p.analysis(retain, models, budget, ipc).1.arg_flow_edges.contains(e),
        e.actual_var == Some(v),
        declared_to_lead_to_functions(p, v),
        declared_to_lead_to_functions(p, e.formal),
    ensures
        ({
            let end = p.analysis(retain, models, budget, ipc).0;
            match (end.node_of_var(v), end.node_of_var(e.formal)) {
                (Some(a), Some(b)) => may_hold(
                    solved_graph(p, models),
                    p,
                    models,
                    looks(p, models, budget),
                    a.0,
                    l,
                ) ==> may_hold(solved_graph(p, models), p, models, looks(p, models, budget), b.0, l),
                _ => false,
            }
        }),
{
    parameters_hold_their_arguments(p, retain, models, budget, ipc, e, v, l);
}

} // verus!
