//! Every argument of a call that is found goes to the parameter that takes it.

use crate::analysis::arguments::well_numbered;
use crate::analysis::constraints::{ArgFlowEdge, CallGraphEdge, ResolutionKind};
use crate::analysis::edges::wiring_keeps_edges;

use crate::analysis::laws::{
    analysis_ends, before_calls, before_calls_sound, loaded_in, looks, on_track, popped,
    solved_graph, start_keeps, step_keeps, taken_facts,
};
use crate::analysis::models::ModelV;
use crate::analysis::pag::{arg_at, list_of, PagV};
use crate::analysis::progress::{
    called, called_grows, direct_edge, extended, extended_refl, extended_trans, first_look_grows,
    modeled_grows, run_sound, run_trans, wired_to_grows, with_addresses_grows, with_callees_grows,
    with_copies_grows, with_direct_calls_grows, with_direct_grows, with_edge_grows, with_geps_grows,
    with_indirect_grows, with_loads_grows, with_lookups_grows, with_param_grows, with_params_grows,
    with_returns_grows, with_stores_grows,
};
use crate::analysis::solver::{
    arg_flow_of, arg_flows_of, fn_arg_at, LookV, RunV, SYNTHETIC_CALL_SITE,
};
use crate::ir::ids::{CallSiteId, FnId, VarId};
use crate::ir::program::ProgramV;
use crate::ir::symbol::SiteV;
use vstd::prelude::*;

verus! {

/// The argument at a position is the first that says so.
pub proof fn arguments_are_found_by_position(args: Seq<(u32, VarId)>, at: u32, i: int)
    requires
        0 <= i <= args.len(),
    ensures
        match arg_at(args, at, i) {
            Some(v) => exists|k: int|
                i <= k < args.len() && #[trigger] args[k] == (at, v) && forall|j: int|
                    i <= j < k ==> (#[trigger] args[j]).0 != at,
            None => forall|j: int| i <= j < args.len() ==> (#[trigger] args[j]).0 != at,
        },
    decreases args.len() - i,
{
    if i < args.len() {
        if args[i].0 == at {
            assert(args[i] == (at, args[i].1));
        } else {
            arguments_are_found_by_position(args, at, i + 1);
            if let Some(v) = arg_at(args, at, i + 1) {
                let k = choose|k: int|
                    i + 1 <= k < args.len() && #[trigger] args[k] == (at, v) && forall|j: int|
                        i + 1 <= j < k ==> (#[trigger] args[j]).0 != at;
                assert(args[k] == (at, v));
            }
        }
    }
}

/// The function that is passed at a position is the first that says so.
pub proof fn passed_functions_are_found_by_position(args: Seq<(u32, FnId)>, at: u32, i: int)
    requires
        0 <= i <= args.len(),
    ensures
        match fn_arg_at(args, at, i) {
            Some(v) => exists|k: int|
                i <= k < args.len() && #[trigger] args[k] == (at, v) && forall|j: int|
                    i <= j < k ==> (#[trigger] args[j]).0 != at,
            None => forall|j: int| i <= j < args.len() ==> (#[trigger] args[j]).0 != at,
        },
    decreases args.len() - i,
{
    if i < args.len() {
        if args[i].0 == at {
            assert(args[i] == (at, args[i].1));
        } else {
            passed_functions_are_found_by_position(args, at, i + 1);
            if let Some(v) = fn_arg_at(args, at, i + 1) {
                let k = choose|k: int|
                    i + 1 <= k < args.len() && #[trigger] args[k] == (at, v) && forall|j: int|
                        i + 1 <= j < k ==> (#[trigger] args[j]).0 != at;
                assert(args[k] == (at, v));
            }
        }
    }
}

/// Whether a call hands something on at a position: the function has a parameter
/// there, the parameter is a node of the graph, and so is the variable that is
/// passed, unless a function is.
pub open spec fn hands_on(g: PagV, p: ProgramV, e: CallGraphEdge, k: u32) -> bool {
    &&& e.call_site.0 != SYNTHETIC_CALL_SITE
    &&& match (p.site(e.call_site), p.symbols.function(e.callee)) {
        (Some(cs), Some(f)) => {
            &&& k < f.params.len()
            &&& g.node_of_var(f.params[k as int]) is Some
            &&& match arg_at(cs.var_args, k, 0) {
                Some(v) => g.node_of_var(v) is Some,
                None => fn_arg_at(cs.fn_args, k, 0) is Some,
            }
        },
        _ => false,
    }
}

spec fn all_wired(r: RunV, p: ProgramV, g: PagV) -> bool {
    forall|e: CallGraphEdge, k: u32|
        r.edges.contains(e) && #[trigger] hands_on(g, p, e, k) ==> r.wired.contains(
            (e.call_site.0, k, e.callee.0),
        )
}

/// Where no call is added, all stay wired.
proof fn stays_wired(a: RunV, b: RunV, p: ProgramV, g: PagV)
    requires
        b.edges == a.edges,
        a.wired.subset_of(b.wired),
        all_wired(a, p, g),
    ensures
        all_wired(b, p, g),
{
    assert forall|e: CallGraphEdge, k: u32|
        b.edges.contains(e) && #[trigger] hands_on(g, p, e, k) implies b.wired.contains(
        (e.call_site.0, k, e.callee.0),
    ) by {
        assert(a.wired.contains((e.call_site.0, k, e.callee.0)));
    }
}

proof fn params_are_wired(
    a: RunV,
    p: ProgramV,
    g: PagV,
    e: CallGraphEdge,
    cs: SiteV,
    n: int,
    k: u32,
    loaded: Set<u32>,
)
    requires
        run_sound(a, loaded),
        extended(g, a.pag),
        hands_on(g, p, e, k),
        p.site(e.call_site) == Some(cs),
        cs.id == e.call_site,
        k < n <= p.symbols.function(e.callee)->0.params.len() <= u32::MAX,
    ensures
        a.with_params(p, cs, e.callee, p.symbols.function(e.callee)->0.params, n).wired.contains(
            (e.call_site.0, k, e.callee.0),
        ),
    decreases n,
{
    let params = p.symbols.function(e.callee)->0.params;
    let r = a.with_params(p, cs, e.callee, params, n - 1);
    with_params_grows(a, p, cs, e.callee, params, n - 1, loaded);
    with_param_grows(r, p, cs, e.callee, params[n - 1], (n - 1) as u32, loaded);
    extended_trans(g, a.pag, r.pag);
    if k < n - 1 {
        params_are_wired(a, p, g, e, cs, n - 1, k, loaded);
    } else {
        assert(r.pag.node_of_var(params[k as int]) is Some);
        if let Some(v) = arg_at(cs.var_args, k, 0) {
            assert(r.pag.node_of_var(v) is Some);
        }
    }
}

/// One more call, wired.
proof fn call_is_wired(
    a: RunV,
    b: RunV,
    p: ProgramV,
    g: PagV,
    e: CallGraphEdge,
    cs: SiteV,
    loaded: Set<u32>,
)
    requires
        all_wired(a, p, g),
        run_sound(b, loaded),
        extended(g, b.pag),
        b.edges == a.edges.push(e),
        a.wired.subset_of(b.wired),
        p.site(cs.id) == Some(cs),
        cs.id == e.call_site,
        well_numbered(p),
    ensures
        all_wired(b.wired_to(p, cs, e.callee), p, g),
{
    let c = b.wired_to(p, cs, e.callee);
    wiring_keeps_edges(b, p, cs, e.callee);
    wired_to_grows(b, p, cs, e.callee, loaded);
    assert forall|x: CallGraphEdge, k: u32|
        c.edges.contains(x) && #[trigger] hands_on(g, p, x, k) implies c.wired.contains(
        (x.call_site.0, k, x.callee.0),
    ) by {
        let i = choose|i: int| 0 <= i < c.edges.len() && c.edges[i] == x;
        if i < a.edges.len() {
            assert(a.edges[i] == x);
            assert(a.edges.contains(x));
            assert(a.wired.contains((x.call_site.0, k, x.callee.0)));
            assert(b.wired.contains((x.call_site.0, k, x.callee.0)));
        } else {
            assert(x == e);
            let f = p.symbols.function(e.callee)->0;
            params_are_wired(b, p, g, e, cs, f.params.len() as int, k, loaded);
        }
    }
}

proof fn direct_wired(
    a: RunV,
    p: ProgramV,
    models: Seq<ModelV>,
    g: PagV,
    cs: SiteV,
    callees: Seq<FnId>,
    n: int,
    loaded: Set<u32>,
)
    requires
        run_sound(a, loaded),
        extended(g, a.pag),
        all_wired(a, p, g),
        well_numbered(p),
        p.site(cs.id) == Some(cs),
    ensures
        all_wired(a.with_direct(p, models, cs, callees, n), p, g),
    decreases n,
{
    if n > 0 {
        direct_wired(a, p, models, g, cs, callees, n - 1, loaded);
        with_direct_grows(a, p, models, cs, callees, n - 1, loaded);
        let r = a.with_direct(p, models, cs, callees, n - 1);
        extended_trans(g, a.pag, r.pag);
        let callee = callees[n - 1];
        match p.symbols.function(callee) {
            Some(f) => {
                let e = direct_edge(p, cs, callee);
                let r1 = RunV { edges: r.edges.push(e), ..r };
                with_edge_grows(r, r1, e, loaded);
                call_is_wired(r, r1, p, g, e, cs, loaded);
                let r2 = r1.wired_to(p, cs, callee);
                wired_to_grows(r1, p, cs, callee, loaded);
                modeled_grows(r2, models, cs, f.name, loaded);
                stays_wired(r2, r2.modeled(models, cs, f.name), p, g);
            },
            None => {},
        }
    }
}

proof fn direct_calls_wired(
    a: RunV,
    p: ProgramV,
    models: Seq<ModelV>,
    g: PagV,
    n: int,
    loaded: Set<u32>,
)
    requires
        run_sound(a, loaded),
        extended(g, a.pag),
        all_wired(a, p, g),
        well_numbered(p),
        n <= p.symbols.call_sites.len(),
    ensures
        all_wired(a.with_direct_calls(p, models, n), p, g),
    decreases n,
{
    if n > 0 {
        direct_calls_wired(a, p, models, g, n - 1, loaded);
        with_direct_calls_grows(a, p, models, n - 1, loaded);
        let r = a.with_direct_calls(p, models, n - 1);
        extended_trans(g, a.pag, r.pag);
        let cs = p.symbols.call_sites[n - 1];
        let callees = p.direct_callees(cs);
        assert(p.site(cs.id) == Some(cs));
        direct_wired(r, p, models, g, cs, callees, callees.len() as int, loaded);
    }
}

proof fn callees_wired(
    a: RunV,
    p: ProgramV,
    models: Seq<ModelV>,
    g: PagV,
    cs: SiteV,
    callees: Seq<FnId>,
    n: int,
    loaded: Set<u32>,
)
    requires
        run_sound(a, loaded),
        extended(g, a.pag),
        all_wired(a, p, g),
        well_numbered(p),
        p.site(cs.id) == Some(cs),
        0 <= n <= callees.len(),
    ensures
        all_wired(a.with_callees(p, models, cs, callees, n), p, g),
    decreases n,
{
    if n > 0 {
        callees_wired(a, p, models, g, cs, callees, n - 1, loaded);
        with_callees_grows(a, p, models, cs, callees, n - 1, loaded);
        let r = a.with_callees(p, models, cs, callees, n - 1);
        extended_trans(g, a.pag, r.pag);
        let callee = callees[n - 1];
        if !list_of(r.resolved, cs.id.0).contains(callee) {
            let r1 = called(r, cs, callee);
            called_grows(r, cs, callee, loaded);
            let e = CallGraphEdge {
                call_site: cs.id,
                caller: cs.caller,
                callee,
                resolution: ResolutionKind::Indirect,
            };
            call_is_wired(r, r1, p, g, e, cs, loaded);
            let r2 = r1.wired_to(p, cs, callee);
            wired_to_grows(r1, p, cs, callee, loaded);
            let r3 = r2.with_returns(p, models, cs, callee);
            with_returns_grows(r2, p, models, cs, callee, loaded);
            stays_wired(r2, r3, p, g);
            match p.symbols.function(callee) {
                Some(f) => {
                    modeled_grows(r3, models, cs, f.name, loaded);
                    stays_wired(r3, r3.modeled(models, cs, f.name), p, g);
                },
                None => {},
            }
        }
    }
}

proof fn indirect_wired(
    a: RunV,
    look: LookV,
    g: PagV,
    sites: Seq<CallSiteId>,
    n: int,
    loaded: Set<u32>,
)
    requires
        run_sound(a, loaded),
        extended(g, a.pag),
        all_wired(a, look.p, g),
        well_numbered(look.p),
        0 <= n <= sites.len(),
    ensures
        all_wired(a.with_indirect(look, sites, n), look.p, g),
    decreases n,
{
    if n > 0 {
        indirect_wired(a, look, g, sites, n - 1, loaded);
        with_indirect_grows(a, look, sites, n - 1, loaded);
        let r = a.with_indirect(look, sites, n - 1);
        extended_trans(g, a.pag, r.pag);
        match look.p.site(sites[n - 1]) {
            Some(cs) => {
                let callees = r.reached(look.p, look.delta, look.delta.len() as int);
                assert(look.p.site(cs.id) == Some(cs));
                callees_wired(
                    r,
                    look.p,
                    look.models,
                    g,
                    cs,
                    callees,
                    callees.len() as int,
                    loaded,
                );
            },
            None => {},
        }
    }
}

proof fn travel_wired(a: RunV, look: LookV, g: PagV)
    requires
        run_sound(a, loaded_in(g)),
        extended(g, a.pag),
        all_wired(a, look.p, g),
        well_numbered(look.p),
    ensures
        all_wired(a.travelled(look), look.p, g),
{
    let from = loaded_in(g);
    let node = look.node;
    let delta = look.delta;
    let copies = list_of(a.pag.indices.copy_src, node);
    let r1 = a.with_copies(delta, copies, copies.len() as int);
    with_copies_grows(a, delta, copies, copies.len() as int, from);
    let addrs = list_of(r1.pag.indices.addr_of_dst, node);
    let r2 = r1.with_addresses(node, addrs, addrs.len() as int);
    with_addresses_grows(r1, node, addrs, addrs.len() as int, from);
    run_trans(a, r1, r2, from);
    let loads = list_of(r2.pag.indices.load_src, node);
    let r3 = r2.with_loads(delta, loads, loads.len() as int);
    with_loads_grows(r2, delta, loads, loads.len() as int, from);
    run_trans(a, r2, r3, from);
    let into = list_of(r3.pag.indices.store_dst, node);
    let r4 = r3.with_stores(Some(delta), into, into.len() as int);
    with_stores_grows(r3, Some(delta), into, into.len() as int, from);
    run_trans(a, r3, r4, from);
    let out = list_of(r4.pag.indices.store_src, node);
    let r5 = r4.with_stores(None, out, out.len() as int);
    with_stores_grows(r4, None, out, out.len() as int, from);
    run_trans(a, r4, r5, from);
    let geps = list_of(r5.pag.indices.gep_src, node);
    let r6 = r5.with_geps(look, geps, geps.len() as int);
    with_geps_grows(r5, look, geps, geps.len() as int, from);
    run_trans(a, r5, r6, from);
    let lookups = list_of(r6.pag.indices.dlsym_src, node);
    let r7 = r6.with_lookups(look, lookups, lookups.len() as int);
    with_lookups_grows(r6, look, lookups, lookups.len() as int, from);
    run_trans(a, r6, r7, from);
    stays_wired(a, r7, look.p, g);
    extended_trans(g, a.pag, r7.pag);
    let calls = list_of(r7.pag.indices.indirect_by_target, node);
    indirect_wired(r7, look, g, calls, calls.len() as int, from);
}

proof fn step_wired(r: RunV, p: ProgramV, models: Seq<ModelV>, g: PagV)
    requires
        run_sound(r, loaded_in(g)),
        extended(g, r.pag),
        all_wired(r, p, g),
        well_numbered(p),
        r.st.worklist.len() > 0,
    ensures
        all_wired(r.step(p, models), p, g),
{
    let from = loaded_in(g);
    let node = r.st.worklist.last();
    let st = popped(r.st);
    let delta = list_of(st.delta, node);
    let r0 = r.with_st(st.taken(node));
    taken_facts(r.st);
    assert(run_sound(r0, from));
    stays_wired(r, r0, p, g);
    if delta.len() == 0 {
        first_look_grows(r0, p, node, from);
        stays_wired(r0, r0.first_look(p, node), p, g);
    } else {
        travel_wired(r0, LookV { p, models, node, delta }, g);
    }
}

proof fn run_wired(r: RunV, p: ProgramV, models: Seq<ModelV>, g: PagV, budget: nat)
    requires
        run_sound(r, loaded_in(g)),
        extended(g, r.pag),
        g.constraints.len() <= usize::MAX,
        on_track(r, g, p),
        all_wired(r, p, g),
        well_numbered(p),
    ensures
        all_wired(r.run(p, models, budget), p, g),
    decreases budget,
{
    if r.st.worklist.len() == 0 {
    } else if budget == 0 {
        stays_wired(r, r.run(p, models, 0), p, g);
    } else {
        step_keeps(r, p, models, g);
        step_wired(r, p, models, g);
        run_wired(r.step(p, models), p, models, g, (budget - 1) as nat);
    }
}

proof fn flow_is_listed(
    cs: SiteV,
    callee: FnId,
    params: Seq<VarId>,
    wired: Set<(u32, u32, u32)>,
    n: int,
    k: u32,
)
    requires
        k < n <= params.len() <= u32::MAX,
        arg_flow_of(cs, callee, params[k as int], k, wired) is Some,
    ensures
        arg_flows_of(cs, callee, params, wired, n).contains(
            arg_flow_of(cs, callee, params[k as int], k, wired)->0,
        ),
    decreases n,
{
    let x = arg_flow_of(cs, callee, params[k as int], k, wired)->0;
    let before = arg_flows_of(cs, callee, params, wired, n - 1);
    let after = arg_flows_of(cs, callee, params, wired, n);
    if k < n - 1 {
        flow_is_listed(cs, callee, params, wired, n - 1, k);
        let i = choose|i: int| 0 <= i < before.len() && before[i] == x;
        assert(after[i] == x);
    } else {
        assert(after[after.len() - 1] == x);
    }
}

proof fn flows_are_listed(
    p: ProgramV,
    edges: Seq<CallGraphEdge>,
    wired: Set<(u32, u32, u32)>,
    i: int,
    n: int,
    x: ArgFlowEdge,
)
    requires
        0 <= i < n <= edges.len(),
        p.arg_flows_at(edges[i], wired).contains(x),
    ensures
        p.arg_flows(edges, wired, n).contains(x),
    decreases n,
{
    let before = p.arg_flows(edges, wired, n - 1);
    let last = p.arg_flows_at(edges[n - 1], wired);
    let after = p.arg_flows(edges, wired, n);
    if i < n - 1 {
        flows_are_listed(p, edges, wired, i, n - 1, x);
        let j = choose|j: int| 0 <= j < before.len() && before[j] == x;
        assert(after[j] == x);
    } else {
        let j = choose|j: int| 0 <= j < last.len() && last[j] == x;
        assert(after[before.len() + j] == x);
    }
}

/// Whether an argument flow says that what a call passes at a position goes to
/// the parameter there.
pub open spec fn goes_to_param(p: ProgramV, e: CallGraphEdge, k: u32, x: ArgFlowEdge) -> bool {
    let cs = p.site(e.call_site)->0;
    &&& x.call_site == e.call_site
    &&& x.arg_index == k
    &&& x.formal == p.symbols.function(e.callee)->0.params[k as int]
    &&& match arg_at(cs.var_args, k, 0) {
        Some(v) => x.actual_var == Some(v) && x.actual_fn is None,
        None => x.actual_var is None && x.actual_fn == fn_arg_at(cs.fn_args, k, 0),
    }
}

/// Every argument that a call hands on has its argument flow, whether the call
/// goes by a name or through a pointer.
pub proof fn handed_on_arguments_have_flows(
    p: ProgramV,
    retain: bool,
    models: Seq<ModelV>,
    budget: Option<u64>,
    ipc: bool,
    e: CallGraphEdge,
    k: u32,
)
    requires
        p.graph(models).constraints.len() <= usize::MAX,
        well_numbered(p),
        p.analysis(retain, models, budget, ipc).1.call_edges.contains(e),
        e.resolution != ResolutionKind::IpcBridge,
        hands_on(solved_graph(p, models), p, e, k),
    ensures
        exists|x: ArgFlowEdge| #[trigger]
            p.analysis(retain, models, budget, ipc).1.arg_flow_edges.contains(x) && goes_to_param(
                p,
                e,
                k,
                x,
            ),
{
    let g = solved_graph(p, models);
    let a = before_calls(g, p);
    let start = g.start(p, models);
    before_calls_sound(g, p, models);
    start_keeps(g, p, models);
    assert(all_wired(a, p, g));
    extended_refl(g);
    direct_calls_wired(a, p, models, g, p.symbols.call_sites.len() as int, loaded_in(g));
    run_wired(start, p, models, g, looks(p, models, budget));
    analysis_ends(p, retain, models, budget, ipc);
    let end = start.run(p, models, looks(p, models, budget));
    let r = p.analysis(retain, models, budget, ipc).1;
    let asked = p.asked_graph(models, ipc);
    assert(end.edges.contains(e));
    let cs = p.site(e.call_site)->0;
    let f = p.symbols.function(e.callee)->0;
    assert(end.wired.contains((e.call_site.0, k, e.callee.0)));
    assert(cs.id == e.call_site);
    let params = f.params;
    let flow = arg_flow_of(cs, e.callee, params[k as int], k, r.wired_arg_flow);
    assert(flow is Some);
    let x = flow->0;
    flow_is_listed(cs, e.callee, params, r.wired_arg_flow, params.len() as int, k);
    let i = choose|i: int| 0 <= i < r.call_edges.len() && r.call_edges[i] == e;
    flows_are_listed(p, r.call_edges, r.wired_arg_flow, i, r.call_edges.len() as int, x);
    assert(r.arg_flow_edges.contains(x));
    assert(goes_to_param(p, e, k, x));
}

} // verus!
