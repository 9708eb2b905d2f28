//! What calls through variables come to.

use crate::analysis::constraints::ConstraintKind;
use crate::analysis::flows::{
    builds_on, call_indices_leave, indices_leave, on_refl, on_trans, with_constraint_on,
    with_target_on, with_var_on,
};
use crate::analysis::laws::{
    analysis_ends, copies_are_closed, graphs_are_indexed, indexed, indirect_calls_have_edges,
    loads_are_closed, looks, may_hold, solved_graph, unlimited_results_are_whole,
};
use crate::analysis::models::ModelV;
use crate::analysis::pag::{through_field, PagV};
use crate::analysis::progress::shown;
use crate::collections::{has_key, value_of};
use crate::entries::entry_facts;
use crate::ir::ids::{CallSiteId, FnId, LocId, VarId};
use crate::ir::program::ProgramV;
use crate::ir::symbol::SiteV;
use vstd::prelude::*;

verus! {

/// Whether a constraint at a position hands what a variable holds, or what
/// stands where it points, to the target of a call.
pub open spec fn calls_through(g: PagV, i: int, cs: SiteV, v: VarId) -> bool {
    &&& 0 <= i < g.constraints.len()
    &&& g.constraints[i].kind == if through_field(cs.callee_name) {
        ConstraintKind::Copy
    } else {
        ConstraintKind::Load
    }
    &&& has_key(g.call_targets, cs.id.0)
    &&& g.constraints[i].dst.0 == value_of(g.call_targets, cs.id.0)
    &&& g.node_of_var(v) == Some(g.constraints[i].src)
}

/// A call through a variable is in a graph.
pub open spec fn call_is_there(g: PagV, cs: SiteV) -> bool {
    match cs.callee_var {
        Some(v) => !cs.is_direct ==> exists|i: int| #[trigger] calls_through(g, i, cs, v),
        None => true,
    }
}

spec fn targets_kept(a: PagV, b: PagV) -> bool {
    forall|s: u32| #[trigger]
        has_key(a.call_targets, s) ==> has_key(b.call_targets, s) && value_of(b.call_targets, s)
            == value_of(a.call_targets, s)
}

proof fn call_stays(a: PagV, b: PagV, cs: SiteV)
    requires
        builds_on(a, b),
        targets_kept(a, b),
        call_is_there(a, cs),
    ensures
        call_is_there(b, cs),
{
    match cs.callee_var {
        Some(v) => {
            if !cs.is_direct {
                let i = choose|i: int| #[trigger] calls_through(a, i, cs, v);
                assert(b.constraints.take(a.constraints.len() as int)[i] == a.constraints[i]);
                assert(b.node_of_var(v) == a.node_of_var(v));
                assert(calls_through(b, i, cs, v));
            }
        },
        None => {},
    }
}

proof fn target_is_known(a: PagV, s: CallSiteId)
    ensures
        targets_kept(a, a.with_target(s)),
        has_key(a.with_target(s).call_targets, s.0),
        value_of(a.with_target(s).call_targets, s.0) == a.target_after(s).0,
{
    entry_facts(a.call_targets, s.0, a.next_node());
}

proof fn with_call_on(a: PagV, p: ProgramV, cs: SiteV)
    ensures
        builds_on(a, a.with_call(p, cs)),
        targets_kept(a, a.with_call(p, cs)),
        call_is_there(a.with_call(p, cs), cs),
{
    let b = a.with_call(p, cs);
    let q = a.with_target(cs.id);
    let t = a.target_after(cs.id);
    on_refl(a);
    with_target_on(a, cs.id);
    target_is_known(a, cs.id);
    let callee = match cs.callee_var {
        Some(v) => Some(v),
        None => p.var_in_fn(cs.callee_name, cs.caller),
    };
    match callee {
        Some(v) => {
            let u = q.with_var(v);
            with_var_on(q, v);
            on_trans(a, q, u);
            assert(u.call_targets == q.call_targets);
            let n = q.var_node_after(v);
            with_constraint_on(u, ConstraintKind::Copy, t, n);
            with_constraint_on(u, ConstraintKind::Load, t, n);
            on_trans(a, u, u.with_constraint(ConstraintKind::Copy, t, n));
            on_trans(a, u, u.with_constraint(ConstraintKind::Load, t, n));
            if cs.callee_var is Some && !cs.is_direct {
                assert(b.node_of_var(v) == u.node_of_var(v));
                assert(calls_through(b, u.constraints.len() as int, cs, v));
            }
        },
        None => {},
    }
}

proof fn with_calls_linked(a: PagV, p: ProgramV, n: int)
    requires
        n <= p.symbols.call_sites.len(),
    ensures
        forall|k: int|
            0 <= k < n ==> call_is_there(a.with_calls(p, n), #[trigger] p.symbols.call_sites[k]),
    decreases n,
{
    if n > 0 {
        with_calls_linked(a, p, n - 1);
        let r = a.with_calls(p, n - 1);
        let b = a.with_calls(p, n);
        with_call_on(r, p, p.symbols.call_sites[n - 1]);
        assert forall|k: int| 0 <= k < n implies call_is_there(
            b,
            #[trigger] p.symbols.call_sites[k],
        ) by {
            if k < n - 1 {
                call_stays(r, b, p.symbols.call_sites[k]);
            }
        }
    }
}

proof fn indices_keep_targets(a: PagV, from: int, to: int)
    ensures
        a.with_indices(from, to).call_targets == a.call_targets,
    decreases to - from,
{
    if to > from {
        indices_keep_targets(a, from, to - 1);
    }
}

proof fn call_indices_keep_targets(a: PagV, sites: Seq<SiteV>, n: int)
    ensures
        a.with_call_indices(sites, n).call_targets == a.call_targets,
    decreases n,
{
    if n > 0 {
        call_indices_keep_targets(a, sites, n - 1);
    }
}

/// Every call through a variable is in the graph of a program.
pub proof fn calls_are_in_the_graph(p: ProgramV, models: Seq<ModelV>, k: int)
    requires
        0 <= k < p.symbols.call_sites.len(),
    ensures
        call_is_there(solved_graph(p, models), p.symbols.call_sites[k]),
{
    let sites = p.symbols.call_sites;
    let vars = p.symbols.variables;
    let fns = p.symbols.functions;
    let d = PagV::empty().with_variables(vars, vars.len() as int).with_functions(
        fns,
        fns.len() as int,
    ).with_flows(p, models, p.flow.len() as int).with_lookups(sites, models, sites.len() as int);
    let f = d.with_calls(p, sites.len() as int);
    with_calls_linked(d, p, sites.len() as int);
    let h = f.with_indices(0, f.constraints.len() as int);
    indices_leave(f, 0, f.constraints.len() as int);
    indices_keep_targets(f, 0, f.constraints.len() as int);
    call_indices_leave(h, sites, sites.len() as int);
    call_indices_keep_targets(h, sites, sites.len() as int);
    let g = solved_graph(p, models);
    let cs = sites[k];
    assert(call_is_there(f, cs));
    match cs.callee_var {
        Some(v) => {
            if !cs.is_direct {
                let i = choose|i: int| #[trigger] calls_through(f, i, cs, v);
                assert(g.node_of_var(v) == f.node_of_var(v));
                assert(calls_through(g, i, cs, v));
            }
        },
        None => {},
    }
}

/// A call through a variable that may hold a function has an edge to every
/// function that is reached by it, unless the result is partial.
pub proof fn pointers_are_called(
    p: ProgramV,
    retain: bool,
    models: Seq<ModelV>,
    budget: Option<u64>,
    ipc: bool,
    k: int,
    v: VarId,
    l: u32,
    f: FnId,
)
    requires
        p.graph(models).constraints.len() <= usize::MAX,
        budget is None || !p.analysis(retain, models, budget, ipc).1.partial,
        0 <= k < p.symbols.call_sites.len(),
        p.symbols.call_sites[k].id.0 == k,
        !p.symbols.call_sites[k].is_direct,
        p.symbols.call_sites[k].callee_var == Some(v),
        match solved_graph(p, models).node_of_var(v) {
            Some(n) => may_hold(solved_graph(p, models), p, models, looks(p, models, budget), n.0, l),
            None => false,
        },
        match p.graph(models).function_at(LocId(l)) {
            Some(x) => p.reached(x).contains(f),
            None => false,
        },
    ensures
        shown(
            p.analysis(retain, models, budget, ipc).1.call_edges,
            p.symbols.call_sites[k].id.0,
            f,
        ),
{
    if budget is None {
        unlimited_results_are_whole(p, retain, models, ipc);
    }
    let g = solved_graph(p, models);
    let cs = p.symbols.call_sites[k];
    calls_are_in_the_graph(p, models, k);
    analysis_ends(p, retain, models, budget, ipc);
    graphs_are_indexed(p, models);
    let i = choose|i: int| #[trigger] calls_through(g, i, cs, v);
    assert(indexed(g, i));
    assert(g.function_at(LocId(l)) == p.graph(models).function_at(LocId(l))) by {
        assert(g.location(LocId(l)) == p.graph(models).location(LocId(l)));
    }
    if through_field(cs.callee_name) {
        copies_are_closed(g, p, models, looks(p, models, budget), i, l);
    } else {
        loads_are_closed(g, p, models, looks(p, models, budget), i, l, l);
    }
    assert(g.call_targets == p.graph(models).call_targets);
    indirect_calls_have_edges(p, retain, models, budget, ipc, k, l, f);
}

} // verus!
