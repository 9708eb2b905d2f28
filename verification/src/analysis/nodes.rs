//! That constraints lead to nodes that are there.

use crate::analysis::constraints::ConstraintKind;
use crate::analysis::flows::{call_indices_leave, indices_leave};
use crate::analysis::models::{model_for_callee, model_of, Effect, ModelV};
use crate::analysis::pag::{arg_at, lookup_arg, ExpandV, PagV};
use crate::collections::{has_key, value_of};
use crate::entries::entry_facts;
use crate::ir::flow::{FlowV, ReturnV};
use crate::ir::ids::{CallSiteId, FnId, LocId, PagNodeId, TypeId, VarId};
use crate::ir::program::{returned, ProgramV};
use crate::ir::symbol::{FnV, SiteV, VarV};
use vstd::prelude::*;

verus! {

/// Whether every constraint leads to a node that is there, and the nodes of
/// variables and of the targets of calls are there.
pub open spec fn noded(g: PagV) -> bool {
    &&& forall|i: int|
        0 <= i < g.constraints.len() ==> (#[trigger] g.constraints[i]).dst.0 < g.nodes.len()
    &&& forall|v: u32| #[trigger]
        has_key(g.var_node, v) ==> value_of(g.var_node, v) < g.nodes.len()
    &&& forall|c: u32| #[trigger]
        has_key(g.call_targets, c) ==> value_of(g.call_targets, c) < g.nodes.len()
}

/// Whether no node is lost, and constraints that lead to nodes that are there
/// still do, while numbers of nodes last and `dst` is one that is there.
spec fn nodes_kept(a: PagV, b: PagV, dst: PagNodeId) -> bool {
    &&& a.nodes.len() <= b.nodes.len()
    &&& noded(a) && dst.0 < a.nodes.len() && b.nodes.len() <= u32::MAX ==> noded(b)
}

/// The same, whatever nodes are there.
spec fn all_kept(a: PagV, b: PagV) -> bool {
    &&& a.nodes.len() <= b.nodes.len()
    &&& noded(a) && b.nodes.len() <= u32::MAX ==> noded(b)
}

proof fn with_var_kept(a: PagV, v: VarId)
    ensures
        all_kept(a, a.with_var(v)),
        noded(a) && a.with_var(v).nodes.len() <= u32::MAX ==> a.var_node_after(v).0 < a.with_var(
            v,
        ).nodes.len(),
{
    let b = a.with_var(v);
    if !has_key(a.var_node, v.0) {
        entry_facts(a.var_node, v.0, a.next_node());
        if noded(a) && b.nodes.len() <= u32::MAX {
            assert forall|x: u32| #[trigger] has_key(b.var_node, x) implies value_of(b.var_node, x)
                < b.nodes.len() by {
                if x != v.0 {
                    assert(has_key(a.var_node, x));
                    assert(value_of(b.var_node, x) == value_of(a.var_node, x));
                }
            }
            assert forall|c: u32| #[trigger] has_key(b.call_targets, c) implies value_of(
                b.call_targets,
                c,
            ) < b.nodes.len() by {
                assert(has_key(a.call_targets, c));
            }
        }
    }
}

proof fn with_target_kept(a: PagV, cs: CallSiteId)
    ensures
        all_kept(a, a.with_target(cs)),
        noded(a) && a.with_target(cs).nodes.len() <= u32::MAX ==> a.target_after(cs).0
            < a.with_target(cs).nodes.len(),
{
    let b = a.with_target(cs);
    if !has_key(a.call_targets, cs.0) {
        entry_facts(a.call_targets, cs.0, a.next_node());
        if noded(a) && b.nodes.len() <= u32::MAX {
            assert forall|x: u32| #[trigger] has_key(b.call_targets, x) implies value_of(
                b.call_targets,
                x,
            ) < b.nodes.len() by {
                if x != cs.0 {
                    assert(has_key(a.call_targets, x));
                    assert(value_of(b.call_targets, x) == value_of(a.call_targets, x));
                }
            }
            assert forall|v: u32| #[trigger] has_key(b.var_node, v) implies value_of(b.var_node, v)
                < b.nodes.len() by {
                assert(has_key(a.var_node, v));
            }
        }
    }
}

/// More nodes, and the same constraints and variables.
proof fn more_nodes_kept(a: PagV, b: PagV)
    requires
        a.nodes.len() <= b.nodes.len(),
        b.constraints == a.constraints,
        b.var_node == a.var_node,
        b.call_targets == a.call_targets,
    ensures
        all_kept(a, b),
{
    if noded(a) {
        assert forall|v: u32| #[trigger] has_key(b.var_node, v) implies value_of(b.var_node, v)
            < b.nodes.len() by {
            assert(has_key(a.var_node, v));
        }
        assert forall|c: u32| #[trigger] has_key(b.call_targets, c) implies value_of(
            b.call_targets,
            c,
        ) < b.nodes.len() by {
            assert(has_key(a.call_targets, c));
        }
    }
}

proof fn with_constraint_kept(a: PagV, kind: ConstraintKind, dst: PagNodeId, src: PagNodeId)
    ensures
        nodes_kept(a, a.with_constraint(kind, dst, src), dst),
{
    let b = a.with_constraint(kind, dst, src);
    if noded(a) && dst.0 < a.nodes.len() {
        assert forall|i: int| 0 <= i < b.constraints.len() implies (
        #[trigger] b.constraints[i]).dst.0 < b.nodes.len() by {
            if i < a.constraints.len() {
                assert(b.constraints[i] == a.constraints[i]);
            }
        }
    }
}

proof fn with_addr_of_kept(a: PagV, dst: PagNodeId, l: LocId)
    ensures
        nodes_kept(a, a.with_addr_of(dst, l), dst),
{
    match a.node_of_loc(l) {
        Some(n) => {
            with_constraint_kept(a, ConstraintKind::AddrOf, dst, n);
        },
        None => {},
    }
}

proof fn ensured_var_loc_kept(a: PagV, p: ProgramV, v: VarId)
    ensures
        all_kept(a, a.ensured_var_loc(p, v).0),
{
    more_nodes_kept(a, a.ensured_var_loc(p, v).0);
}

proof fn with_return_model_kept(
    a: PagV,
    dst: PagNodeId,
    model: ModelV,
    params: Option<Seq<VarId>>,
    n: int,
)
    ensures
        nodes_kept(a, a.with_return_model(dst, model, params, n), dst),
    decreases n,
{
    if n > 0 {
        with_return_model_kept(a, dst, model, params, n - 1);
        let q = a.with_return_model(dst, model, params, n - 1);
        match model.effects[n - 1] {
            Effect::ReturnAlias { param } => match params {
                Some(ps) => {
                    if param < ps.len() {
                        let formal = ps[param as int];
                        with_var_kept(q, formal);
                        with_constraint_kept(
                            q.with_var(formal),
                            ConstraintKind::Copy,
                            dst,
                            q.var_node_after(formal),
                        );
                    }
                },
                None => {},
            },
            Effect::ReturnHeap => {
                let desc = model.name + "() storage"@;
                let q1 = q.with_heap(TypeId(0), desc);
                more_nodes_kept(q, q1);
                with_addr_of_kept(q1, dst, q.next_loc());
            },
            _ => {},
        }
    }
}

proof fn or_model_kept(
    e: ExpandV,
    p: ProgramV,
    models: Seq<ModelV>,
    dst: PagNodeId,
    name: Seq<char>,
    candidates: Seq<FnId>,
)
    ensures
        nodes_kept(e.pag, e.or_model(p, models, dst, name, candidates).pag, dst),
{
    match model_of(models, name, 0) {
        Some(m) => {
            with_return_model_kept(
                e.pag,
                dst,
                m,
                p.first_params(candidates, 0),
                m.effects.len() as int,
            );
        },
        None => {},
    }
}

proof fn expand_kept(
    e: ExpandV,
    p: ProgramV,
    models: Seq<ModelV>,
    dst: PagNodeId,
    callee: FnId,
    fuel: nat,
)
    ensures
        nodes_kept(e.pag, e.expand(p, models, dst, callee, fuel).pag, dst),
    decreases fuel, 0int, 0int,
{
    if fuel == 0 || e.visited.contains(callee.0) {
    } else {
        let entered = ExpandV { visited: e.visited.insert(callee.0), applied: false, ..e };
        match returned(p.fn_returns, callee.0, 0) {
            Some(flows) => {
                flows_kept(entered, p, models, dst, callee, flows, 0, (fuel - 1) as nat);
            },
            None => {},
        }
    }
}

proof fn flows_kept(
    e: ExpandV,
    p: ProgramV,
    models: Seq<ModelV>,
    dst: PagNodeId,
    callee: FnId,
    flows: Seq<ReturnV>,
    i: int,
    fuel: nat,
)
    ensures
        nodes_kept(e.pag, e.flows(p, models, dst, callee, flows, i, fuel).pag, dst),
    decreases fuel, 2int, flows.len() - i,
{
    if i < 0 || i >= flows.len() {
    } else {
        let next = match flows[i] {
            ReturnV::AddrOfVar { src } => {
                let (q, l) = e.pag.ensured_var_loc(p, src);
                ensured_var_loc_kept(e.pag, p, src);
                match l {
                    Some(loc) => {
                        with_addr_of_kept(q, dst, loc);
                        ExpandV { pag: q.with_addr_of(dst, loc), applied: true, ..e }
                    },
                    None => e,
                }
            },
            ReturnV::AddrOfFn { callee: f } => match e.pag.fn_location(f) {
                Some(loc) => {
                    with_addr_of_kept(e.pag, dst, loc);
                    ExpandV { pag: e.pag.with_addr_of(dst, loc), applied: true, ..e }
                },
                None => e,
            },
            ReturnV::Copy { src } => {
                with_var_kept(e.pag, src);
                let q = e.pag.with_var(src);
                with_constraint_kept(q, ConstraintKind::Copy, dst, e.pag.var_node_after(src));
                ExpandV {
                    pag: q.with_constraint(ConstraintKind::Copy, dst, e.pag.var_node_after(src)),
                    applied: true,
                    ..e
                }
            },
            ReturnV::Call { callee_name } => match p.symbols.function(callee) {
                Some(f) => {
                    let inner = p.symbols.candidates(callee_name, Some(f.file));
                    let start = ExpandV { applied: false, ..e };
                    let after = start.inner(p, models, dst, inner, 0, fuel);
                    inner_kept(start, p, models, dst, inner, 0, fuel);
                    let modeled = after.or_model(p, models, dst, callee_name, inner);
                    or_model_kept(after, p, models, dst, callee_name, inner);
                    ExpandV { applied: e.applied || modeled.applied, ..modeled }
                },
                None => e,
            },
        };
        assert(nodes_kept(e.pag, next.pag, dst));
        flows_kept(next, p, models, dst, callee, flows, i + 1, fuel);
    }
}

proof fn inner_kept(
    e: ExpandV,
    p: ProgramV,
    models: Seq<ModelV>,
    dst: PagNodeId,
    inner: Seq<FnId>,
    j: int,
    fuel: nat,
)
    ensures
        nodes_kept(e.pag, e.inner(p, models, dst, inner, j, fuel).pag, dst),
    decreases fuel, 1int, inner.len() - j,
{
    if j < 0 || j >= inner.len() {
    } else {
        let one = e.expand(p, models, dst, inner[j], fuel);
        expand_kept(e, p, models, dst, inner[j], fuel);
        let next = ExpandV { applied: e.applied || one.applied, ..one };
        inner_kept(next, p, models, dst, inner, j + 1, fuel);
    }
}

proof fn with_pair_kept(a: PagV, kind: ConstraintKind, dst: VarId, src: VarId)
    ensures
        all_kept(a, a.with_pair(kind, dst, src)),
{
    let d = a.var_node_after(dst);
    let q = a.with_var(dst);
    with_var_kept(a, dst);
    with_var_kept(q, src);
    with_constraint_kept(q.with_var(src), kind, d, q.var_node_after(src));
}

proof fn with_flow_kept(a: PagV, p: ProgramV, models: Seq<ModelV>, flow: FlowV)
    ensures
        all_kept(a, a.with_flow(p, models, flow)),
{
    match flow {
        FlowV::Copy { dst, src } => {
            with_pair_kept(a, ConstraintKind::Copy, dst, src);
        },
        FlowV::Load { dst, src } => {
            with_pair_kept(a, ConstraintKind::Load, dst, src);
        },
        FlowV::Store { dst, src } => {
            with_pair_kept(a, ConstraintKind::Store, dst, src);
        },
        FlowV::AddrOfVar { dst, src } => {
            with_var_kept(a, dst);
            let n = a.var_node_after(dst);
            let (q, l) = a.with_var(dst).ensured_var_loc(p, src);
            ensured_var_loc_kept(a.with_var(dst), p, src);
            match l {
                Some(loc) => {
                    with_addr_of_kept(q, n, loc);
                },
                None => {},
            }
        },
        FlowV::AddrOfFn { dst, callee } => {
            with_var_kept(a, dst);
            let q = a.with_var(dst);
            match q.fn_location(callee) {
                Some(loc) => {
                    with_addr_of_kept(q, a.var_node_after(dst), loc);
                },
                None => {},
            }
        },
        FlowV::GepField { dst, base, field, field_name } => {
            with_var_kept(a, dst);
            let n = a.var_node_after(dst);
            let q = a.with_var(dst);
            with_var_kept(q, base);
            let r = q.with_var(base);
            let b = r.with_gep(n, q.var_node_after(base), field, field_name);
            if noded(a) && b.nodes.len() <= u32::MAX {
                assert forall|i: int| 0 <= i < b.constraints.len() implies (
                #[trigger] b.constraints[i]).dst.0 < b.nodes.len() by {
                    if i < r.constraints.len() {
                        assert(b.constraints[i] == r.constraints[i]);
                    }
                }
            }
        },
        FlowV::ArrayFnMember { array, callee } => {
            with_var_kept(a, array);
            let q = a.with_var(array);
            match q.fn_location(callee) {
                Some(loc) => {
                    with_addr_of_kept(q, a.var_node_after(array), loc);
                    more_nodes_kept(
                        q.with_addr_of(a.var_node_after(array), loc),
                        a.with_flow(p, models, flow),
                    );
                },
                None => {},
            }
        },
        FlowV::CallReturn { dst, callee_name } => {
            with_var_kept(a, dst);
            let n = a.var_node_after(dst);
            let candidates = p.symbols.candidates(callee_name, p.file_of_var(dst));
            let start = ExpandV { pag: a.with_var(dst), visited: Set::empty(), applied: false };
            let fuel = p.fn_returns.len() + 1;
            inner_kept(start, p, models, n, candidates, 0, fuel);
            or_model_kept(
                start.inner(p, models, n, candidates, 0, fuel),
                p,
                models,
                n,
                callee_name,
                candidates,
            );
        },
        FlowV::CallReturnIndirect { dst, callee_var } => {
            with_var_kept(a, dst);
            more_nodes_kept(a.with_var(dst), a.with_flow(p, models, flow));
        },
        FlowV::NewHeap { dst } => {
            with_var_kept(a, dst);
            let q = a.with_var(dst);
            let ty = match p.symbols.variable(dst) {
                Some(v) => v.type_id,
                None => TypeId(0),
            };
            let r = q.with_heap(ty, "new heap"@);
            more_nodes_kept(q, r);
            with_addr_of_kept(r, a.var_node_after(dst), q.next_loc());
        },
        FlowV::StringConst { dst, value } => {
            with_var_kept(a, dst);
            let q = a.with_var(dst);
            let (r, l) = q.interned_string(p, value);
            more_nodes_kept(q, r);
            with_addr_of_kept(r, a.var_node_after(dst), l);
        },
    }
}

proof fn with_flows_kept(a: PagV, p: ProgramV, models: Seq<ModelV>, n: int)
    ensures
        all_kept(a, a.with_flows(p, models, n)),
    decreases n,
{
    if n > 0 {
        with_flows_kept(a, p, models, n - 1);
        with_flow_kept(a.with_flows(p, models, n - 1), p, models, p.flow[n - 1]);
    }
}

proof fn with_lookups_kept(a: PagV, sites: Seq<SiteV>, models: Seq<ModelV>, n: int)
    ensures
        all_kept(a, a.with_lookups(sites, models, n)),
    decreases n,
{
    if n > 0 {
        with_lookups_kept(a, sites, models, n - 1);
        let q = a.with_lookups(sites, models, n - 1);
        let cs = sites[n - 1];
        match model_for_callee(models, cs.callee_name) {
            Some(m) => match lookup_arg(m.effects, 0) {
                Some(at) => match cs.return_dst {
                    Some(dst) => match arg_at(cs.var_args, at, 0) {
                        Some(name) => {
                            with_pair_kept(q, ConstraintKind::Dlsym, dst, name);
                        },
                        None => {},
                    },
                    None => {},
                },
                None => {},
            },
            None => {},
        }
    }
}

proof fn with_calls_kept(a: PagV, p: ProgramV, n: int)
    ensures
        all_kept(a, a.with_calls(p, n)),
    decreases n,
{
    if n > 0 {
        with_calls_kept(a, p, n - 1);
        let r = a.with_calls(p, n - 1);
        let cs = p.symbols.call_sites[n - 1];
        let t = r.target_after(cs.id);
        let q = r.with_target(cs.id);
        with_target_kept(r, cs.id);
        let v = match cs.callee_var {
            Some(v) => Some(v),
            None => p.var_in_fn(cs.callee_name, cs.caller),
        };
        match v {
            Some(v) => {
                with_var_kept(q, v);
                with_constraint_kept(q.with_var(v), ConstraintKind::Copy, t, q.var_node_after(v));
                with_constraint_kept(q.with_var(v), ConstraintKind::Load, t, q.var_node_after(v));
            },
            None => {},
        }
    }
}

proof fn with_variables_kept(a: PagV, vars: Seq<VarV>, n: int)
    ensures
        all_kept(a, a.with_variables(vars, n)),
    decreases n,
{
    if n > 0 {
        with_variables_kept(a, vars, n - 1);
        let q = a.with_variables(vars, n - 1);
        with_var_kept(q, vars[n - 1].id);
        let r = q.with_var(vars[n - 1].id);
        more_nodes_kept(r, r.with_place(vars[n - 1]));
    }
}

proof fn with_functions_kept(a: PagV, fns: Seq<FnV>, n: int)
    ensures
        all_kept(a, a.with_functions(fns, n)),
    decreases n,
{
    if n > 0 {
        with_functions_kept(a, fns, n - 1);
        more_nodes_kept(a.with_functions(fns, n - 1), a.with_functions(fns, n));
    }
}

/// Every constraint of the graph of a program leads to a node that is there,
/// while numbers of nodes last.
pub proof fn constraints_lead_to_nodes(p: ProgramV, models: Seq<ModelV>, i: int)
    requires
        p.graph(models).nodes.len() <= u32::MAX,
        0 <= i < p.graph(models).constraints.len(),
    ensures
        p.graph(models).constraints[i].dst.0 < p.graph(models).nodes.len(),
{
    let sites = p.symbols.call_sites;
    let vars = p.symbols.variables;
    let fns = p.symbols.functions;
    let empty = PagV::empty();
    let a = empty.with_variables(vars, vars.len() as int);
    let b = a.with_functions(fns, fns.len() as int);
    let c = b.with_flows(p, models, p.flow.len() as int);
    let d = c.with_lookups(sites, models, sites.len() as int);
    let e = d.with_calls(p, sites.len() as int);
    with_variables_kept(empty, vars, vars.len() as int);
    with_functions_kept(a, fns, fns.len() as int);
    with_flows_kept(b, p, models, p.flow.len() as int);
    with_lookups_kept(c, sites, models, sites.len() as int);
    with_calls_kept(d, p, sites.len() as int);
    let q = e.with_indices(0, e.constraints.len() as int);
    indices_leave(e, 0, e.constraints.len() as int);
    call_indices_leave(q, sites, sites.len() as int);
    assert(noded(empty));
    assert(noded(e));
    assert(p.graph(models).constraints == e.constraints);
    assert(p.graph(models).nodes == e.nodes);
}

} // verus!
