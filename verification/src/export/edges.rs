//! What the edges of the value-flow graph say of values.

use crate::analysis::constraints::{ArgFlowEdge, ConstraintKind, ConstraintV};
use crate::analysis::laws::takes_address;
use crate::analysis::models::ModelV;
use crate::analysis::pag::{arg_at, PagNodeKind, PagV};
use crate::analysis::results::{addresses_are_reported, copies_are_reported, reported};
use crate::analysis::solver::ResultV;
use crate::collections::{has_key, value_of};
use crate::export::flow_graph::{
    argument_edge, argument_edges, constraint_edges, flow_node, graph, storage_edges, EndsV,
    FlowEdge, FlowEdgeKind,
};
use crate::ir::ids::CallSiteId;
use crate::ir::program::ProgramV;
use vstd::prelude::*;

verus! {

/// Whether a constraint makes values travel from one node to another in a way.
pub open spec fn carries(
    c: ConstraintV,
    kind: ConstraintKind,
    from: u32,
    to: u32,
) -> bool {
    c.kind == kind && c.src.0 == from && c.dst.0 == to
}

/// Whether one of the constraints of a graph does.
pub open spec fn some_carries(pag: PagV, kind: ConstraintKind, from: u32, to: u32) -> bool {
    exists|i: int|
        0 <= i < pag.constraints.len() && carries(#[trigger] pag.constraints[i], kind, from, to)
}

proof fn storage_kinds(pag: PagV, n: int)
    requires
        0 <= n <= pag.var_location.len(),
    ensures
        forall|e: FlowEdge| #[trigger]
            storage_edges(pag, n).contains(e) <==> e.kind == FlowEdgeKind::Storage && exists|i: int|
                0 <= i < n && has_key(pag.var_node, (#[trigger] pag.var_location[i]).0) && has_key(
                    pag.loc_node,
                    pag.var_location[i].1,
                ) && e.src == value_of(pag.var_node, pag.var_location[i].0) && e.dst == value_of(
                    pag.loc_node,
                    pag.var_location[i].1,
                ),
    decreases n,
{
    if n > 0 {
        storage_kinds(pag, n - 1);
        let before = storage_edges(pag, n - 1);
        let all = storage_edges(pag, n);
        assert forall|e: FlowEdge| #[trigger] all.contains(e) <==> e.kind == FlowEdgeKind::Storage
            && exists|i: int|
            0 <= i < n && has_key(pag.var_node, (#[trigger] pag.var_location[i]).0) && has_key(
                pag.loc_node,
                pag.var_location[i].1,
            ) && e.src == value_of(pag.var_node, pag.var_location[i].0) && e.dst == value_of(
                pag.loc_node,
                pag.var_location[i].1,
            ) by {
            if all.contains(e) {
                let k = choose|k: int| 0 <= k < all.len() && all[k] == e;
                if k < before.len() {
                    assert(before[k] == e);
                    assert(before.contains(e));
                } else {
                    assert(e.src == value_of(pag.var_node, pag.var_location[n - 1].0));
                }
            }
            if before.contains(e) {
                let k = choose|k: int| 0 <= k < before.len() && before[k] == e;
                assert(all[k] == e);
            }
            if e.kind == FlowEdgeKind::Storage && has_key(
                pag.var_node,
                pag.var_location[n - 1].0,
            ) && has_key(pag.loc_node, pag.var_location[n - 1].1) && e.src == value_of(
                pag.var_node,
                pag.var_location[n - 1].0,
            ) && e.dst == value_of(pag.loc_node, pag.var_location[n - 1].1) {
                assert(all[all.len() - 1] == e);
            }
        }
    }
}

proof fn argument_kinds(pag: PagV, flows: Seq<ArgFlowEdge>, n: int)
    requires
        0 <= n <= flows.len(),
    ensures
        forall|e: FlowEdge| #[trigger]
            argument_edges(pag, flows, n).contains(e) ==> e.kind == FlowEdgeKind::CallArg,
        forall|i: int|
            0 <= i < n && argument_edge(pag, #[trigger] flows[i]) is Some ==> argument_edges(
                pag,
                flows,
                n,
            ).contains(argument_edge(pag, flows[i])->0),
    decreases n,
{
    if n > 0 {
        argument_kinds(pag, flows, n - 1);
        let before = argument_edges(pag, flows, n - 1);
        let all = argument_edges(pag, flows, n);
        assert forall|e: FlowEdge| #[trigger] all.contains(e) implies e.kind
            == FlowEdgeKind::CallArg by {
            let k = choose|k: int| 0 <= k < all.len() && all[k] == e;
            if k < before.len() {
                assert(before[k] == e);
                assert(before.contains(e));
            }
        }
        assert forall|i: int|
            0 <= i < n && argument_edge(pag, #[trigger] flows[i]) is Some implies all.contains(
            argument_edge(pag, flows[i])->0,
        ) by {
            let e = argument_edge(pag, flows[i])->0;
            if i < n - 1 {
                assert(before.contains(e));
                let k = choose|k: int| 0 <= k < before.len() && before[k] == e;
                assert(all[k] == e);
            } else {
                assert(all[all.len() - 1] == e);
            }
        }
    }
}

proof fn ends_come_last(s: EndsV, p: ProgramV, pag: PagV, events: Seq<(CallSiteId, u32)>, n: int)
    requires
        0 <= n <= events.len(),
    ensures
        ({
            let t = s.with_ends(p, pag, events, n);
            &&& forall|e: FlowEdge| #[trigger] s.edges.contains(e) ==> t.edges.contains(e)
            &&& forall|e: FlowEdge| #[trigger]
                t.edges.contains(e) && e.kind != FlowEdgeKind::Terminates ==> s.edges.contains(e)
            &&& s.nodes.len() <= t.nodes.len()
            &&& forall|k: int| 0 <= k < s.nodes.len() ==> #[trigger] t.nodes[k] == s.nodes[k]
        }),
    decreases n,
{
    if n > 0 {
        ends_come_last(s, p, pag, events, n - 1);
        let r = s.with_ends(p, pag, events, n - 1);
        let t = s.with_ends(p, pag, events, n);
        assert forall|e: FlowEdge| #[trigger] s.edges.contains(e) implies t.edges.contains(e) by {
            assert(r.edges.contains(e));
            let k = choose|k: int| 0 <= k < r.edges.len() && r.edges[k] == e;
            assert(t.edges[k] == e);
        }
        assert forall|e: FlowEdge| #[trigger]
            t.edges.contains(e) && e.kind != FlowEdgeKind::Terminates implies s.edges.contains(
            e,
        ) by {
            let k = choose|k: int| 0 <= k < t.edges.len() && t.edges[k] == e;
            if k < r.edges.len() {
                assert(r.edges[k] == e);
                assert(r.edges.contains(e));
            }
        }
    }
}

/// The edges of a graph without those to the ends of values.
spec fn lasting_edges(pag: PagV, result: ResultV) -> Seq<FlowEdge> {
    constraint_edges(pag.constraints) + storage_edges(pag, pag.var_location.len() as int)
        + argument_edges(pag, result.arg_flow_edges, result.arg_flow_edges.len() as int)
}

proof fn parts_hold(p: ProgramV, pag: PagV, result: ResultV, e: FlowEdge)
    ensures
        e.kind != FlowEdgeKind::Terminates ==> (graph(p, pag, result).edges.contains(e) <==> (
        constraint_edges(pag.constraints).contains(e) || storage_edges(
            pag,
            pag.var_location.len() as int,
        ).contains(e) || argument_edges(
            pag,
            result.arg_flow_edges,
            result.arg_flow_edges.len() as int,
        ).contains(e))),
{
    let a = constraint_edges(pag.constraints);
    let b = storage_edges(pag, pag.var_location.len() as int);
    let c = argument_edges(pag, result.arg_flow_edges, result.arg_flow_edges.len() as int);
    let s = EndsV {
        nodes: Seq::new(
            pag.nodes.len(),
            |i: int| flow_node(p, pag, pag.nodes[i]),
        ),
        edges: a + b + c,
        seen: Set::empty(),
    };
    let events = result.terminator_events;
    ends_come_last(s, p, pag, events, events.len() as int);
    assert(graph(p, pag, result) == s.with_ends(p, pag, events, events.len() as int));
    let all = a + b + c;
    if all.contains(e) {
        let k = choose|k: int| 0 <= k < all.len() && all[k] == e;
        if k < a.len() {
            assert(a[k] == e);
        } else if k < a.len() + b.len() {
            assert(b[k - a.len()] == e);
        } else {
            assert(c[k - a.len() - b.len()] == e);
        }
    }
    if a.contains(e) {
        let k = choose|k: int| 0 <= k < a.len() && a[k] == e;
        assert(all[k] == e);
    }
    if b.contains(e) {
        let k = choose|k: int| 0 <= k < b.len() && b[k] == e;
        assert(all[a.len() + k] == e);
    }
    if c.contains(e) {
        let k = choose|k: int| 0 <= k < c.len() && c[k] == e;
        assert(all[a.len() + b.len() + k] == e);
    }
    if e.kind != FlowEdgeKind::Terminates {
        let end = s.with_ends(p, pag, events, events.len() as int);
        assert(s.edges.contains(e) ==> end.edges.contains(e));
        assert(end.edges.contains(e) ==> s.edges.contains(e));
        assert(s.edges == all);
    }
}

/// Values travel along exported edges: an edge of each of these kinds goes from
/// one node to another if and only if a constraint of that kind brings something
/// from the one to the other.
pub proof fn values_travel_along_edges(
    p: ProgramV,
    pag: PagV,
    result: ResultV,
    from: u32,
    to: u32,
)
    ensures
        ({
            let edges = graph(p, pag, result).edges;
            &&& edges.contains(FlowEdge { src: from, dst: to, kind: FlowEdgeKind::Copy })
                <==> some_carries(pag, ConstraintKind::Copy, from, to)
            &&& edges.contains(FlowEdge { src: from, dst: to, kind: FlowEdgeKind::AddrOf })
                <==> some_carries(pag, ConstraintKind::AddrOf, from, to)
            &&& edges.contains(FlowEdge { src: from, dst: to, kind: FlowEdgeKind::Load })
                <==> some_carries(pag, ConstraintKind::Load, from, to)
            &&& edges.contains(FlowEdge { src: from, dst: to, kind: FlowEdgeKind::Store })
                <==> some_carries(pag, ConstraintKind::Store, from, to)
            &&& edges.contains(FlowEdge { src: from, dst: to, kind: FlowEdgeKind::Gep })
                <==> some_carries(pag, ConstraintKind::Gep, from, to)
            &&& edges.contains(FlowEdge { src: from, dst: to, kind: FlowEdgeKind::Dlsym })
                <==> some_carries(pag, ConstraintKind::Dlsym, from, to)
        }),
{
    edge_is_a_constraint(p, pag, result, FlowEdgeKind::Copy, ConstraintKind::Copy, from, to);
    edge_is_a_constraint(p, pag, result, FlowEdgeKind::AddrOf, ConstraintKind::AddrOf, from, to);
    edge_is_a_constraint(p, pag, result, FlowEdgeKind::Load, ConstraintKind::Load, from, to);
    edge_is_a_constraint(p, pag, result, FlowEdgeKind::Store, ConstraintKind::Store, from, to);
    edge_is_a_constraint(p, pag, result, FlowEdgeKind::Gep, ConstraintKind::Gep, from, to);
    edge_is_a_constraint(p, pag, result, FlowEdgeKind::Dlsym, ConstraintKind::Dlsym, from, to);
}

/// Whether a kind of edge and a kind of constraint are the same way of
/// travelling.
spec fn same_way(kind: FlowEdgeKind, c: ConstraintKind) -> bool {
    ||| kind == FlowEdgeKind::Copy && c == ConstraintKind::Copy
    ||| kind == FlowEdgeKind::AddrOf && c == ConstraintKind::AddrOf
    ||| kind == FlowEdgeKind::Load && c == ConstraintKind::Load
    ||| kind == FlowEdgeKind::Store && c == ConstraintKind::Store
    ||| kind == FlowEdgeKind::Gep && c == ConstraintKind::Gep
    ||| kind == FlowEdgeKind::Dlsym && c == ConstraintKind::Dlsym
}

proof fn edge_is_a_constraint(
    p: ProgramV,
    pag: PagV,
    result: ResultV,
    kind: FlowEdgeKind,
    c: ConstraintKind,
    from: u32,
    to: u32,
)
    requires
        same_way(kind, c),
    ensures
        graph(p, pag, result).edges.contains(FlowEdge { src: from, dst: to, kind })
            <==> some_carries(pag, c, from, to),
{
    let e = FlowEdge { src: from, dst: to, kind };
    let all = constraint_edges(pag.constraints);
    parts_hold(p, pag, result, e);
    storage_kinds(pag, pag.var_location.len() as int);
    argument_kinds(pag, result.arg_flow_edges, result.arg_flow_edges.len() as int);
    if all.contains(e) {
        let k = choose|k: int| 0 <= k < all.len() && all[k] == e;
        assert(carries(pag.constraints[k], c, from, to));
    }
    if some_carries(pag, c, from, to) {
        let k = choose|k: int|
            0 <= k < pag.constraints.len() && carries(#[trigger] pag.constraints[k], c, from, to);
        assert(all[k] == e);
    }
}

/// In the export of an analysis without a budget, what the start of an edge may
/// hold its end may hold too, if it is the edge of a copy of the program; and
/// the end of an edge of an address may hold the place that the edge starts at.
pub proof fn exported_edges_hand_on(
    p: ProgramV,
    models: Seq<ModelV>,
    ipc: bool,
    i: int,
    l: u32,
)
    requires
        p.graph(models).constraints.len() <= usize::MAX,
        p.analysis(true, models, None, ipc).0.nodes.len() <= u32::MAX,
        0 <= i < p.graph(models).constraints.len(),
    ensures
        ({
            let (pag, result) = p.analysis(true, models, None, ipc);
            let c = p.graph(models).constraints[i];
            &&& c.kind == ConstraintKind::Copy && reported(result.points_to, c.src.0, l)
                ==> reported(result.points_to, c.dst.0, l)
            &&& takes_address(p.graph(models), i, c.dst.0, l) ==> reported(
                result.points_to,
                c.dst.0,
                l,
            )
        }),
{
    let c = p.graph(models).constraints[i];
    if c.kind == ConstraintKind::Copy {
        copies_are_reported(p, models, None, ipc, i, l);
    }
    if takes_address(p.graph(models), i, c.dst.0, l) {
        addresses_are_reported(p, models, None, ipc, i, c.dst.0, l);
    }
}

/// A variable with a place of its own has an edge to it, and no other edge is of
/// that kind.
pub proof fn variables_lead_to_their_places(
    p: ProgramV,
    pag: PagV,
    result: ResultV,
    from: u32,
    to: u32,
)
    ensures
        graph(p, pag, result).edges.contains(
            FlowEdge { src: from, dst: to, kind: FlowEdgeKind::Storage },
        ) <==> exists|i: int|
            0 <= i < pag.var_location.len() && has_key(
                pag.var_node,
                (#[trigger] pag.var_location[i]).0,
            ) && has_key(pag.loc_node, pag.var_location[i].1) && from == value_of(
                pag.var_node,
                pag.var_location[i].0,
            ) && to == value_of(pag.loc_node, pag.var_location[i].1),
{
    let e = FlowEdge { src: from, dst: to, kind: FlowEdgeKind::Storage };
    parts_hold(p, pag, result, e);
    storage_kinds(pag, pag.var_location.len() as int);
    argument_kinds(pag, result.arg_flow_edges, result.arg_flow_edges.len() as int);
    let all = constraint_edges(pag.constraints);
    if all.contains(e) {
        let k = choose|k: int| 0 <= k < all.len() && all[k] == e;
        assert(all[k].kind == FlowEdgeKind::Storage);
    }
}

/// Whether an edge leads from one node to another.
pub open spec fn has_edge(edges: Seq<FlowEdge>, from: u32, to: u32) -> bool {
    exists|i: int|
        0 <= i < edges.len() && (#[trigger] edges[i]).src == from && edges[i].dst == to
}

/// Every argument that reaches a parameter has an edge to it: from the variable
/// that is passed, or from the place of the function that is.
pub proof fn arguments_lead_to_parameters(
    p: ProgramV,
    pag: PagV,
    result: ResultV,
    i: int,
)
    requires
        0 <= i < result.arg_flow_edges.len(),
        has_key(pag.var_node, result.arg_flow_edges[i].formal.0),
    ensures
        ({
            let e = result.arg_flow_edges[i];
            let edges = graph(p, pag, result).edges;
            let to = value_of(pag.var_node, e.formal.0);
            &&& e.actual_var matches Some(v) ==> has_key(pag.var_node, v.0) ==> has_edge(
                edges,
                value_of(pag.var_node, v.0),
                to,
            )
            &&& e.actual_var is None ==> (e.actual_fn matches Some(f) ==> (has_key(
                pag.fn_locations,
                f.0,
            ) && has_key(pag.loc_node, value_of(pag.fn_locations, f.0)) ==> has_edge(
                edges,
                value_of(pag.loc_node, value_of(pag.fn_locations, f.0)),
                to,
            )))
        }),
{
    let e = result.arg_flow_edges[i];
    let edges = graph(p, pag, result).edges;
    let to = value_of(pag.var_node, e.formal.0);
    argument_kinds(pag, result.arg_flow_edges, result.arg_flow_edges.len() as int);
    match argument_edge(pag, e) {
        Some(x) => {
            parts_hold(p, pag, result, x);
            let k = choose|k: int| 0 <= k < edges.len() && edges[k] == x;
            assert(edges[k] == x);
        },
        None => {
            if let Some(v) = e.actual_var {
                if has_key(pag.var_node, v.0) {
                    let from = value_of(pag.var_node, v.0);
                    let c = choose|c: int|
                        0 <= c < pag.constraints.len() && (#[trigger] pag.constraints[c]).src.0
                            == from && pag.constraints[c].dst.0 == to;
                    let x = constraint_edges(pag.constraints)[c];
                    assert(constraint_edges(pag.constraints).contains(x));
                    parts_hold(p, pag, result, x);
                    let k = choose|k: int| 0 <= k < edges.len() && edges[k] == x;
                    assert(edges[k] == x);
                }
            }
        },
    }
}

proof fn end_has_an_edge(
    s: EndsV,
    p: ProgramV,
    pag: PagV,
    events: Seq<(CallSiteId, u32)>,
    n: int,
    i: int,
    from: u32,
)
    requires
        0 <= i < n <= events.len(),
        s.seen == Set::<(u32, u32)>::empty(),
        p.symbols.call_site(events[i].0) is Some,
        arg_at(p.symbols.call_site(events[i].0)->0.var_args, events[i].1, 0) is Some,
        ({
            let v = arg_at(p.symbols.call_site(events[i].0)->0.var_args, events[i].1, 0)->0;
            has_key(pag.var_node, v.0) && from == value_of(pag.var_node, v.0)
        }),
    ensures
        ends_at(s.with_ends(p, pag, events, n).edges, from),
    decreases n,
{
    let r = s.with_ends(p, pag, events, n - 1);
    let t = s.with_ends(p, pag, events, n);
    if i < n - 1 {
        end_has_an_edge(s, p, pag, events, n - 1, i, from);
        let k = choose|k: int|
            0 <= k < r.edges.len() && (#[trigger] r.edges[k]).src == from && r.edges[k].kind
                == FlowEdgeKind::Terminates;
        assert(t.edges[k] == r.edges[k]);
    } else if r.seen.contains((events[i].0.0, events[i].1)) {
        seen_has_an_edge(s, p, pag, events, n - 1, events[i].0, events[i].1, from);
    } else {
        assert(t.edges[t.edges.len() - 1].src == from);
    }
}

proof fn seen_has_an_edge(
    s: EndsV,
    p: ProgramV,
    pag: PagV,
    events: Seq<(CallSiteId, u32)>,
    n: int,
    site: CallSiteId,
    param: u32,
    from: u32,
)
    requires
        0 <= n <= events.len(),
        s.seen == Set::<(u32, u32)>::empty(),
        s.with_ends(p, pag, events, n).seen.contains((site.0, param)),
        p.symbols.call_site(site) is Some,
        arg_at(p.symbols.call_site(site)->0.var_args, param, 0) is Some,
        ({
            let v = arg_at(p.symbols.call_site(site)->0.var_args, param, 0)->0;
            has_key(pag.var_node, v.0) && from == value_of(pag.var_node, v.0)
        }),
    ensures
        ends_at(s.with_ends(p, pag, events, n).edges, from),
    decreases n,
{
    if n > 0 {
        let r = s.with_ends(p, pag, events, n - 1);
        let t = s.with_ends(p, pag, events, n);
        if r.seen.contains((site.0, param)) {
            seen_has_an_edge(s, p, pag, events, n - 1, site, param, from);
            let k = choose|k: int|
                0 <= k < r.edges.len() && (#[trigger] r.edges[k]).src == from && r.edges[k].kind
                    == FlowEdgeKind::Terminates;
            assert(t.edges[k] == r.edges[k]);
        } else {
            assert(events[n - 1] == (site, param));
            assert(t.edges[t.edges.len() - 1].src == from);
        }
    }
}

/// Whether an edge leads from a node to where a value ends.
pub open spec fn ends_at(edges: Seq<FlowEdge>, from: u32) -> bool {
    exists|k: int|
        0 <= k < edges.len() && (#[trigger] edges[k]).src == from && edges[k].kind
            == FlowEdgeKind::Terminates
}

/// A call that ends the life of the variable that is passed to it has an edge
/// from that variable.
pub proof fn ended_values_have_edges(p: ProgramV, pag: PagV, result: ResultV, i: int)
    requires
        0 <= i < result.terminator_events.len(),
        p.symbols.call_site(result.terminator_events[i].0) is Some,
    ensures
        ({
            let (site, param) = result.terminator_events[i];
            arg_at(p.symbols.call_site(site)->0.var_args, param, 0) matches Some(v) ==> has_key(
                pag.var_node,
                v.0,
            ) ==> ends_at(graph(p, pag, result).edges, value_of(pag.var_node, v.0))
        }),
{
    let (site, param) = result.terminator_events[i];
    if let Some(v) = arg_at(p.symbols.call_site(site)->0.var_args, param, 0) {
        if has_key(pag.var_node, v.0) {
            let s = EndsV {
                nodes: Seq::new(
                    pag.nodes.len(),
                    |i: int| flow_node(p, pag, pag.nodes[i]),
                ),
                edges: lasting_edges(pag, result),
                seen: Set::empty(),
            };
            let events = result.terminator_events;
            end_has_an_edge(
                s,
                p,
                pag,
                events,
                events.len() as int,
                i,
                value_of(pag.var_node, v.0),
            );
        }
    }
}

/// Every node of the pointer assignment graph has a row at its position, with
/// its number; that of a variable names the variable, and that of a place the
/// function or the variable that the place belongs to.
pub proof fn nodes_have_rows(p: ProgramV, pag: PagV, result: ResultV, i: int)
    requires
        0 <= i < pag.nodes.len(),
    ensures
        ({
            let nodes = graph(p, pag, result).nodes;
            let row = nodes[i];
            &&& pag.nodes.len() <= nodes.len()
            &&& row.id == pag.nodes[i].id.0
            &&& match pag.nodes[i].kind {
                PagNodeKind::Var(v) => row.var == Some(v.0) && (p.symbols.variable(v) matches Some(
                    x,
                ) ==> row.label == x.name && row.fn_id == (match x.fn_id {
                    Some(f) => Some(f.0),
                    None => None,
                })),
                PagNodeKind::Loc(l) => l.0 < pag.locations.len() ==> row.fn_id == (
                match pag.locations[l.0 as int].fn_id {
                    Some(f) => Some(f.0),
                    None => None,
                }) && row.var == (match pag.locations[l.0 as int].var {
                    Some(v) => Some(v.0),
                    None => None,
                }),
                PagNodeKind::CallTarget(c) => row.var is None && (p.symbols.call_site(
                    c,
                ) matches Some(s) ==> row.label == s.callee_name),
            }
        }),
{
    let s = EndsV {
        nodes: Seq::new(
            pag.nodes.len(),
            |i: int| flow_node(p, pag, pag.nodes[i]),
        ),
        edges: lasting_edges(pag, result),
        seen: Set::empty(),
    };
    ends_come_last(
        s,
        p,
        pag,
        result.terminator_events,
        result.terminator_events.len() as int,
    );
    assert(graph(p, pag, result).nodes[i] == s.nodes[i]);
}

} // verus!
