//! What the result of an analysis says, over the result itself.

use crate::analysis::constraints::{CallGraphEdge, ConstraintKind, ResolutionKind};
use crate::analysis::growth::{holds, listed_holds, same_contents, spread_grows};
use crate::analysis::laws::{
    addresses_are_held, analysis_ends, copies_are_closed, graphs_are_indexed, indexed, looks,
    may_hold, solved_graph, takes_address, unlimited_results_are_whole,
};
use crate::analysis::models::ModelV;
use crate::analysis::nodes::constraints_lead_to_nodes;
use crate::analysis::pag::{list_of, PagV};
use crate::analysis::progress::{run_sound, run_with_st, with_copy_grows};
use crate::analysis::solver::{points_of, with_bridges, ResultV, RunV, SYNTHETIC_CALL_SITE};
use crate::analysis::state::SolverV;
use crate::ir::ids::PagNodeId;
use crate::ir::program::ProgramV;
use crate::ir::symbol::SiteV;
use vstd::prelude::*;

verus! {

proof fn bridges_come_last(edges: Seq<CallGraphEdge>, p: ProgramV, pag: PagV, n: int)
    ensures
        ({
            let all = with_bridges(edges, p, pag, n);
            &&& edges.len() <= all.len()
            &&& forall|i: int| 0 <= i < edges.len() ==> #[trigger] all[i] == edges[i]
            &&& forall|i: int|
                edges.len() <= i < all.len() ==> (#[trigger] all[i]).resolution
                    == ResolutionKind::IpcBridge && all[i].call_site.0 == SYNTHETIC_CALL_SITE
        }),
    decreases n,
{
    if n > 0 {
        bridges_come_last(edges, p, pag, n - 1);
    }
}

proof fn flows_of_prefix(
    p: ProgramV,
    a: Seq<CallGraphEdge>,
    b: Seq<CallGraphEdge>,
    wired: Set<(u32, u32, u32)>,
    n: int,
)
    requires
        n <= a.len(),
        n <= b.len(),
        forall|i: int| 0 <= i < n ==> #[trigger] a[i] == b[i],
    ensures
        p.arg_flows(a, wired, n) == p.arg_flows(b, wired, n),
    decreases n,
{
    if n > 0 {
        flows_of_prefix(p, a, b, wired, n - 1);
        assert(a[n - 1] == b[n - 1]);
    }
}

proof fn bridges_pass_nothing(
    p: ProgramV,
    edges: Seq<CallGraphEdge>,
    wired: Set<(u32, u32, u32)>,
    from: int,
    n: int,
)
    requires
        0 <= from <= n <= edges.len(),
        forall|i: int|
            from <= i < edges.len() ==> (#[trigger] edges[i]).call_site.0 == SYNTHETIC_CALL_SITE,
    ensures
        p.arg_flows(edges, wired, n) == p.arg_flows(edges, wired, from),
    decreases n - from,
{
    if n > from {
        bridges_pass_nothing(p, edges, wired, from, n - 1);
        let before = p.arg_flows(edges, wired, n - 1);
        assert(edges[n - 1].call_site.0 == SYNTHETIC_CALL_SITE);
        assert(p.arg_flows(edges, wired, n) =~= before);
    }
}

/// Whether two results differ at most in the edges of calls.
pub open spec fn same_but_edges(a: ResultV, b: ResultV) -> bool {
    &&& a.points_to == b.points_to
    &&& a.arg_flow_edges == b.arg_flow_edges
    &&& a.wired_arg_flow == b.wired_arg_flow
    &&& a.terminator_events == b.terminator_events
    &&& a.partial == b.partial
}

/// Whether edges, of which none is one of a bridge, are followed by edges of
/// bridges alone.
pub open spec fn followed_by_bridges(edges: Seq<CallGraphEdge>, all: Seq<CallGraphEdge>) -> bool {
    &&& edges.len() <= all.len()
    &&& forall|i: int|
        0 <= i < edges.len() ==> #[trigger] all[i] == edges[i] && edges[i].resolution
            != ResolutionKind::IpcBridge
    &&& forall|i: int|
        edges.len() <= i < all.len() ==> (#[trigger] all[i]).resolution
            == ResolutionKind::IpcBridge && all[i].call_site.0 == SYNTHETIC_CALL_SITE
}

/// With calls between processes and without them a program has the same graph
/// but for the bridges, and the same result but for their edges, which come
/// last; and where they are not asked for there is none.
pub proof fn bridges_change_nothing_else(
    p: ProgramV,
    retain: bool,
    models: Seq<ModelV>,
    budget: Option<u64>,
)
    requires
        p.graph(models).constraints.len() <= usize::MAX,
    ensures
        p.analysis(retain, models, budget, false).0 == p.analysis(
            retain,
            models,
            budget,
            true,
        ).0.unbridged(),
        same_but_edges(
            p.analysis(retain, models, budget, true).1,
            p.analysis(retain, models, budget, false).1,
        ),
        followed_by_bridges(
            p.analysis(retain, models, budget, false).1.call_edges,
            p.analysis(retain, models, budget, true).1.call_edges,
        ),
{
    let g = p.graph(models);
    let asked = p.asked_graph(models, false);
    let solved = solved_graph(p, models);
    assert(asked.unbridged() == solved);
    let end = solved.start(p, models).run(p, models, looks(p, models, budget));
    let on = p.analysis(retain, models, budget, true).1;
    let off = p.analysis(retain, models, budget, false).1;
    let n = g.ipc_bridges.len() as int;
    bridges_come_last(end.edges, p, g, n);
    assert(off.call_edges == end.edges);
    assert(on.call_edges == with_bridges(end.edges, p, g, n));
    flows_of_prefix(p, on.call_edges, off.call_edges, end.wired, off.call_edges.len() as int);
    bridges_pass_nothing(
        p,
        on.call_edges,
        end.wired,
        off.call_edges.len() as int,
        on.call_edges.len() as int,
    );
    analysis_ends(p, retain, models, budget, false);
    assert forall|i: int| 0 <= i < off.call_edges.len() implies #[trigger] on.call_edges[i]
        == off.call_edges[i] && off.call_edges[i].resolution != ResolutionKind::IpcBridge by {
        assert(end.edges.contains(end.edges[i]));
    }
    assert forall|i: int| off.call_edges.len() <= i < on.call_edges.len() implies (
    #[trigger] on.call_edges[i]).resolution == ResolutionKind::IpcBridge
        && on.call_edges[i].call_site.0 == SYNTHETIC_CALL_SITE by {
        assert(with_bridges(end.edges, p, g, n)[i] == on.call_edges[i]);
    }
    assert(followed_by_bridges(off.call_edges, on.call_edges));
}

/// Whether a result says that a node may hold a place. A node of which it says
/// nothing holds nothing.
pub open spec fn reported(points: Seq<(PagNodeId, Seq<u32>)>, n: u32, l: u32) -> bool {
    exists|i: int|
        0 <= i < points.len() && (#[trigger] points[i]).0.0 == n && points[i].1.contains(l)
}

proof fn points_are_reported(st: SolverV, k: int, n: u32, l: u32)
    requires
        0 <= k <= u32::MAX + 1,
    ensures
        reported(points_of(st, k), n, l) <==> n < k && holds(st, n, l),
    decreases k,
{
    if k > 0 {
        points_are_reported(st, k - 1, n, l);
        let before = points_of(st, k - 1);
        let after = points_of(st, k);
        let node = (k - 1) as u32;
        if reported(before, n, l) {
            let i = choose|i: int|
                0 <= i < before.len() && (#[trigger] before[i]).0.0 == n && before[i].1.contains(l);
            assert(after[i] == before[i]);
        }
        if n == node && holds(st, n, l) {
            assert(st.pts_of(n).len() > 0);
            assert(after[before.len() as int].0.0 == n);
        }
        if reported(after, n, l) {
            let i = choose|i: int|
                0 <= i < after.len() && (#[trigger] after[i]).0.0 == n && after[i].1.contains(l);
            if i < before.len() {
                assert(before[i] == after[i]);
            }
        }
    }
}

/// In a result that keeps what nodes may hold, the destination of a copy may
/// hold all that its source may hold, unless the result is partial, as it never
/// is without a budget.
pub proof fn copies_are_reported(
    p: ProgramV,
    models: Seq<ModelV>,
    budget: Option<u64>,
    ipc: bool,
    i: int,
    l: u32,
)
    requires
        p.graph(models).constraints.len() <= usize::MAX,
        p.analysis(true, models, budget, ipc).0.nodes.len() <= u32::MAX,
        budget is None || !p.analysis(true, models, budget, ipc).1.partial,
        0 <= i < p.graph(models).constraints.len(),
        p.graph(models).constraints[i].kind == ConstraintKind::Copy,
    ensures
        ({
            let points = p.analysis(true, models, budget, ipc).1.points_to;
            let c = p.graph(models).constraints[i];
            reported(points, c.src.0, l) ==> reported(points, c.dst.0, l)
        }),
{
    let g = solved_graph(p, models);
    assert(p.asked_graph(models, ipc).unbridged() == g);
    let end = g.start(p, models).run(p, models, looks(p, models, budget));
    let c = g.constraints[i];
    let count = end.pag.nodes.len() as int;
    if budget is None {
        unlimited_results_are_whole(p, true, models, ipc);
    }
    analysis_ends(p, true, models, budget, ipc);
    constraints_lead_to_nodes(p, models, i);
    points_are_reported(end.st, count, c.src.0, l);
    points_are_reported(end.st, count, c.dst.0, l);
    if holds(end.st, c.src.0, l) {
        graphs_are_indexed(p, models);
        assert(indexed(g, i));
        assert(may_hold(g, p, models, looks(p, models, budget), c.src.0, l));
        copies_are_closed(g, p, models, looks(p, models, budget), i, l);
    }
}

/// In a result that keeps what nodes may hold, a node whose constraint takes
/// the address of a place may hold the place, whatever the budget.
pub proof fn addresses_are_reported(
    p: ProgramV,
    models: Seq<ModelV>,
    budget: Option<u64>,
    ipc: bool,
    i: int,
    n: u32,
    l: u32,
)
    requires
        p.graph(models).constraints.len() <= usize::MAX,
        p.analysis(true, models, budget, ipc).0.nodes.len() <= u32::MAX,
        takes_address(p.graph(models), i, n, l),
    ensures
        reported(p.analysis(true, models, budget, ipc).1.points_to, n, l),
{
    let g = solved_graph(p, models);
    assert(p.asked_graph(models, ipc).unbridged() == g);
    let end = g.start(p, models).run(p, models, looks(p, models, budget));
    assert(takes_address(g, i, n, l));
    analysis_ends(p, true, models, budget, ipc);
    constraints_lead_to_nodes(p, models, i);
    addresses_are_held(g, p, models, looks(p, models, budget), i, n, l);
    points_are_reported(end.st, end.pag.nodes.len() as int, n, l);
}

/// Where a model makes one argument of a call a copy of another, the copy holds
/// at once what the other is known to hold, and what the other gains later
/// reaches it by a constraint like any other.
pub proof fn models_hand_on_what_is_known(
    a: RunV,
    cs: SiteV,
    dst: u32,
    src: u32,
    loaded: Set<u32>,
    l: u32,
)
    requires
        run_sound(a, loaded),
        a.pag.arg_node(cs, dst) is Some,
        a.pag.arg_node(cs, src) is Some,
        ({
            let d = a.pag.side_of(a.pag.arg_node(cs, dst)->0);
            let s = a.pag.side_of(a.pag.arg_node(cs, src)->0);
            !a.st.wired_model_edges.contains((s.0, d.0)) && holds(a.st, s.0, l)
        }),
    ensures
        ({
            let d = a.pag.side_of(a.pag.arg_node(cs, dst)->0);
            let s = a.pag.side_of(a.pag.arg_node(cs, src)->0);
            let b = a.with_model_copy(cs, dst, src);
            let i = a.pag.constraints.len();
            &&& holds(b.st, d.0, l)
            &&& b.pag.constraints.len() == i + 1
            &&& b.pag.constraints[i as int].kind == ConstraintKind::Copy
            &&& b.pag.constraints[i as int].dst == d
            &&& b.pag.constraints[i as int].src == s
            &&& list_of(b.pag.indices.copy_src, s.0).contains(i as usize)
        }),
{
    let d = a.pag.side_of(a.pag.arg_node(cs, dst)->0);
    let s = a.pag.side_of(a.pag.arg_node(cs, src)->0);
    let st = SolverV {
        wired_model_edges: a.st.wired_model_edges.insert((s.0, d.0)),
        ..a.st
    };
    same_contents(a.st, st, loaded);
    let r = a.with_st(st);
    run_with_st(a, st, loaded);
    with_copy_grows(r, s, d, loaded);
    let t = r.with_copy(s, d);
    assert(holds(r.st, s.0, l));
    assert(holds(t.st, s.0, l));
    spread_grows(t.st, d.0, t.st.pts_of(s.0), loaded);
    listed_holds(
        a.pag.with_constraint(ConstraintKind::Copy, d, s).indices.copy_src,
        s.0,
        a.pag.constraints.len() as usize,
    );
}

} // verus!
