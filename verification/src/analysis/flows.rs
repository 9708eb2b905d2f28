//! What the flows of a program come to in its graph.

use crate::analysis::constraints::{ConstraintKind, LocKind, LocV};
use crate::analysis::fields::{
    accesses_are_listed, fields_are_reached, has_field, listed, may_hold_field,
};
use crate::analysis::growth::begins_with;
use crate::analysis::held::solved_pag;
use crate::analysis::laws::{
    addresses_are_held, analysis_ends, copies_are_closed, graphs_are_indexed, in_memory, indexed,
    loads_are_closed, looks, may_hold, solved_graph, stores_are_closed, takes_address,
    unlimited_results_are_whole,
};
use crate::analysis::models::{model_for_callee, model_of, Effect, ModelV};
use crate::analysis::pag::{arg_at, lookup_arg, place_kind, ExpandV, PagNodeKind, PagV};
use crate::analysis::places::{
    empty_is_placed, found_are_placed, graphs_are_placed, interned_string_placed, placed,
    placed_same, with_functions_placed, with_loc_placed, with_member_placed, with_node_placed,
    with_place_placed, with_var_placed,
};
use crate::analysis::progress::more_entries;
use crate::analysis::solver::RunV;
use crate::collections::{has_key, value_of};
use crate::entries::entry_facts;
use crate::ir::flow::{FlowV, ReturnV};
use crate::ir::ids::{CallSiteId, FieldId, FnId, LocId, PagNodeId, TypeId, VarId};
use crate::ir::program::{returned, ProgramV};
use crate::ir::symbol::{FnV, SiteV, VarV};
use vstd::prelude::*;

verus! {

/// Whether a node is that of a place.
pub open spec fn node_is(g: PagV, n: u32, l: u32) -> bool {
    n < g.nodes.len() && g.nodes[n as int].kind == PagNodeKind::Loc(LocId(l))
}

/// Whether every place has a node, and, while numbers of nodes last, the node
/// that a place has is its own.
pub open spec fn grounded(g: PagV) -> bool {
    &&& forall|l: u32| l < g.locations.len() ==> #[trigger] has_key(g.loc_node, l)
    &&& g.nodes.len() <= u32::MAX ==> forall|l: u32| #[trigger]
        has_key(g.loc_node, l) ==> node_is(g, value_of(g.loc_node, l), l)
}

/// Whether one graph is built on another: no constraint and no node is lost,
/// and variables and functions keep their nodes and their places.
pub open spec fn builds_on(a: PagV, b: PagV) -> bool {
    &&& begins_with(b.constraints, a.constraints)
    &&& begins_with(b.nodes, a.nodes)
    &&& forall|v: VarId|
        a.node_of_var(v) is Some ==> #[trigger] b.node_of_var(v) == a.node_of_var(v)
    &&& forall|v: VarId|
        a.location_of_var(v) is Some ==> #[trigger] b.location_of_var(v) == a.location_of_var(v)
    &&& b.fn_locations == a.fn_locations
    &&& more_entries(a.string_locs, b.string_locs)
    &&& placed(a) && grounded(a) ==> placed(b) && grounded(b)
}

pub proof fn on_refl(a: PagV)
    ensures
        builds_on(a, a),
{
    assert(a.constraints.take(a.constraints.len() as int) =~= a.constraints);
    assert(a.nodes.take(a.nodes.len() as int) =~= a.nodes);
}

pub proof fn on_trans(a: PagV, b: PagV, c: PagV)
    requires
        builds_on(a, b),
        builds_on(b, c),
    ensures
        builds_on(a, c),
{
    assert(c.constraints.take(a.constraints.len() as int) =~= b.constraints.take(
        a.constraints.len() as int,
    ));
    assert(c.nodes.take(a.nodes.len() as int) =~= b.nodes.take(a.nodes.len() as int));
    assert forall|v: VarId| a.node_of_var(v) is Some implies #[trigger] c.node_of_var(v)
        == a.node_of_var(v) by {
        assert(b.node_of_var(v) == a.node_of_var(v));
    }
    assert forall|v: VarId| a.location_of_var(v) is Some implies #[trigger] c.location_of_var(v)
        == a.location_of_var(v) by {
        assert(b.location_of_var(v) == a.location_of_var(v));
    }
}

/// Two graphs with the same nodes and places, one with more constraints.
proof fn on_same(a: PagV, b: PagV)
    requires
        begins_with(b.constraints, a.constraints),
        b.nodes == a.nodes,
        b.var_node == a.var_node,
        b.var_location == a.var_location,
        b.fn_locations == a.fn_locations,
        b.string_locs == a.string_locs,
        b.loc_node == a.loc_node,
        b.locations == a.locations,
        placed(a) ==> placed(b),
    ensures
        builds_on(a, b),
{
    assert(a.nodes.take(a.nodes.len() as int) =~= a.nodes);
    assert(grounded(a) ==> grounded(b)) by {
        if grounded(a) {
            assert forall|l: u32| b.nodes.len() <= u32::MAX && #[trigger] has_key(
                b.loc_node,
                l,
            ) implies node_is(b, value_of(b.loc_node, l), l) by {
                assert(has_key(a.loc_node, l));
                assert(node_is(a, value_of(a.loc_node, l), l));
            }
            assert forall|l: u32| l < b.locations.len() implies #[trigger] has_key(
                b.loc_node,
                l,
            ) by {
                assert(has_key(a.loc_node, l));
            }
        }
    }
}

/// One more node that is not that of a place.
proof fn with_node_grounded(a: PagV, b: PagV, kind: PagNodeKind)
    requires
        grounded(a),
        b.nodes == a.with_node(kind).nodes,
        b.loc_node == a.loc_node,
        b.locations == a.locations,
    ensures
        grounded(b),
{
    assert forall|l: u32| b.nodes.len() <= u32::MAX && #[trigger] has_key(
        b.loc_node,
        l,
    ) implies node_is(b, value_of(b.loc_node, l), l) by {
        assert(has_key(a.loc_node, l));
        assert(node_is(a, value_of(a.loc_node, l), l));
    }
    assert forall|l: u32| l < b.locations.len() implies #[trigger] has_key(b.loc_node, l) by {
        assert(has_key(a.loc_node, l));
    }
}

pub proof fn with_var_on(a: PagV, v: VarId)
    ensures
        builds_on(a, a.with_var(v)),
        a.with_var(v).node_of_var(v) == Some(a.var_node_after(v)),
{
    on_refl(a);
    let b = a.with_var(v);
    if !has_key(a.var_node, v.0) {
        entry_facts(a.var_node, v.0, a.next_node());
        assert(b.constraints.take(a.constraints.len() as int) =~= a.constraints);
        assert(b.nodes.take(a.nodes.len() as int) =~= a.nodes);
        assert forall|x: VarId| a.node_of_var(x) is Some implies #[trigger] b.node_of_var(x)
            == a.node_of_var(x) by {
            assert(x.0 != v.0);
            assert(has_key(b.var_node, x.0));
            assert(value_of(b.var_node, x.0) == value_of(a.var_node, x.0));
        }
        if placed(a) && grounded(a) {
            with_var_placed(a, v);
            with_node_grounded(a, b, PagNodeKind::Var(v));
        }
    }
}

/// A new place, and its node.
proof fn with_loc_on(a: PagV, loc: LocV)
    requires
        loc.id == a.next_loc(),
    ensures
        builds_on(a, a.with_loc(loc)),
        has_key(a.with_loc(loc).loc_node, loc.id.0),
{
    let b = a.with_loc(loc);
    entry_facts(a.loc_node, loc.id.0, a.next_node());
    assert(b.constraints.take(a.constraints.len() as int) =~= a.constraints);
    assert(b.nodes.take(a.nodes.len() as int) =~= a.nodes);
    if placed(a) && grounded(a) {
        with_loc_placed(a, loc);
        assert forall|l: u32| b.nodes.len() <= u32::MAX && #[trigger] has_key(
            b.loc_node,
            l,
        ) implies node_is(b, value_of(b.loc_node, l), l) by {
            if l != loc.id.0 {
                assert(has_key(a.loc_node, l));
                assert(node_is(a, value_of(a.loc_node, l), l));
                assert(value_of(b.loc_node, l) == value_of(a.loc_node, l));
            }
        }
        assert forall|l: u32| l < b.locations.len() implies #[trigger] has_key(
            b.loc_node,
            l,
        ) by {
            if l < a.locations.len() {
                assert(has_key(a.loc_node, l));
            } else {
                assert(l == loc.id.0);
            }
        }
    }
}

pub proof fn with_constraint_on(a: PagV, kind: ConstraintKind, dst: PagNodeId, src: PagNodeId)
    ensures
        builds_on(a, a.with_constraint(kind, dst, src)),
{
    let b = a.with_constraint(kind, dst, src);
    assert(b.constraints.take(a.constraints.len() as int) =~= a.constraints);
    if placed(a) {
        placed_same(a, b);
    }
    on_same(a, b);
}

proof fn with_addr_of_on(a: PagV, dst: PagNodeId, l: LocId)
    ensures
        builds_on(a, a.with_addr_of(dst, l)),
{
    on_refl(a);
    match a.node_of_loc(l) {
        Some(n) => {
            with_constraint_on(a, ConstraintKind::AddrOf, dst, n);
        },
        None => {},
    }
}

/// The address of a place that is there is taken.
proof fn address_is_taken(a: PagV, dst: PagNodeId, l: LocId)
    requires
        grounded(a),
        l.0 < a.locations.len(),
        a.nodes.len() <= u32::MAX,
    ensures
        takes_address(a.with_addr_of(dst, l), a.constraints.len() as int, dst.0, l.0),
{
    assert(has_key(a.loc_node, l.0));
    assert(node_is(a, value_of(a.loc_node, l.0), l.0));
}

proof fn ensured_var_loc_on(a: PagV, p: ProgramV, v: VarId)
    ensures
        builds_on(a, a.ensured_var_loc(p, v).0),
        match a.ensured_var_loc(p, v).1 {
            Some(l) => a.ensured_var_loc(p, v).0.location_of_var(v) == Some(l),
            None => true,
        },
{
    on_refl(a);
    match a.location_of_var(v) {
        Some(l) => {},
        None => {
            match p.symbols.variable(v) {
                Some(x) => {
                    let loc = LocV {
                        id: a.next_loc(),
                        kind: place_kind(x.storage),
                        var: Some(x.id),
                        fn_id: x.fn_id,
                        field: None,
                        type_id: x.type_id,
                        desc: x.name,
                    };
                    with_loc_on(a, loc);
                    let q = a.with_loc(loc);
                    let b = a.with_place(x);
                    entry_facts(q.var_location, x.id.0, loc.id.0);
                    assert(x.id == v);
                    assert forall|y: VarId| a.location_of_var(y) is Some implies #[trigger] b.location_of_var(
                        y,
                    ) == a.location_of_var(y) by {
                        assert(has_key(a.var_location, y.0));
                        assert(y.0 != v.0);
                        assert(value_of(b.var_location, y.0) == value_of(q.var_location, y.0));
                    }
                    assert forall|y: VarId| a.node_of_var(y) is Some implies #[trigger] b.node_of_var(
                        y,
                    ) == a.node_of_var(y) by {
                        assert(q.node_of_var(y) == a.node_of_var(y));
                    }
                    if placed(a) && grounded(a) {
                        with_place_placed(a, x);
                        with_grounds(q, b);
                    }
                },
                None => {},
            }
        },
    }
}

/// A graph with the same nodes and places is grounded too.
proof fn with_grounds(a: PagV, b: PagV)
    requires
        grounded(a),
        b.nodes == a.nodes,
        b.loc_node == a.loc_node,
        b.locations == a.locations,
    ensures
        grounded(b),
{
    assert forall|l: u32| b.nodes.len() <= u32::MAX && #[trigger] has_key(
        b.loc_node,
        l,
    ) implies node_is(b, value_of(b.loc_node, l), l) by {
        assert(has_key(a.loc_node, l));
        assert(node_is(a, value_of(a.loc_node, l), l));
    }
    assert forall|l: u32| l < b.locations.len() implies #[trigger] has_key(b.loc_node, l) by {
        assert(has_key(a.loc_node, l));
    }
}

proof fn with_heap_on(a: PagV, ty: TypeId, desc: Seq<char>)
    ensures
        builds_on(a, a.with_heap(ty, desc)),
{
    with_loc_on(
        a,
        LocV {
            id: a.next_loc(),
            kind: LocKind::Heap,
            var: None,
            fn_id: None,
            field: None,
            type_id: ty,
            desc,
        },
    );
}

proof fn with_return_model_on(
    a: PagV,
    dst: PagNodeId,
    model: ModelV,
    params: Option<Seq<VarId>>,
    n: int,
)
    ensures
        builds_on(a, a.with_return_model(dst, model, params, n)),
    decreases n,
{
    on_refl(a);
    if n > 0 {
        with_return_model_on(a, dst, model, params, n - 1);
        let q = a.with_return_model(dst, model, params, n - 1);
        let b = a.with_return_model(dst, model, params, n);
        on_refl(q);
        match model.effects[n - 1] {
            Effect::ReturnAlias { param } => {
                match params {
                    Some(ps) => {
                        if param < ps.len() {
                            let formal = ps[param as int];
                            with_var_on(q, formal);
                            let q1 = q.with_var(formal);
                            with_constraint_on(
                                q1,
                                ConstraintKind::Copy,
                                dst,
                                q.var_node_after(formal),
                            );
                            on_trans(q, q1, b);
                        }
                    },
                    None => {},
                }
            },
            Effect::ReturnHeap => {
                let desc = model.name + "() storage"@;
                with_heap_on(q, TypeId(0), desc);
                let q1 = q.with_heap(TypeId(0), desc);
                with_addr_of_on(q1, dst, q.next_loc());
                on_trans(q, q1, b);
            },
            _ => {},
        }
        on_trans(a, q, b);
    }
}

proof fn or_model_on(
    e: ExpandV,
    p: ProgramV,
    models: Seq<ModelV>,
    dst: PagNodeId,
    name: Seq<char>,
    candidates: Seq<FnId>,
)
    ensures
        builds_on(e.pag, e.or_model(p, models, dst, name, candidates).pag),
{
    on_refl(e.pag);
    match model_of(models, name, 0) {
        Some(m) => {
            with_return_model_on(
                e.pag,
                dst,
                m,
                p.first_params(candidates, 0),
                m.effects.len() as int,
            );
        },
        None => {},
    }
}

proof fn expand_on(
    e: ExpandV,
    p: ProgramV,
    models: Seq<ModelV>,
    dst: PagNodeId,
    callee: FnId,
    fuel: nat,
)
    ensures
        builds_on(e.pag, e.expand(p, models, dst, callee, fuel).pag),
    decreases fuel, 0int, 0int,
{
    on_refl(e.pag);
    if fuel == 0 || e.visited.contains(callee.0) {
    } else {
        let entered = ExpandV { visited: e.visited.insert(callee.0), applied: false, ..e };
        match returned(p.fn_returns, callee.0, 0) {
            Some(flows) => {
                flows_on(entered, p, models, dst, callee, flows, 0, (fuel - 1) as nat);
            },
            None => {},
        }
    }
}

proof fn flows_on(
    e: ExpandV,
    p: ProgramV,
    models: Seq<ModelV>,
    dst: PagNodeId,
    callee: FnId,
    flows: Seq<ReturnV>,
    i: int,
    fuel: nat,
)
    ensures
        builds_on(e.pag, e.flows(p, models, dst, callee, flows, i, fuel).pag),
    decreases fuel, 2int, flows.len() - i,
{
    on_refl(e.pag);
    if i < 0 || i >= flows.len() {
    } else {
        let next = match flows[i] {
            ReturnV::AddrOfVar { src } => {
                let (q, l) = e.pag.ensured_var_loc(p, src);
                ensured_var_loc_on(e.pag, p, src);
                match l {
                    Some(loc) => {
                        with_addr_of_on(q, dst, loc);
                        on_trans(e.pag, q, q.with_addr_of(dst, loc));
                        ExpandV { pag: q.with_addr_of(dst, loc), applied: true, ..e }
                    },
                    None => e,
                }
            },
            ReturnV::AddrOfFn { callee: f } => match e.pag.fn_location(f) {
                Some(loc) => {
                    with_addr_of_on(e.pag, dst, loc);
                    ExpandV { pag: e.pag.with_addr_of(dst, loc), applied: true, ..e }
                },
                None => e,
            },
            ReturnV::Copy { src } => {
                with_var_on(e.pag, src);
                let q = e.pag.with_var(src);
                let c = q.with_constraint(ConstraintKind::Copy, dst, e.pag.var_node_after(src));
                with_constraint_on(q, ConstraintKind::Copy, dst, e.pag.var_node_after(src));
                on_trans(e.pag, q, c);
                ExpandV { pag: c, applied: true, ..e }
            },
            ReturnV::Call { callee_name } => match p.symbols.function(callee) {
                Some(f) => {
                    let inner = p.symbols.candidates(callee_name, Some(f.file));
                    let start = ExpandV { applied: false, ..e };
                    let after = start.inner(p, models, dst, inner, 0, fuel);
                    inner_on(start, p, models, dst, inner, 0, fuel);
                    let modeled = after.or_model(p, models, dst, callee_name, inner);
                    or_model_on(after, p, models, dst, callee_name, inner);
                    on_trans(e.pag, after.pag, modeled.pag);
                    ExpandV { applied: e.applied || modeled.applied, ..modeled }
                },
                None => e,
            },
        };
        flows_on(next, p, models, dst, callee, flows, i + 1, fuel);
        on_trans(e.pag, next.pag, next.flows(p, models, dst, callee, flows, i + 1, fuel).pag);
    }
}

proof fn inner_on(
    e: ExpandV,
    p: ProgramV,
    models: Seq<ModelV>,
    dst: PagNodeId,
    inner: Seq<FnId>,
    j: int,
    fuel: nat,
)
    ensures
        builds_on(e.pag, e.inner(p, models, dst, inner, j, fuel).pag),
    decreases fuel, 1int, inner.len() - j,
{
    on_refl(e.pag);
    if j < 0 || j >= inner.len() {
    } else {
        let one = e.expand(p, models, dst, inner[j], fuel);
        expand_on(e, p, models, dst, inner[j], fuel);
        let next = ExpandV { applied: e.applied || one.applied, ..one };
        inner_on(next, p, models, dst, inner, j + 1, fuel);
        on_trans(e.pag, next.pag, next.inner(p, models, dst, inner, j + 1, fuel).pag);
    }
}

/// Whether a constraint at a position is one between two variables.
pub open spec fn links(g: PagV, i: int, kind: ConstraintKind, dst: VarId, src: VarId) -> bool {
    &&& 0 <= i < g.constraints.len()
    &&& g.constraints[i].kind == kind
    &&& g.node_of_var(dst) == Some(g.constraints[i].dst)
    &&& g.node_of_var(src) == Some(g.constraints[i].src)
}

/// Whether a constraint at a position takes the address of a place for a
/// variable.
pub open spec fn points(g: PagV, i: int, dst: VarId, l: LocId) -> bool {
    match g.node_of_var(dst) {
        Some(n) => takes_address(g, i, n.0, l.0),
        None => false,
    }
}

proof fn links_stay(a: PagV, b: PagV, i: int, kind: ConstraintKind, dst: VarId, src: VarId)
    requires
        builds_on(a, b),
        links(a, i, kind, dst, src),
    ensures
        links(b, i, kind, dst, src),
        b.constraints[i] == a.constraints[i],
{
    assert(b.constraints.take(a.constraints.len() as int)[i] == a.constraints[i]);
    assert(b.node_of_var(dst) == a.node_of_var(dst));
    assert(b.node_of_var(src) == a.node_of_var(src));
}

proof fn points_stay(a: PagV, b: PagV, i: int, dst: VarId, l: LocId)
    requires
        builds_on(a, b),
        points(a, i, dst, l),
    ensures
        points(b, i, dst, l),
{
    assert(b.constraints.take(a.constraints.len() as int)[i] == a.constraints[i]);
    assert(b.node_of_var(dst) == a.node_of_var(dst));
    let n = a.constraints[i].src;
    assert(b.nodes.take(a.nodes.len() as int)[n.0 as int] == a.nodes[n.0 as int]);
}

proof fn with_pair_on(a: PagV, kind: ConstraintKind, dst: VarId, src: VarId)
    ensures
        builds_on(a, a.with_pair(kind, dst, src)),
        links(a.with_pair(kind, dst, src), a.constraints.len() as int, kind, dst, src),
{
    let d = a.var_node_after(dst);
    let q = a.with_var(dst);
    let r = q.with_var(src);
    with_var_on(a, dst);
    with_var_on(q, src);
    assert(r.node_of_var(dst) == Some(d));
    with_constraint_on(r, kind, d, q.var_node_after(src));
    on_trans(a, q, r);
    let b = a.with_pair(kind, dst, src);
    on_trans(a, r, b);
    assert(b.node_of_var(dst) == r.node_of_var(dst));
    assert(b.node_of_var(src) == r.node_of_var(src));
}

/// Whether a constraint at a position copies a variable to a node.
pub open spec fn copies_to(g: PagV, i: int, dst: PagNodeId, src: VarId) -> bool {
    &&& 0 <= i < g.constraints.len()
    &&& g.constraints[i].kind == ConstraintKind::Copy
    &&& g.constraints[i].dst == dst
    &&& g.node_of_var(src) == Some(g.constraints[i].src)
}

/// What a function returns reaches a node, where that is not what another
/// function returns.
pub open spec fn return_is_there(g: PagV, p: ProgramV, dst: PagNodeId, flow: ReturnV) -> bool {
    match flow {
        ReturnV::Copy { src } => exists|i: int| #[trigger] copies_to(g, i, dst, src),
        ReturnV::AddrOfFn { callee } => match g.fn_location(callee) {
            Some(l) => exists|i: int| #[trigger] takes_address(g, i, dst.0, l.0),
            None => true,
        },
        ReturnV::AddrOfVar { src } => p.symbols.variable(src) is Some ==> match g.location_of_var(
            src,
        ) {
            Some(l) => exists|i: int| #[trigger] takes_address(g, i, dst.0, l.0),
            None => false,
        },
        ReturnV::Call { callee_name } => true,
    }
}

/// All that a function returns reaches a node.
pub open spec fn returns_are_there(g: PagV, p: ProgramV, dst: PagNodeId, f: FnId) -> bool {
    match returned(p.fn_returns, f.0, 0) {
        Some(flows) => forall|j: int|
            0 <= j < flows.len() ==> return_is_there(g, p, dst, #[trigger] flows[j]),
        None => true,
    }
}

proof fn address_stays(a: PagV, b: PagV, i: int, n: u32, l: u32)
    requires
        builds_on(a, b),
        takes_address(a, i, n, l),
    ensures
        takes_address(b, i, n, l),
{
    assert(b.constraints.take(a.constraints.len() as int)[i] == a.constraints[i]);
    let m = a.constraints[i].src;
    assert(b.nodes.take(a.nodes.len() as int)[m.0 as int] == a.nodes[m.0 as int]);
}

proof fn return_stays(a: PagV, b: PagV, p: ProgramV, dst: PagNodeId, flow: ReturnV)
    requires
        builds_on(a, b),
        return_is_there(a, p, dst, flow),
    ensures
        return_is_there(b, p, dst, flow),
{
    match flow {
        ReturnV::Copy { src } => {
            let i = choose|i: int| #[trigger] copies_to(a, i, dst, src);
            assert(b.constraints.take(a.constraints.len() as int)[i] == a.constraints[i]);
            assert(b.node_of_var(src) == a.node_of_var(src));
            assert(copies_to(b, i, dst, src));
        },
        ReturnV::AddrOfFn { callee } => {
            match a.fn_location(callee) {
                Some(l) => {
                    let i = choose|i: int| #[trigger] takes_address(a, i, dst.0, l.0);
                    address_stays(a, b, i, dst.0, l.0);
                },
                None => {},
            }
        },
        ReturnV::AddrOfVar { src } => {
            if p.symbols.variable(src) is Some {
                let l = a.location_of_var(src)->0;
                let i = choose|i: int| #[trigger] takes_address(a, i, dst.0, l.0);
                address_stays(a, b, i, dst.0, l.0);
                assert(b.location_of_var(src) == a.location_of_var(src));
            }
        },
        ReturnV::Call { callee_name } => {},
    }
}

proof fn returns_stay(a: PagV, b: PagV, p: ProgramV, dst: PagNodeId, f: FnId)
    requires
        builds_on(a, b),
        returns_are_there(a, p, dst, f),
    ensures
        returns_are_there(b, p, dst, f),
{
    match returned(p.fn_returns, f.0, 0) {
        Some(flows) => {
            assert forall|j: int| 0 <= j < flows.len() implies return_is_there(
                b,
                p,
                dst,
                #[trigger] flows[j],
            ) by {
                return_stays(a, b, p, dst, flows[j]);
            }
        },
        None => {},
    }
}

/// Whether one expansion comes after another: no function that has been
/// entered is forgotten, and all that the functions return that have been
/// entered since has arrived.
spec fn expanded(a: ExpandV, b: ExpandV, p: ProgramV, dst: PagNodeId) -> bool {
    &&& forall|f: u32| #[trigger] a.visited.contains(f) ==> b.visited.contains(f)
    &&& b.pag.nodes.len() <= u32::MAX ==> forall|f: u32| #[trigger]
        b.visited.contains(f) ==> a.visited.contains(f) || returns_are_there(
            b.pag,
            p,
            dst,
            FnId(f),
        )
}

proof fn expanded_trans(a: ExpandV, b: ExpandV, c: ExpandV, p: ProgramV, dst: PagNodeId)
    requires
        expanded(a, b, p, dst),
        expanded(b, c, p, dst),
        builds_on(b.pag, c.pag),
    ensures
        expanded(a, c, p, dst),
{
    if c.pag.nodes.len() <= u32::MAX {
        assert forall|f: u32| #[trigger] c.visited.contains(f) implies a.visited.contains(f)
            || returns_are_there(c.pag, p, dst, FnId(f)) by {
            if b.visited.contains(f) && !a.visited.contains(f) {
                returns_stay(b.pag, c.pag, p, dst, FnId(f));
            }
        }
    }
}

/// An expansion that has entered no function.
proof fn expanded_same(a: ExpandV, b: ExpandV, p: ProgramV, dst: PagNodeId)
    requires
        b.visited == a.visited,
    ensures
        expanded(a, b, p, dst),
{
}

proof fn expand_returns(
    e: ExpandV,
    p: ProgramV,
    models: Seq<ModelV>,
    dst: PagNodeId,
    callee: FnId,
    fuel: nat,
)
    requires
        placed(e.pag),
        grounded(e.pag),
    ensures
        expanded(e, e.expand(p, models, dst, callee, fuel), p, dst),
        fuel > 0 ==> e.expand(p, models, dst, callee, fuel).visited.contains(callee.0),
    decreases fuel, 0int, 0int,
{
    let r = e.expand(p, models, dst, callee, fuel);
    if fuel == 0 || e.visited.contains(callee.0) {
        expanded_same(e, r, p, dst);
    } else {
        let entered = ExpandV { visited: e.visited.insert(callee.0), applied: false, ..e };
        match returned(p.fn_returns, callee.0, 0) {
            Some(flows) => {
                flows_return(entered, p, models, dst, callee, flows, 0, (fuel - 1) as nat);
                assert(entered.visited.contains(callee.0));
                if r.pag.nodes.len() <= u32::MAX {
                    assert forall|f: u32| #[trigger] r.visited.contains(
                        f,
                    ) implies e.visited.contains(f) || returns_are_there(
                        r.pag,
                        p,
                        dst,
                        FnId(f),
                    ) by {
                        if f != callee.0 && entered.visited.contains(f) {
                            assert(e.visited.contains(f));
                        }
                    }
                }
                assert forall|f: u32| #[trigger] e.visited.contains(f) implies r.visited.contains(
                    f,
                ) by {
                    assert(entered.visited.contains(f));
                }
            },
            None => {},
        }
    }
}

proof fn flows_return(
    e: ExpandV,
    p: ProgramV,
    models: Seq<ModelV>,
    dst: PagNodeId,
    callee: FnId,
    flows: Seq<ReturnV>,
    i: int,
    fuel: nat,
)
    requires
        placed(e.pag),
        grounded(e.pag),
    ensures
        ({
            let r = e.flows(p, models, dst, callee, flows, i, fuel);
            &&& expanded(e, r, p, dst)
            &&& i >= 0 && r.pag.nodes.len() <= u32::MAX ==> forall|j: int|
                i <= j < flows.len() ==> return_is_there(r.pag, p, dst, #[trigger] flows[j])
        }),
    decreases fuel, 2int, flows.len() - i,
{
    let r = e.flows(p, models, dst, callee, flows, i, fuel);
    expanded_same(e, e, p, dst);
    if i < 0 || i >= flows.len() {
    } else {
        on_refl(e.pag);
        let at = e.pag.constraints.len() as int;
        let next = match flows[i] {
            ReturnV::AddrOfVar { src } => {
                let (q, l) = e.pag.ensured_var_loc(p, src);
                ensured_var_loc_on(e.pag, p, src);
                match l {
                    Some(loc) => {
                        let b = q.with_addr_of(dst, loc);
                        with_addr_of_on(q, dst, loc);
                        on_trans(e.pag, q, b);
                        if b.nodes.len() <= u32::MAX {
                            found_are_placed(q, FnId(0), src, LocId(0));
                            address_is_taken(q, dst, loc);
                            assert(b.location_of_var(src) == Some(loc));
                        }
                        ExpandV { pag: b, applied: true, ..e }
                    },
                    None => e,
                }
            },
            ReturnV::AddrOfFn { callee: f } => match e.pag.fn_location(f) {
                Some(loc) => {
                    let b = e.pag.with_addr_of(dst, loc);
                    with_addr_of_on(e.pag, dst, loc);
                    if b.nodes.len() <= u32::MAX {
                        found_are_placed(e.pag, f, VarId(0), LocId(0));
                        address_is_taken(e.pag, dst, loc);
                    }
                    ExpandV { pag: b, applied: true, ..e }
                },
                None => e,
            },
            ReturnV::Copy { src } => {
                with_var_on(e.pag, src);
                let q = e.pag.with_var(src);
                let n = e.pag.var_node_after(src);
                let c = q.with_constraint(ConstraintKind::Copy, dst, n);
                with_constraint_on(q, ConstraintKind::Copy, dst, n);
                on_trans(e.pag, q, c);
                assert(c.node_of_var(src) == q.node_of_var(src));
                assert(copies_to(c, at, dst, src));
                ExpandV { pag: c, applied: true, ..e }
            },
            ReturnV::Call { callee_name } => match p.symbols.function(callee) {
                Some(f) => {
                    let inner = p.symbols.candidates(callee_name, Some(f.file));
                    let start = ExpandV { applied: false, ..e };
                    let after = start.inner(p, models, dst, inner, 0, fuel);
                    inner_on(start, p, models, dst, inner, 0, fuel);
                    inner_returns(start, p, models, dst, inner, 0, fuel);
                    let modeled = after.or_model(p, models, dst, callee_name, inner);
                    or_model_on(after, p, models, dst, callee_name, inner);
                    on_trans(e.pag, after.pag, modeled.pag);
                    expanded_same(after, modeled, p, dst);
                    expanded_trans(start, after, modeled, p, dst);
                    let out = ExpandV { applied: e.applied || modeled.applied, ..modeled };
                    expanded_same(modeled, out, p, dst);
                    on_refl(out.pag);
                    expanded_trans(start, modeled, out, p, dst);
                    expanded_same(e, start, p, dst);
                    expanded_trans(e, start, out, p, dst);
                    out
                },
                None => e,
            },
        };
        assert(builds_on(e.pag, next.pag));
        if next.visited == e.visited {
            expanded_same(e, next, p, dst);
        }
        flows_on(next, p, models, dst, callee, flows, i + 1, fuel);
        flows_return(next, p, models, dst, callee, flows, i + 1, fuel);
        expanded_trans(e, next, r, p, dst);
        if r.pag.nodes.len() <= u32::MAX {
            assert(next.pag.nodes.len() <= r.pag.nodes.len());
            return_stays(next.pag, r.pag, p, dst, flows[i]);
        }
    }
}

proof fn inner_returns(
    e: ExpandV,
    p: ProgramV,
    models: Seq<ModelV>,
    dst: PagNodeId,
    inner: Seq<FnId>,
    j: int,
    fuel: nat,
)
    requires
        placed(e.pag),
        grounded(e.pag),
    ensures
        ({
            let r = e.inner(p, models, dst, inner, j, fuel);
            &&& expanded(e, r, p, dst)
            &&& j >= 0 && fuel > 0 ==> forall|m: int|
                j <= m < inner.len() ==> r.visited.contains((#[trigger] inner[m]).0)
        }),
    decreases fuel, 1int, inner.len() - j,
{
    let r = e.inner(p, models, dst, inner, j, fuel);
    expanded_same(e, e, p, dst);
    if j < 0 || j >= inner.len() {
    } else {
        let one = e.expand(p, models, dst, inner[j], fuel);
        expand_on(e, p, models, dst, inner[j], fuel);
        expand_returns(e, p, models, dst, inner[j], fuel);
        let next = ExpandV { applied: e.applied || one.applied, ..one };
        expanded_same(one, next, p, dst);
        on_refl(one.pag);
        expanded_trans(e, one, next, p, dst);
        inner_on(next, p, models, dst, inner, j + 1, fuel);
        inner_returns(next, p, models, dst, inner, j + 1, fuel);
        expanded_trans(e, next, r, p, dst);
        if fuel > 0 {
            assert(next.visited.contains(inner[j].0));
        }
    }
}

/// What a flow has come to in a graph.
pub open spec fn flow_is_there(g: PagV, p: ProgramV, flow: FlowV) -> bool {
    match flow {
        FlowV::Copy { dst, src } => exists|i: int| #[trigger]
            links(g, i, ConstraintKind::Copy, dst, src),
        FlowV::Load { dst, src } => exists|i: int| #[trigger]
            links(g, i, ConstraintKind::Load, dst, src),
        FlowV::Store { dst, src } => exists|i: int| #[trigger]
            links(g, i, ConstraintKind::Store, dst, src),
        FlowV::GepField { dst, base, field, field_name } => exists|i: int| #[trigger]
            links(g, i, ConstraintKind::Gep, dst, base) && g.constraints[i].field == Some(field)
                && g.constraints[i].field_name == Some(field_name),
        FlowV::AddrOfFn { dst, callee } => match g.fn_location(callee) {
            Some(l) => exists|i: int| #[trigger] points(g, i, dst, l),
            None => true,
        },
        FlowV::AddrOfVar { dst, src } => p.symbols.variable(src) is Some ==> match g.location_of_var(
            src,
        ) {
            Some(l) => exists|i: int| #[trigger] points(g, i, dst, l),
            None => false,
        },
        FlowV::CallReturn { dst, callee_name } => match g.node_of_var(dst) {
            Some(n) => forall|j: int|
                0 <= j < callees_of(p, dst, callee_name).len() ==> returns_are_there(
                    g,
                    p,
                    n,
                    #[trigger] callees_of(p, dst, callee_name)[j],
                ),
            None => false,
        },
        FlowV::ArrayFnMember { array, callee } => match g.fn_location(callee) {
            Some(l) => exists|i: int| #[trigger] points(g, i, array, l),
            None => true,
        },
        FlowV::StringConst { dst, value } => {
            &&& g.string_locs.contains_key(value)
            &&& exists|i: int| #[trigger] points(g, i, dst, LocId(g.string_locs[value]))
        },
        FlowV::NewHeap { dst } => exists|i: int, l: LocId| #[trigger] points(g, i, dst, l),
        FlowV::CallReturnIndirect { dst, callee_var } => true,
    }
}

/// The functions that a call may be of whose result goes into a variable.
pub open spec fn callees_of(p: ProgramV, dst: VarId, callee_name: Seq<char>) -> Seq<FnId> {
    p.symbols.candidates(callee_name, p.file_of_var(dst))
}

proof fn flow_stays(a: PagV, b: PagV, p: ProgramV, flow: FlowV)
    requires
        builds_on(a, b),
        flow_is_there(a, p, flow),
    ensures
        flow_is_there(b, p, flow),
{
    match flow {
        FlowV::Copy { dst, src } => {
            let i = choose|i: int| #[trigger] links(a, i, ConstraintKind::Copy, dst, src);
            links_stay(a, b, i, ConstraintKind::Copy, dst, src);
        },
        FlowV::Load { dst, src } => {
            let i = choose|i: int| #[trigger] links(a, i, ConstraintKind::Load, dst, src);
            links_stay(a, b, i, ConstraintKind::Load, dst, src);
        },
        FlowV::Store { dst, src } => {
            let i = choose|i: int| #[trigger] links(a, i, ConstraintKind::Store, dst, src);
            links_stay(a, b, i, ConstraintKind::Store, dst, src);
        },
        FlowV::GepField { dst, base, field, field_name } => {
            let i = choose|i: int| #[trigger]
                links(a, i, ConstraintKind::Gep, dst, base) && a.constraints[i].field == Some(
                    field,
                ) && a.constraints[i].field_name == Some(field_name);
            links_stay(a, b, i, ConstraintKind::Gep, dst, base);
        },
        FlowV::AddrOfFn { dst, callee } => {
            match a.fn_location(callee) {
                Some(l) => {
                    let i = choose|i: int| #[trigger] points(a, i, dst, l);
                    points_stay(a, b, i, dst, l);
                },
                None => {},
            }
        },
        FlowV::AddrOfVar { dst, src } => {
            if p.symbols.variable(src) is Some {
                let l = a.location_of_var(src)->0;
                let i = choose|i: int| #[trigger] points(a, i, dst, l);
                points_stay(a, b, i, dst, l);
                assert(b.location_of_var(src) == a.location_of_var(src));
            }
        },
        FlowV::CallReturn { dst, callee_name } => {
            let n = a.node_of_var(dst)->0;
            assert(b.node_of_var(dst) == a.node_of_var(dst));
            let all = callees_of(p, dst, callee_name);
            assert forall|j: int| 0 <= j < all.len() implies returns_are_there(
                b,
                p,
                n,
                #[trigger] all[j],
            ) by {
                returns_stay(a, b, p, n, all[j]);
            }
        },
        FlowV::ArrayFnMember { array, callee } => {
            match a.fn_location(callee) {
                Some(l) => {
                    let i = choose|i: int| #[trigger] points(a, i, array, l);
                    points_stay(a, b, i, array, l);
                },
                None => {},
            }
        },
        FlowV::StringConst { dst, value } => {
            let l = LocId(a.string_locs[value]);
            let i = choose|i: int| #[trigger] points(a, i, dst, l);
            points_stay(a, b, i, dst, l);
            assert(b.string_locs[value] == a.string_locs[value]);
        },
        FlowV::NewHeap { dst } => {
            let (i, l) = choose|i: int, l: LocId| #[trigger] points(a, i, dst, l);
            points_stay(a, b, i, dst, l);
        },
        FlowV::CallReturnIndirect { dst, callee_var } => {},
    }
}

/// The address of a place, taken for a variable that has a node.
proof fn address_points(a: PagV, n: PagNodeId, dst: VarId, l: LocId)
    requires
        placed(a),
        grounded(a),
        a.nodes.len() <= u32::MAX,
        l.0 < a.locations.len(),
        a.node_of_var(dst) == Some(n),
    ensures
        points(a.with_addr_of(n, l), a.constraints.len() as int, dst, l),
{
    address_is_taken(a, n, l);
    with_addr_of_on(a, n, l);
    assert(a.with_addr_of(n, l).node_of_var(dst) == a.node_of_var(dst));
}

proof fn with_flow_on(a: PagV, p: ProgramV, models: Seq<ModelV>, flow: FlowV)
    ensures
        builds_on(a, a.with_flow(p, models, flow)),
        placed(a) && grounded(a) && a.with_flow(p, models, flow).nodes.len() <= u32::MAX
            ==> flow_is_there(a.with_flow(p, models, flow), p, flow),
{
    let b = a.with_flow(p, models, flow);
    let at = a.constraints.len() as int;
    match flow {
        FlowV::Copy { dst, src } => {
            with_pair_on(a, ConstraintKind::Copy, dst, src);
            assert(links(b, at, ConstraintKind::Copy, dst, src));
        },
        FlowV::AddrOfVar { dst, src } => {
            let n = a.var_node_after(dst);
            let v = a.with_var(dst);
            with_var_on(a, dst);
            ensured_var_loc_on(v, p, src);
            let (q, l) = v.ensured_var_loc(p, src);
            on_trans(a, v, q);
            match l {
                Some(loc) => {
                    with_addr_of_on(q, n, loc);
                    on_trans(a, q, b);
                    if placed(a) && grounded(a) && b.nodes.len() <= u32::MAX
                        && p.symbols.variable(src) is Some {
                        assert(q.location_of_var(src) == Some(loc));
                        found_are_placed(q, FnId(0), src, LocId(0));
                        assert(q.node_of_var(dst) == Some(n));
                        address_points(q, n, dst, loc);
                        assert(b.location_of_var(src) == Some(loc));
                    }
                },
                None => {},
            }
        },
        FlowV::AddrOfFn { dst, callee } => {
            let n = a.var_node_after(dst);
            let q = a.with_var(dst);
            with_var_on(a, dst);
            match q.fn_location(callee) {
                Some(loc) => {
                    with_addr_of_on(q, n, loc);
                    on_trans(a, q, b);
                    if placed(a) && grounded(a) && b.nodes.len() <= u32::MAX {
                        found_are_placed(q, callee, VarId(0), LocId(0));
                        address_points(q, n, dst, loc);
                    }
                },
                None => {},
            }
        },
        FlowV::Load { dst, src } => {
            with_pair_on(a, ConstraintKind::Load, dst, src);
            assert(links(b, at, ConstraintKind::Load, dst, src));
        },
        FlowV::Store { dst, src } => {
            with_pair_on(a, ConstraintKind::Store, dst, src);
            assert(links(b, at, ConstraintKind::Store, dst, src));
        },
        FlowV::GepField { dst, base, field, field_name } => {
            let n = a.var_node_after(dst);
            let q = a.with_var(dst);
            let r = q.with_var(base);
            with_var_on(a, dst);
            with_var_on(q, base);
            on_trans(a, q, r);
            assert(r.node_of_var(dst) == Some(n));
            assert(b.constraints.take(r.constraints.len() as int) =~= r.constraints);
            if placed(r) {
                placed_same(r, b);
            }
            on_same(r, b);
            on_trans(a, r, b);
            assert(b.node_of_var(dst) == r.node_of_var(dst));
            assert(b.node_of_var(base) == r.node_of_var(base));
            assert(links(b, at, ConstraintKind::Gep, dst, base));
        },
        FlowV::ArrayFnMember { array, callee } => {
            let n = a.var_node_after(array);
            let q = a.with_var(array);
            with_var_on(a, array);
            match q.fn_location(callee) {
                Some(loc) => {
                    let r = q.with_addr_of(n, loc);
                    with_addr_of_on(q, n, loc);
                    on_trans(a, q, r);
                    assert(r.constraints.take(r.constraints.len() as int) =~= r.constraints);
                    if placed(a) && grounded(a) {
                        found_are_placed(q, callee, VarId(0), LocId(0));
                        with_member_placed(r, array.0, loc);
                        with_grounds(r, b);
                        if b.nodes.len() <= u32::MAX {
                            address_points(q, n, array, loc);
                            assert(b.node_of_var(array) == r.node_of_var(array));
                            assert(points(b, at, array, loc));
                        }
                    }
                    assert(b.nodes.take(r.nodes.len() as int) =~= r.nodes);
                    assert(builds_on(a, b)) by {
                        assert forall|v: VarId| a.node_of_var(v)
                            is Some implies #[trigger] b.node_of_var(v) == a.node_of_var(v) by {
                            assert(r.node_of_var(v) == a.node_of_var(v));
                        }
                        assert forall|v: VarId| a.location_of_var(v)
                            is Some implies #[trigger] b.location_of_var(v)
                            == a.location_of_var(v) by {
                            assert(r.location_of_var(v) == a.location_of_var(v));
                        }
                    }
                },
                None => {},
            }
        },
        FlowV::CallReturn { dst, callee_name } => {
            let n = a.var_node_after(dst);
            let candidates = p.symbols.candidates(callee_name, p.file_of_var(dst));
            let e = ExpandV { pag: a.with_var(dst), visited: Set::empty(), applied: false };
            with_var_on(a, dst);
            let fuel = p.fn_returns.len() + 1;
            inner_on(e, p, models, n, candidates, 0, fuel);
            let after = e.inner(p, models, n, candidates, 0, fuel);
            or_model_on(after, p, models, n, callee_name, candidates);
            on_trans(a, e.pag, after.pag);
            on_trans(a, after.pag, b);
            if placed(a) && grounded(a) && b.nodes.len() <= u32::MAX {
                inner_returns(e, p, models, n, candidates, 0, fuel);
                assert(e.pag.node_of_var(dst) == Some(n));
                assert(b.node_of_var(dst) == Some(n));
                assert(after.pag.nodes.len() <= b.nodes.len());
                assert forall|j: int| 0 <= j < candidates.len() implies returns_are_there(
                    b,
                    p,
                    n,
                    #[trigger] candidates[j],
                ) by {
                    assert(after.visited.contains(candidates[j].0));
                    returns_stay(after.pag, b, p, n, candidates[j]);
                }
            }
        },
        FlowV::CallReturnIndirect { dst, callee_var } => {
            let q = a.with_var(dst);
            with_var_on(a, dst);
            assert(q.constraints.take(q.constraints.len() as int) =~= q.constraints);
            if placed(q) {
                placed_same(q, b);
            }
            on_same(q, b);
            on_trans(a, q, b);
        },
        FlowV::NewHeap { dst } => {
            let n = a.var_node_after(dst);
            let q = a.with_var(dst);
            with_var_on(a, dst);
            let ty = match p.symbols.variable(dst) {
                Some(v) => v.type_id,
                None => TypeId(0),
            };
            with_heap_on(q, ty, "new heap"@);
            let r = q.with_heap(ty, "new heap"@);
            with_addr_of_on(r, n, q.next_loc());
            on_trans(a, q, r);
            on_trans(a, r, b);
            if placed(a) && grounded(a) && b.nodes.len() <= u32::MAX {
                assert(r.node_of_var(dst) == Some(n));
                assert(q.next_loc().0 < r.locations.len());
                address_points(r, n, dst, q.next_loc());
                assert(points(b, at, dst, q.next_loc()));
            }
        },
        FlowV::StringConst { dst, value } => {
            let n = a.var_node_after(dst);
            let v = a.with_var(dst);
            with_var_on(a, dst);
            let (q, l) = v.interned_string(p, value);
            interned_string_on(v, p, value);
            with_addr_of_on(q, n, l);
            on_trans(a, v, q);
            on_trans(a, q, b);
            if placed(a) && grounded(a) && b.nodes.len() <= u32::MAX {
                interned_string_placed(v, p, value);
                assert(q.node_of_var(dst) == Some(n));
                address_points(q, n, dst, l);
                assert(points(b, at, dst, l));
                assert(b.string_locs[value] == l.0);
            }
        },
    }
}

proof fn interned_string_on(a: PagV, p: ProgramV, value: Seq<char>)
    ensures
        builds_on(a, a.interned_string(p, value).0),
{
    on_refl(a);
    if !a.string_locs.contains_key(value) {
        let loc = LocV {
            id: a.next_loc(),
            kind: LocKind::StringLit,
            var: None,
            fn_id: None,
            field: None,
            type_id: p.char_type(0),
            desc: value,
        };
        with_loc_on(a, loc);
        let q = a.with_loc(loc);
        let b = a.interned_string(p, value).0;
        if placed(a) && grounded(a) {
            interned_string_placed(a, p, value);
            with_grounds(q, b);
        }
        assert forall|v: VarId| a.node_of_var(v) is Some implies #[trigger] b.node_of_var(v)
            == a.node_of_var(v) by {
            assert(q.node_of_var(v) == a.node_of_var(v));
        }
        assert forall|v: VarId| a.location_of_var(v) is Some implies #[trigger] b.location_of_var(v)
            == a.location_of_var(v) by {
            assert(q.location_of_var(v) == a.location_of_var(v));
        }
    }
}

proof fn with_flows_on(a: PagV, p: ProgramV, models: Seq<ModelV>, n: int)
    requires
        placed(a),
        grounded(a),
        n <= p.flow.len(),
    ensures
        builds_on(a, a.with_flows(p, models, n)),
        a.with_flows(p, models, n).nodes.len() <= u32::MAX ==> forall|k: int|
            0 <= k < n ==> flow_is_there(
                a.with_flows(p, models, n),
                p,
                #[trigger] p.flow[k],
            ),
    decreases n,
{
    on_refl(a);
    if n > 0 {
        with_flows_on(a, p, models, n - 1);
        let q = a.with_flows(p, models, n - 1);
        let b = a.with_flows(p, models, n);
        with_flow_on(q, p, models, p.flow[n - 1]);
        on_trans(a, q, b);
        if b.nodes.len() <= u32::MAX {
            assert(q.nodes.len() <= b.nodes.len());
            assert forall|k: int| 0 <= k < n implies flow_is_there(b, p, #[trigger] p.flow[k]) by {
                if k < n - 1 {
                    flow_stays(q, b, p, p.flow[k]);
                }
            }
        }
    }
}

proof fn with_lookups_on(a: PagV, sites: Seq<SiteV>, models: Seq<ModelV>, n: int)
    ensures
        builds_on(a, a.with_lookups(sites, models, n)),
    decreases n,
{
    on_refl(a);
    if n > 0 {
        with_lookups_on(a, sites, models, n - 1);
        let q = a.with_lookups(sites, models, n - 1);
        let cs = sites[n - 1];
        on_refl(q);
        match model_for_callee(models, cs.callee_name) {
            Some(m) => {
                match lookup_arg(m.effects, 0) {
                    Some(at) => {
                        match (cs.return_dst, arg_at(cs.var_args, at, 0)) {
                            (Some(dst), Some(name)) => {
                                with_pair_on(q, ConstraintKind::Dlsym, dst, name);
                            },
                            _ => {},
                        }
                    },
                    None => {},
                }
            },
            None => {},
        }
        on_trans(a, q, a.with_lookups(sites, models, n));
    }
}

pub proof fn with_target_on(a: PagV, cs: CallSiteId)
    ensures
        builds_on(a, a.with_target(cs)),
{
    on_refl(a);
    let b = a.with_target(cs);
    if !has_key(a.call_targets, cs.0) {
        assert(b.constraints.take(a.constraints.len() as int) =~= a.constraints);
        assert(b.nodes.take(a.nodes.len() as int) =~= a.nodes);
        if placed(a) && grounded(a) {
            with_node_placed(a, PagNodeKind::CallTarget(cs));
            placed_same(a.with_node(PagNodeKind::CallTarget(cs)), b);
            with_node_grounded(a, b, PagNodeKind::CallTarget(cs));
        }
    }
}

proof fn with_calls_on(a: PagV, p: ProgramV, n: int)
    ensures
        builds_on(a, a.with_calls(p, n)),
    decreases n,
{
    on_refl(a);
    if n > 0 {
        with_calls_on(a, p, n - 1);
        let r = a.with_calls(p, n - 1);
        let b = a.with_calls(p, n);
        let cs = p.symbols.call_sites[n - 1];
        let q = r.with_target(cs.id);
        on_refl(r);
        with_target_on(r, cs.id);
        let callee = match cs.callee_var {
            Some(v) => Some(v),
            None => p.var_in_fn(cs.callee_name, cs.caller),
        };
        match callee {
            Some(v) => {
                let u = q.with_var(v);
                with_var_on(q, v);
                on_trans(r, q, u);
                if !cs.is_direct {
                    with_constraint_on(
                        u,
                        ConstraintKind::Copy,
                        r.target_after(cs.id),
                        q.var_node_after(v),
                    );
                    with_constraint_on(
                        u,
                        ConstraintKind::Load,
                        r.target_after(cs.id),
                        q.var_node_after(v),
                    );
                    on_trans(
                        r,
                        u,
                        u.with_constraint(
                            ConstraintKind::Copy,
                            r.target_after(cs.id),
                            q.var_node_after(v),
                        ),
                    );
                    on_trans(
                        r,
                        u,
                        u.with_constraint(
                            ConstraintKind::Load,
                            r.target_after(cs.id),
                            q.var_node_after(v),
                        ),
                    );
                }
            },
            None => {},
        }
        on_trans(a, r, b);
    }
}

proof fn with_variables_grounded(a: PagV, vars: Seq<VarV>, n: int)
    requires
        placed(a),
        grounded(a),
    ensures
        placed(a.with_variables(vars, n)),
        grounded(a.with_variables(vars, n)),
    decreases n,
{
    if n > 0 {
        with_variables_grounded(a, vars, n - 1);
        let q = a.with_variables(vars, n - 1);
        let v = vars[n - 1];
        with_var_on(q, v.id);
        let r = q.with_var(v.id);
        let loc = LocV {
            id: r.next_loc(),
            kind: place_kind(v.storage),
            var: Some(v.id),
            fn_id: v.fn_id,
            field: None,
            type_id: v.type_id,
            desc: v.name,
        };
        with_loc_on(r, loc);
        with_place_placed(r, v);
        with_grounds(r.with_loc(loc), r.with_place(v));
    }
}

proof fn with_functions_grounded(a: PagV, fns: Seq<FnV>, n: int)
    requires
        placed(a),
        grounded(a),
    ensures
        placed(a.with_functions(fns, n)),
        grounded(a.with_functions(fns, n)),
    decreases n,
{
    if n > 0 {
        with_functions_grounded(a, fns, n - 1);
        with_functions_placed(a, fns, n);
        let q = a.with_functions(fns, n - 1);
        let f = fns[n - 1];
        let loc = LocV {
            id: q.next_loc(),
            kind: LocKind::Function,
            var: None,
            fn_id: Some(f.id),
            field: None,
            type_id: f.return_type,
            desc: f.name,
        };
        if !has_key(q.fn_locations, f.id.0) {
            with_loc_on(q, loc);
            with_grounds(q.with_loc(loc), a.with_functions(fns, n));
        }
    }
}

pub proof fn indices_leave(a: PagV, from: int, to: int)
    ensures
        ({
            let b = a.with_indices(from, to);
            &&& b.constraints == a.constraints
            &&& b.nodes == a.nodes
            &&& b.var_node == a.var_node
            &&& b.var_location == a.var_location
            &&& b.fn_locations == a.fn_locations
            &&& b.string_locs == a.string_locs
        }),
    decreases to - from,
{
    if to > from {
        indices_leave(a, from, to - 1);
    }
}

pub proof fn call_indices_leave(a: PagV, sites: Seq<SiteV>, n: int)
    ensures
        ({
            let b = a.with_call_indices(sites, n);
            &&& b.constraints == a.constraints
            &&& b.nodes == a.nodes
            &&& b.var_node == a.var_node
            &&& b.var_location == a.var_location
            &&& b.fn_locations == a.fn_locations
            &&& b.string_locs == a.string_locs
        }),
    decreases n,
{
    if n > 0 {
        call_indices_leave(a, sites, n - 1);
    }
}

proof fn same_returns(a: PagV, b: PagV, p: ProgramV, dst: PagNodeId, f: FnId)
    requires
        returns_are_there(a, p, dst, f),
        b.constraints == a.constraints,
        b.nodes == a.nodes,
        b.var_node == a.var_node,
        b.var_location == a.var_location,
        b.fn_locations == a.fn_locations,
    ensures
        returns_are_there(b, p, dst, f),
{
    match returned(p.fn_returns, f.0, 0) {
        Some(flows) => {
            assert forall|j: int| 0 <= j < flows.len() implies return_is_there(
                b,
                p,
                dst,
                #[trigger] flows[j],
            ) by {
                assert(return_is_there(a, p, dst, flows[j]));
                match flows[j] {
                    ReturnV::Copy { src } => {
                        let i = choose|i: int| #[trigger] copies_to(a, i, dst, src);
                        assert(b.node_of_var(src) == a.node_of_var(src));
                        assert(copies_to(b, i, dst, src));
                    },
                    ReturnV::AddrOfFn { callee } => {
                        assert(b.fn_location(callee) == a.fn_location(callee));
                        match a.fn_location(callee) {
                            Some(l) => {
                                let i = choose|i: int| #[trigger]
                                    takes_address(a, i, dst.0, l.0);
                                assert(takes_address(b, i, dst.0, l.0));
                            },
                            None => {},
                        }
                    },
                    ReturnV::AddrOfVar { src } => {
                        assert(b.location_of_var(src) == a.location_of_var(src));
                        if p.symbols.variable(src) is Some {
                            let l = a.location_of_var(src)->0;
                            let i = choose|i: int| #[trigger] takes_address(a, i, dst.0, l.0);
                            assert(takes_address(b, i, dst.0, l.0));
                        }
                    },
                    ReturnV::Call { callee_name } => {},
                }
            }
        },
        None => {},
    }
}

/// Graphs that agree on constraints, nodes and places agree on flows.
proof fn same_flows(a: PagV, b: PagV, p: ProgramV, flow: FlowV)
    requires
        flow_is_there(a, p, flow),
        b.constraints == a.constraints,
        b.nodes == a.nodes,
        b.var_node == a.var_node,
        b.var_location == a.var_location,
        b.fn_locations == a.fn_locations,
        b.string_locs == a.string_locs,
    ensures
        flow_is_there(b, p, flow),
{
    assert forall|i: int, kind: ConstraintKind, dst: VarId, src: VarId| #[trigger]
        links(b, i, kind, dst, src) == links(a, i, kind, dst, src) by {
        assert(b.node_of_var(dst) == a.node_of_var(dst));
        assert(b.node_of_var(src) == a.node_of_var(src));
    }
    assert(b.constraints.take(a.constraints.len() as int) =~= a.constraints);
    assert forall|i: int, dst: VarId, l: LocId| #[trigger] points(b, i, dst, l) == points(
        a,
        i,
        dst,
        l,
    ) by {
        assert(b.node_of_var(dst) == a.node_of_var(dst));
    }
    match flow {
        FlowV::Copy { dst, src } => {
            let i = choose|i: int| #[trigger] links(a, i, ConstraintKind::Copy, dst, src);
            assert(links(b, i, ConstraintKind::Copy, dst, src));
        },
        FlowV::Load { dst, src } => {
            let i = choose|i: int| #[trigger] links(a, i, ConstraintKind::Load, dst, src);
            assert(links(b, i, ConstraintKind::Load, dst, src));
        },
        FlowV::Store { dst, src } => {
            let i = choose|i: int| #[trigger] links(a, i, ConstraintKind::Store, dst, src);
            assert(links(b, i, ConstraintKind::Store, dst, src));
        },
        FlowV::GepField { dst, base, field, field_name } => {
            let i = choose|i: int| #[trigger]
                links(a, i, ConstraintKind::Gep, dst, base) && a.constraints[i].field == Some(
                    field,
                ) && a.constraints[i].field_name == Some(field_name);
            assert(links(b, i, ConstraintKind::Gep, dst, base));
        },
        FlowV::AddrOfFn { dst, callee } => {
            assert(b.fn_location(callee) == a.fn_location(callee));
            match a.fn_location(callee) {
                Some(l) => {
                    let i = choose|i: int| #[trigger] points(a, i, dst, l);
                    assert(points(b, i, dst, l));
                },
                None => {},
            }
        },
        FlowV::AddrOfVar { dst, src } => {
            assert(b.location_of_var(src) == a.location_of_var(src));
            if p.symbols.variable(src) is Some {
                let l = a.location_of_var(src)->0;
                let i = choose|i: int| #[trigger] points(a, i, dst, l);
                assert(points(b, i, dst, l));
            }
        },
        FlowV::CallReturn { dst, callee_name } => {
            let n = a.node_of_var(dst)->0;
            assert(b.node_of_var(dst) == a.node_of_var(dst));
            let all = callees_of(p, dst, callee_name);
            assert forall|j: int| 0 <= j < all.len() implies returns_are_there(
                b,
                p,
                n,
                #[trigger] all[j],
            ) by {
                same_returns(a, b, p, n, all[j]);
            }
        },
        FlowV::ArrayFnMember { array, callee } => {
            assert(b.fn_location(callee) == a.fn_location(callee));
            match a.fn_location(callee) {
                Some(l) => {
                    let i = choose|i: int| #[trigger] points(a, i, array, l);
                    assert(points(b, i, array, l));
                },
                None => {},
            }
        },
        FlowV::StringConst { dst, value } => {
            let l = LocId(a.string_locs[value]);
            let i = choose|i: int| #[trigger] points(a, i, dst, l);
            assert(points(b, i, dst, l));
        },
        FlowV::NewHeap { dst } => {
            let (i, l) = choose|i: int, l: LocId| #[trigger] points(a, i, dst, l);
            assert(points(b, i, dst, l));
        },
        FlowV::CallReturnIndirect { dst, callee_var } => {},
    }
}

/// Every copy, load, store and field access of a program, every address that it
/// takes of a function, a variable or a string, the address of some place for
/// new storage, and all that the functions return that a call by name may be
/// of, is in its graph, unless the graph has run out of numbers for nodes.
pub proof fn flows_are_in_the_graph(p: ProgramV, models: Seq<ModelV>, k: int)
    requires
        0 <= k < p.flow.len(),
        p.graph(models).nodes.len() <= u32::MAX,
    ensures
        flow_is_there(solved_graph(p, models), p, p.flow[k]),
{
    let sites = p.symbols.call_sites;
    let vars = p.symbols.variables;
    let fns = p.symbols.functions;
    let e = PagV::empty();
    empty_is_placed();
    let a = e.with_variables(vars, vars.len() as int);
    with_variables_grounded(e, vars, vars.len() as int);
    let b = a.with_functions(fns, fns.len() as int);
    with_functions_grounded(a, fns, fns.len() as int);
    let c = b.with_flows(p, models, p.flow.len() as int);
    with_flows_on(b, p, models, p.flow.len() as int);
    let d = c.with_lookups(sites, models, sites.len() as int);
    with_lookups_on(c, sites, models, sites.len() as int);
    let f = d.with_calls(p, sites.len() as int);
    with_calls_on(d, p, sites.len() as int);
    let h = f.with_indices(0, f.constraints.len() as int);
    indices_leave(f, 0, f.constraints.len() as int);
    call_indices_leave(h, sites, sites.len() as int);
    let g = solved_graph(p, models);
    assert(g.nodes == f.nodes);
    assert(c.nodes.len() <= d.nodes.len() <= f.nodes.len());
    assert(flow_is_there(c, p, p.flow[k]));
    flow_stays(c, d, p, p.flow[k]);
    flow_stays(d, f, p, p.flow[k]);
    same_flows(f, g, p, p.flow[k]);
}

proof fn functions_are_listed(a: PagV, fns: Seq<FnV>, n: int)
    requires
        n <= fns.len(),
    ensures
        forall|i: int|
            0 <= i < n ==> has_key(
                a.with_functions(fns, n).fn_locations,
                (#[trigger] fns[i]).id.0,
            ),
    decreases n,
{
    if n > 0 {
        functions_are_listed(a, fns, n - 1);
        let q = a.with_functions(fns, n - 1);
        let b = a.with_functions(fns, n);
        entry_facts(q.fn_locations, fns[n - 1].id.0, q.next_loc().0);
        assert forall|i: int| 0 <= i < n implies has_key(
            b.fn_locations,
            (#[trigger] fns[i]).id.0,
        ) by {
            if i < n - 1 {
                assert(has_key(q.fn_locations, fns[i].id.0));
            }
        }
    }
}

/// Every function of a program has a place in its graph.
pub proof fn functions_have_places(p: ProgramV, models: Seq<ModelV>, i: int)
    requires
        0 <= i < p.symbols.functions.len(),
    ensures
        solved_graph(p, models).fn_location(p.symbols.functions[i].id) is Some,
{
    let sites = p.symbols.call_sites;
    let vars = p.symbols.variables;
    let fns = p.symbols.functions;
    let e = PagV::empty();
    empty_is_placed();
    let a = e.with_variables(vars, vars.len() as int);
    with_variables_grounded(e, vars, vars.len() as int);
    let b = a.with_functions(fns, fns.len() as int);
    functions_are_listed(a, fns, fns.len() as int);
    with_functions_grounded(a, fns, fns.len() as int);
    let c = b.with_flows(p, models, p.flow.len() as int);
    with_flows_on(b, p, models, p.flow.len() as int);
    let d = c.with_lookups(sites, models, sites.len() as int);
    with_lookups_on(c, sites, models, sites.len() as int);
    let f = d.with_calls(p, sites.len() as int);
    with_calls_on(d, p, sites.len() as int);
    let h = f.with_indices(0, f.constraints.len() as int);
    indices_leave(f, 0, f.constraints.len() as int);
    call_indices_leave(h, sites, sites.len() as int);
    assert(has_key(b.fn_locations, fns[i].id.0));
}

/// Where a program moves a function into a variable, the variable may hold the
/// function, whatever the budget.
pub proof fn functions_reach_variables(
    p: ProgramV,
    models: Seq<ModelV>,
    budget: nat,
    k: int,
    dst: VarId,
    callee: FnId,
    l: LocId,
)
    requires
        0 <= k < p.flow.len(),
        p.flow[k] == (FlowV::AddrOfFn { dst, callee }),
        p.graph(models).nodes.len() <= u32::MAX,
        p.graph(models).constraints.len() <= usize::MAX,
        solved_graph(p, models).fn_location(callee) == Some(l),
    ensures
        match solved_graph(p, models).node_of_var(dst) {
            Some(n) => may_hold(solved_graph(p, models), p, models, budget, n.0, l.0),
            None => false,
        },
{
    let g = solved_graph(p, models);
    flows_are_in_the_graph(p, models, k);
    let i = choose|i: int| #[trigger] points(g, i, dst, l);
    let n = g.node_of_var(dst)->0;
    addresses_are_held(g, p, models, budget, i, n.0, l.0);
}

/// Where a program moves the address of a variable into another, the other may
/// hold the place of the first, whatever the budget.
pub proof fn addresses_reach_variables(
    p: ProgramV,
    models: Seq<ModelV>,
    budget: nat,
    k: int,
    dst: VarId,
    src: VarId,
)
    requires
        0 <= k < p.flow.len(),
        p.flow[k] == (FlowV::AddrOfVar { dst, src }),
        p.symbols.variable(src) is Some,
        p.graph(models).nodes.len() <= u32::MAX,
        p.graph(models).constraints.len() <= usize::MAX,
    ensures
        ({
            let g = solved_graph(p, models);
            match (g.node_of_var(dst), g.location_of_var(src)) {
                (Some(n), Some(l)) => may_hold(g, p, models, budget, n.0, l.0),
                _ => false,
            }
        }),
{
    let g = solved_graph(p, models);
    flows_are_in_the_graph(p, models, k);
    let l = g.location_of_var(src)->0;
    let i = choose|i: int| #[trigger] points(g, i, dst, l);
    let n = g.node_of_var(dst)->0;
    addresses_are_held(g, p, models, budget, i, n.0, l.0);
}

/// Where a program copies one variable to another, the other may hold all that
/// the first may hold, unless the result is partial.
pub proof fn copies_carry_values(
    p: ProgramV,
    retain: bool,
    models: Seq<ModelV>,
    budget: Option<u64>,
    ipc: bool,
    k: int,
    dst: VarId,
    src: VarId,
    l: u32,
)
    requires
        0 <= k < p.flow.len(),
        p.flow[k] == (FlowV::Copy { dst, src }),
        p.graph(models).nodes.len() <= u32::MAX,
        p.graph(models).constraints.len() <= usize::MAX,
        budget is None || !p.analysis(retain, models, budget, ipc).1.partial,
    ensures
        ({
            let g = solved_graph(p, models);
            match (g.node_of_var(dst), g.node_of_var(src)) {
                (Some(d), Some(s)) => may_hold(g, p, models, looks(p, models, budget), s.0, l) ==> may_hold(
                    g,
                    p,
                    models,
                    looks(p, models, budget),
                    d.0,
                    l,
                ),
                _ => false,
            }
        }),
{
    if budget is None {
        unlimited_results_are_whole(p, retain, models, ipc);
    }
    let g = solved_graph(p, models);
    flows_are_in_the_graph(p, models, k);
    analysis_ends(p, retain, models, budget, ipc);
    graphs_are_indexed(p, models);
    let i = choose|i: int| #[trigger] links(g, i, ConstraintKind::Copy, dst, src);
    assert(indexed(g, i));
    let s = g.node_of_var(src)->0;
    if may_hold(g, p, models, looks(p, models, budget), s.0, l) {
        copies_are_closed(g, p, models, looks(p, models, budget), i, l);
    }
}

/// Where a program loads through a variable, what the places hold that the
/// variable may hold arrives, but for functions that the places may not hold,
/// unless the result is partial; a function is its own value.
pub proof fn loads_carry_values(
    p: ProgramV,
    retain: bool,
    models: Seq<ModelV>,
    budget: Option<u64>,
    ipc: bool,
    k: int,
    dst: VarId,
    src: VarId,
    l: u32,
    v: u32,
)
    requires
        0 <= k < p.flow.len(),
        p.flow[k] == (FlowV::Load { dst, src }),
        p.graph(models).nodes.len() <= u32::MAX,
        p.graph(models).constraints.len() <= usize::MAX,
        budget is None || !p.analysis(retain, models, budget, ipc).1.partial,
    ensures
        ({
            let g = solved_graph(p, models);
            let n = looks(p, models, budget);
            match (g.node_of_var(dst), g.node_of_var(src)) {
                (Some(d), Some(s)) => may_hold(g, p, models, n, s.0, l) ==> {
                    &&& g.function_at(LocId(l)) is Some ==> may_hold(g, p, models, n, d.0, l)
                    &&& g.function_at(LocId(l)) is None && in_memory(g, p, models, n, l, v)
                        && (g.function_at(LocId(v)) is None || g.start(p, models).run(
                        p,
                        models,
                        n,
                    ).st.allows(l, v)) ==> may_hold(
                        g,
                        p,
                        models,
                        n,
                        d.0,
                        v,
                    )
                },
                _ => false,
            }
        }),
{
    if budget is None {
        unlimited_results_are_whole(p, retain, models, ipc);
    }
    let g = solved_graph(p, models);
    flows_are_in_the_graph(p, models, k);
    analysis_ends(p, retain, models, budget, ipc);
    graphs_are_indexed(p, models);
    let i = choose|i: int| #[trigger] links(g, i, ConstraintKind::Load, dst, src);
    assert(indexed(g, i));
    let s = g.node_of_var(src)->0;
    if may_hold(g, p, models, looks(p, models, budget), s.0, l) {
        loads_are_closed(g, p, models, looks(p, models, budget), i, l, v);
    }
}

/// Where a program stores through a variable, what is stored is in the places
/// that the variable may hold, as far as their types let functions in, unless
/// the result is partial.
pub proof fn stores_carry_values(
    p: ProgramV,
    retain: bool,
    models: Seq<ModelV>,
    budget: Option<u64>,
    ipc: bool,
    k: int,
    dst: VarId,
    src: VarId,
    l: u32,
    v: u32,
)
    requires
        0 <= k < p.flow.len(),
        p.flow[k] == (FlowV::Store { dst, src }),
        p.graph(models).nodes.len() <= u32::MAX,
        p.graph(models).constraints.len() <= usize::MAX,
        budget is None || !p.analysis(retain, models, budget, ipc).1.partial,
        solved_graph(p, models).function_at(LocId(l)) is None,
        ({
            let g = solved_graph(p, models);
            g.function_at(LocId(v)) is None || g.start(p, models).run(
                p,
                models,
                looks(p, models, budget),
            ).st.allows(l, v)
        }),
    ensures
        ({
            let g = solved_graph(p, models);
            let n = looks(p, models, budget);
            match (g.node_of_var(dst), g.node_of_var(src)) {
                (Some(d), Some(s)) => may_hold(g, p, models, n, d.0, l) && may_hold(
                    g,
                    p,
                    models,
                    n,
                    s.0,
                    v,
                ) ==> in_memory(g, p, models, n, l, v),
                _ => false,
            }
        }),
{
    if budget is None {
        unlimited_results_are_whole(p, retain, models, ipc);
    }
    let g = solved_graph(p, models);
    let n = looks(p, models, budget);
    flows_are_in_the_graph(p, models, k);
    analysis_ends(p, retain, models, budget, ipc);
    graphs_are_indexed(p, models);
    let i = choose|i: int| #[trigger] links(g, i, ConstraintKind::Store, dst, src);
    assert(indexed(g, i));
    let d = g.node_of_var(dst)->0;
    let s = g.node_of_var(src)->0;
    if may_hold(g, p, models, n, d.0, l) && may_hold(g, p, models, n, s.0, v) {
        stores_are_closed(g, p, models, n, i, l, v);
    }
}

/// Where a program takes the address of a field through a variable, the field
/// of every object that the variable may hold and that has it arrives, unless
/// the result is partial.
pub proof fn accesses_carry_fields(
    p: ProgramV,
    retain: bool,
    models: Seq<ModelV>,
    budget: Option<u64>,
    ipc: bool,
    k: int,
    dst: VarId,
    base: VarId,
    field: FieldId,
    name: Seq<char>,
    l: u32,
)
    requires
        0 <= k < p.flow.len(),
        p.flow[k] == (FlowV::GepField { dst, base, field, field_name: name }),
        p.graph(models).nodes.len() <= u32::MAX,
        p.graph(models).constraints.len() <= usize::MAX,
        budget is None || !p.analysis(retain, models, budget, ipc).1.partial,
        has_field(
            solved_pag(solved_graph(p, models), p, models, looks(p, models, budget)),
            p,
            l,
            field,
            Some(name),
        ),
    ensures
        ({
            let g = solved_graph(p, models);
            match (g.node_of_var(dst), g.node_of_var(base)) {
                (Some(d), Some(s)) => may_hold(g, p, models, looks(p, models, budget), s.0, l)
                    ==> may_hold_field(g, p, models, looks(p, models, budget), d.0, l, field),
                _ => false,
            }
        }),
{
    if budget is None {
        unlimited_results_are_whole(p, retain, models, ipc);
    }
    let g = solved_graph(p, models);
    flows_are_in_the_graph(p, models, k);
    analysis_ends(p, retain, models, budget, ipc);
    accesses_are_listed(p, models);
    graphs_are_placed(p, models);
    let i = choose|i: int| #[trigger]
        links(g, i, ConstraintKind::Gep, dst, base) && g.constraints[i].field == Some(field)
            && g.constraints[i].field_name == Some(name);
    assert(listed(g, i));
    let s = g.node_of_var(base)->0;
    if may_hold(g, p, models, looks(p, models, budget), s.0, l) {
        fields_are_reached(g, p, models, looks(p, models, budget), i, l);
    }
}

proof fn callee_returns(g: PagV, p: ProgramV, flow: FlowV, j: int)
    requires
        flow_is_there(g, p, flow),
    ensures
        match flow {
            FlowV::CallReturn { dst, callee_name } => 0 <= j < callees_of(
                p,
                dst,
                callee_name,
            ).len() ==> match g.node_of_var(dst) {
                Some(n) => returns_are_there(g, p, n, callees_of(p, dst, callee_name)[j]),
                None => false,
            },
            _ => true,
        },
{
    match flow {
        FlowV::CallReturn { dst, callee_name } => {
            let all = callees_of(p, dst, callee_name);
            if 0 <= j < all.len() {
                assert(returns_are_there(g, p, g.node_of_var(dst)->0, all[j]));
            }
        },
        _ => {},
    }
}

proof fn one_return(
    p: ProgramV,
    models: Seq<ModelV>,
    k: int,
    dst: VarId,
    callee_name: Seq<char>,
    j: int,
    m: int,
)
    requires
        0 <= k < p.flow.len(),
        p.flow[k] == (FlowV::CallReturn { dst, callee_name }),
        0 <= j < callees_of(p, dst, callee_name).len(),
        match returned(p.fn_returns, callees_of(p, dst, callee_name)[j].0, 0) {
            Some(flows) => 0 <= m < flows.len(),
            None => false,
        },
        p.graph(models).nodes.len() <= u32::MAX,
    ensures
        ({
            let g = solved_graph(p, models);
            match (
                g.node_of_var(dst),
                returned(p.fn_returns, callees_of(p, dst, callee_name)[j].0, 0),
            ) {
                (Some(n), Some(flows)) => return_is_there(g, p, n, flows[m]),
                _ => false,
            }
        }),
{
    let g = solved_graph(p, models);
    flows_are_in_the_graph(p, models, k);
    callee_returns(g, p, p.flow[k], j);
}

/// Where the result of a call by name goes into a variable, the variable may
/// hold every function that a function of that name returns the address of,
/// whatever the budget.
pub proof fn returned_functions_arrive(
    p: ProgramV,
    models: Seq<ModelV>,
    budget: nat,
    k: int,
    dst: VarId,
    callee_name: Seq<char>,
    j: int,
    m: int,
    f: FnId,
    l: LocId,
)
    requires
        0 <= k < p.flow.len(),
        p.flow[k] == (FlowV::CallReturn { dst, callee_name }),
        0 <= j < callees_of(p, dst, callee_name).len(),
        match returned(p.fn_returns, callees_of(p, dst, callee_name)[j].0, 0) {
            Some(flows) => 0 <= m < flows.len() && flows[m] == (ReturnV::AddrOfFn { callee: f }),
            None => false,
        },
        p.graph(models).nodes.len() <= u32::MAX,
        p.graph(models).constraints.len() <= usize::MAX,
        solved_graph(p, models).fn_location(f) == Some(l),
    ensures
        match solved_graph(p, models).node_of_var(dst) {
            Some(n) => may_hold(solved_graph(p, models), p, models, budget, n.0, l.0),
            None => false,
        },
{
    let g = solved_graph(p, models);
    let n = g.node_of_var(dst)->0;
    one_return(p, models, k, dst, callee_name, j, m);
    let i = choose|i: int| #[trigger] takes_address(g, i, n.0, l.0);
    addresses_are_held(g, p, models, budget, i, n.0, l.0);
}

/// Where the result of a call by name goes into a variable, the variable may
/// hold all that a variable may hold that a function of that name returns,
/// unless the result is partial.
pub proof fn returned_values_arrive(
    p: ProgramV,
    retain: bool,
    models: Seq<ModelV>,
    budget: Option<u64>,
    ipc: bool,
    k: int,
    dst: VarId,
    callee_name: Seq<char>,
    j: int,
    m: int,
    src: VarId,
    l: u32,
)
    requires
        0 <= k < p.flow.len(),
        p.flow[k] == (FlowV::CallReturn { dst, callee_name }),
        0 <= j < callees_of(p, dst, callee_name).len(),
        match returned(p.fn_returns, callees_of(p, dst, callee_name)[j].0, 0) {
            Some(flows) => 0 <= m < flows.len() && flows[m] == (ReturnV::Copy { src }),
            None => false,
        },
        p.graph(models).nodes.len() <= u32::MAX,
        p.graph(models).constraints.len() <= usize::MAX,
        budget is None || !p.analysis(retain, models, budget, ipc).1.partial,
    ensures
        ({
            let g = solved_graph(p, models);
            match (g.node_of_var(dst), g.node_of_var(src)) {
                (Some(d), Some(s)) => may_hold(g, p, models, looks(p, models, budget), s.0, l) ==> may_hold(
                    g,
                    p,
                    models,
                    looks(p, models, budget),
                    d.0,
                    l,
                ),
                _ => false,
            }
        }),
{
    if budget is None {
        unlimited_results_are_whole(p, retain, models, ipc);
    }
    let g = solved_graph(p, models);
    let n = g.node_of_var(dst)->0;
    one_return(p, models, k, dst, callee_name, j, m);
    analysis_ends(p, retain, models, budget, ipc);
    graphs_are_indexed(p, models);
    let i = choose|i: int| #[trigger] copies_to(g, i, n, src);
    assert(indexed(g, i));
    let s = g.node_of_var(src)->0;
    if may_hold(g, p, models, looks(p, models, budget), s.0, l) {
        copies_are_closed(g, p, models, looks(p, models, budget), i, l);
    }
}

proof fn indices_keep_constraints(g: PagV, from: int, n: int)
    ensures
        g.with_indices(from, n).constraints == g.constraints,
        g.with_indices(from, n).nodes == g.nodes,
    decreases n - from,
{
    if from < n {
        indices_keep_constraints(g, from, n - 1);
    }
}

/// Where the result of a call through a variable is taken, and the call is found
/// to reach a function that returns the address of another, the graph says that
/// what takes the result gets that address.
pub proof fn results_of_pointer_calls_arrive(
    r: RunV,
    p: ProgramV,
    models: Seq<ModelV>,
    cs: SiteV,
    v: VarId,
    callee: FnId,
    m: int,
    f: FnId,
)
    requires
        placed(r.pag),
        grounded(r.pag),
        cs.callee_var == Some(v),
        r.pag.indirect_return_dst.contains_key(v.0),
        match returned(p.fn_returns, callee.0, 0) {
            Some(flows) => 0 <= m < flows.len() && flows[m] == (ReturnV::AddrOfFn { callee: f }),
            None => false,
        },
        r.pag.with_returns_of(
            p,
            models,
            PagNodeId(r.pag.indirect_return_dst[v.0]),
            callee,
        ).nodes.len() <= u32::MAX,
    ensures
        ({
            let dst = r.pag.indirect_return_dst[v.0];
            let q = r.pag.with_returns_of(p, models, PagNodeId(dst), callee);
            let end = r.with_returns(p, models, cs, callee).pag;
            &&& end.constraints == q.constraints
            &&& q.fn_location(f) matches Some(l) ==> exists|i: int| #[trigger]
                takes_address(end, i, dst, l.0)
        }),
{
    let dst = PagNodeId(r.pag.indirect_return_dst[v.0]);
    let e = ExpandV { pag: r.pag, visited: Set::empty(), applied: false };
    let fuel = p.fn_returns.len() + 1;
    expand_returns(e, p, models, dst, callee, fuel);
    let b = e.expand(p, models, dst, callee, fuel);
    let q = b.pag;
    assert(b.visited.contains(callee.0));
    assert(FnId(callee.0) == callee);
    assert(returns_are_there(q, p, dst, callee));
    let from = r.pag.constraints.len() as int;
    indices_keep_constraints(q, from, q.constraints.len() as int);
    let end = r.with_returns(p, models, cs, callee).pag;
    let flows = returned(p.fn_returns, callee.0, 0)->0;
    assert(return_is_there(q, p, dst, flows[m]));
    if let Some(l) = q.fn_location(f) {
        let i = choose|i: int| #[trigger] takes_address(q, i, dst.0, l.0);
        assert(takes_address(end, i, dst.0, l.0));
    }
}

} // verus!
